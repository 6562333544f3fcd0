use ydm::browser::all_browsers;
use ydm::browser::check_all_extensions;
use ydm::browser::delete_policy_key;
use ydm::browser::detect_installed;
use ydm::browser::integration_mark;
use ydm::browser::integration_targets;
use ydm::browser::mark_integration_done;
use ydm::browser::run_integration;
use ydm::browser::sentinel_path;
use ydm::browser::write_policy_key;
use ydm::browser::BrowserInfo;
use ydm::browser::Candidate;
use ydm::browser::ExtensionStatus;
use ydm::browser::Finding;
use ydm::browser::Folders;
use ydm::browser::EXTENSION_ID;
use ydm::paths::FilePath;
use ydm::paths::PathBase;
use ydm::platform::Timestamp;

fn folders() -> Folders {
    Folders::from_environment(Some("L".to_string()), Some("A".to_string()), None, None)
}

fn browsers() -> Vec<BrowserInfo> {
    all_browsers(&folders())
}

fn show(p: &FilePath) -> String {
    let base = match &p.base {
        PathBase::ConfigDir => "CONFIG".to_string(),
        PathBase::Dir(d) => d.clone(),
    };
    format!("{}|{}", base, p.parts.join("|"))
}

fn statuses(installed: &[bool]) -> Vec<ExtensionStatus> {
    browsers()
        .into_iter()
        .zip(installed.iter())
        .map(|(browser, yes)| ExtensionStatus { browser, in_profile: *yes, in_registry: false })
        .collect()
}

#[test]
fn folders_from_the_environment() {
    let f = folders();
    assert_eq!(f.pf, r"C:\Program Files");
    assert_eq!(f.pf86, r"C:\Program Files (x86)");
    let f = Folders::from_environment(None, None, Some("P".to_string()), Some("Q".to_string()));
    assert_eq!((f.local, f.appd, f.pf, f.pf86), (String::new(), String::new(), "P".to_string(), "Q".to_string()));
}

#[test]
fn the_browsers() {
    let b = browsers();
    let keys: Vec<&str> = b.iter().map(|b| b.key).collect();
    let names: Vec<&str> = b.iter().map(|b| b.name).collect();
    assert_eq!(keys, vec!["chrome", "edge", "brave", "opera"]);
    assert_eq!(names, vec!["Google Chrome", "Microsoft Edge", "Brave Browser", "Opera"]);
    let paths: Vec<String> = b[0].exe_paths.iter().map(show).collect();
    assert_eq!(
        paths,
        vec![
            r"L|Google\Chrome\Application\chrome.exe",
            r"C:\Program Files|Google\Chrome\Application\chrome.exe",
            r"C:\Program Files (x86)|Google\Chrome\Application\chrome.exe"
        ]
    );
    let paths: Vec<String> = b[3].exe_paths.iter().map(show).collect();
    assert_eq!(
        paths,
        vec![
            r"A|Opera Software\Opera Stable\opera.exe",
            r"L|Programs\Opera\opera.exe",
            r"C:\Program Files|Opera\opera.exe",
            r"C:\Program Files (x86)|Opera\opera.exe"
        ]
    );
    assert_eq!(show(&b[1].profile_base), r"L|Microsoft\Edge\User Data");
    assert_eq!(show(&b[2].profile_base), r"A|BraveSoftware\Brave-Browser\User Data");
    assert_eq!(b[1].reg_tpl, r"Software\Microsoft\Edge\Extensions\{id}");
    assert_eq!(b[2].reg_tpl, r"Software\Google\Chrome\Extensions\{id}");
}

#[test]
fn installed_where_a_program_is() {
    let candidates: Vec<Candidate> = browsers()
        .into_iter()
        .map(|browser| {
            let n = browser.exe_paths.len();
            let mut exist = vec![false; n];
            if browser.key == "edge" || browser.key == "opera" {
                exist[n - 1] = true;
            }
            Candidate { browser, exist }
        })
        .collect();
    let found: Vec<&str> = detect_installed(candidates).iter().map(|b| b.key).collect();
    assert_eq!(found, vec!["edge", "opera"]);
}

#[test]
fn extensions_in_profiles() {
    let b = browsers();
    let paths: Vec<String> = b[0].extension_paths("x").iter().map(show).collect();
    let base = r"L|Google\Chrome\User Data";
    assert_eq!(
        paths,
        vec![
            format!("{}|Default|Extensions|x", base),
            format!("{}|Profile 1|Extensions|x", base),
            format!("{}|Profile 2|Extensions|x", base),
            format!("{}|Guest Profile|Extensions|x", base)
        ]
    );
    let second = vec![false, true, false, false];
    assert!(b[0].extension_in_profile(true, &second));
    assert!(!b[0].extension_in_profile(false, &second));
    assert!(!b[0].extension_in_profile(true, &vec![false; 4]));
}

#[test]
fn statuses_of_extensions() {
    let findings: Vec<Finding> = browsers()
        .into_iter()
        .map(|browser| {
            let in_registry = browser.key == "chrome";
            let exist = vec![browser.key == "edge", false, false, false];
            Finding { browser, base_exists: true, exist, in_registry }
        })
        .collect();
    let st = check_all_extensions(findings);
    let installed: Vec<bool> = st.iter().map(|s| s.is_installed()).collect();
    assert_eq!(installed, vec![true, true, false, false]);
    assert!(st[0].in_registry && !st[0].in_profile);
    assert!(st[1].in_profile && !st[1].in_registry);
}

#[test]
fn keys_in_the_registry() {
    let b = browsers();
    let k = write_policy_key(&b[1], r"C:\y\ydm_extension.crx", EXTENSION_ID);
    assert_eq!(
        k.key,
        r"Software\Microsoft\Edge\Extensions\efdfoecbgnmpmmfchhnabejiknoejaeb"
    );
    assert_eq!(k.path, r"C:\y\ydm_extension.crx");
    assert_eq!(k.version, "1.0.0");
    assert_eq!(delete_policy_key(&b[0], "x"), r"Software\Google\Chrome\Extensions\x");
    assert_eq!(b[0].registry_key("x"), r"Software\Google\Chrome\Extensions\x");
}

#[test]
fn keys_only_where_the_extension_lacks() {
    let st = statuses(&[true, false, true, false]);
    assert_eq!(integration_targets(&st, false), vec![1, 3]);
    assert_eq!(integration_targets(&st, true).len(), 0);
}

#[test]
fn the_report_names_what_was_written() {
    let r = run_integration(statuses(&[false, false, true, false]), false, &vec![true, false, true]);
    assert_eq!(r.wrote_keys, vec!["Google Chrome", "Opera"]);
    assert_eq!(r.statuses.len(), 4);
    assert!(!r.no_crx);
    let r = run_integration(statuses(&[false, false, false, false]), true, &Vec::new());
    assert_eq!(r.wrote_keys.len(), 0);
    assert!(r.no_crx);
}

#[test]
fn the_mark_of_a_moment() {
    let (path, text) = integration_mark(Timestamp { secs: 1_700_000_000, nanos: 0 }).unwrap();
    assert_eq!(path, sentinel_path());
    assert_eq!(text, "2023-11-14T22:13:20+00:00");
    let (_, text) = integration_mark(Timestamp { secs: 0, nanos: 5_000_000 }).unwrap();
    assert_eq!(text, "1970-01-01T00:00:00.005+00:00");
    assert_eq!(integration_mark(Timestamp { secs: i64::MAX, nanos: 0 }), None);
}

#[test]
fn the_mark_holds_the_moment() {
    let (path, text) = mark_integration_done();
    assert_eq!(path, sentinel_path());
    assert_eq!(show(&path), "CONFIG|YDM|.integration_done");
    let at = chrono::DateTime::parse_from_rfc3339(&text).unwrap();
    assert!(at.timestamp() > 1_600_000_000);
    assert!(text.ends_with("+00:00"));
}
