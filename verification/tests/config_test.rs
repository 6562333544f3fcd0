use ydm::config::config_path;
use ydm::config::history_path;
use ydm::config::is_startup_enabled;
use ydm::config::load;
use ydm::config::load_history;
use ydm::config::run_key;
use ydm::config::save_history;
use ydm::config::set_startup;
use ydm::config::startup_name;
use ydm::config::StartupChange;
use ydm::paths::FilePath;
use ydm::paths::PathBase;
use ydm::types::Config;
use ydm::types::DownloadItem;
use ydm::types::DownloadStatus;

fn item(id: &str, status: DownloadStatus) -> DownloadItem {
    let mut i = DownloadItem::new("u".to_string(), "f".to_string(), "s".to_string());
    i.id = id.to_string();
    i.status = status;
    i
}

fn ids(items: &[DownloadItem]) -> Vec<String> {
    items.iter().map(|i| i.id.clone()).collect()
}

#[test]
fn paths_in_the_config_folder() {
    assert_eq!(config_path().base, PathBase::ConfigDir);
    assert_eq!(config_path().parts, vec!["YDM", "config.json"]);
    assert_eq!(history_path().parts, vec!["YDM", "history.json"]);
    let p = FilePath::folder("/a", "b").join("c");
    assert_eq!(p.base, PathBase::Dir("/a".to_string()));
    assert_eq!(p.parts, vec!["b", "c"]);
}

#[test]
fn settings_that_were_read_are_kept() {
    let mut cfg = Config::first(None, "t".to_string());
    cfg.segments = 3;
    assert_eq!(load(Some(cfg.clone())), cfg);
    assert_eq!(load(None).segments, 16);
    assert_eq!(load(None).api_token.len(), 36);
}

#[test]
fn history_that_was_read_is_kept() {
    let h = load_history(Some(vec![item("a", DownloadStatus::Completed)]));
    assert_eq!(ids(&h), vec!["a"]);
    assert_eq!(load_history(None).len(), 0);
}

#[test]
fn saved_history_holds_completed_downloads_last_first() {
    let items = vec![
        item("a", DownloadStatus::Completed),
        item("b", DownloadStatus::Cancelled),
        item("c", DownloadStatus::Completed),
        item("d", DownloadStatus::Failed("x".to_string())),
    ];
    assert_eq!(ids(&save_history(&items)), vec!["c", "a"]);
    let many: Vec<DownloadItem> =
        (0..501).map(|i| item(&format!("{}", i), DownloadStatus::Completed)).collect();
    let saved = save_history(&many);
    assert_eq!(saved.len(), 500);
    assert_eq!(saved[0].id, "500");
    assert_eq!(saved[499].id, "1");
}

#[test]
fn saving_twice_restores() {
    let items = vec![item("a", DownloadStatus::Completed), item("b", DownloadStatus::Completed)];
    assert_eq!(ids(&save_history(&save_history(&items))), vec!["a", "b"]);
}

#[test]
fn startup_changes() {
    assert_eq!(
        set_startup(true, true, r"C:\y.exe"),
        StartupChange::Write {
            name: "YDM".to_string(),
            command: "\"C:\\y.exe\" --tray".to_string()
        }
    );
    assert_eq!(set_startup(true, false, "x"), StartupChange::Delete { name: "YDM".to_string() });
    assert_eq!(set_startup(false, true, "x"), StartupChange::Nothing);
    assert_eq!(startup_name(), "YDM");
    assert_eq!(run_key(), r"Software\Microsoft\Windows\CurrentVersion\Run");
    assert!(is_startup_enabled(true, true));
    assert!(!is_startup_enabled(true, false));
    assert!(!is_startup_enabled(false, true));
}
