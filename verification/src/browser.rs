//! Browsers, and the extension in them.
//!
//! The extension is installed by registry keys that tell a browser to fetch it
//! when it starts next. No browser is started for it.

use crate::paths::in_config;
use crate::paths::in_folder;
use crate::paths::FilePath;
use crate::paths::PathView;
use crate::platform::now;
use crate::platform::rfc3339;
use crate::platform::rfc3339_text;
use crate::platform::Timestamp;
use crate::text::substitute;
use crate::text::substituted;
use crate::text::views;
use vstd::prelude::*;

verus! {

/// The extension's identifier in the browsers.
pub const EXTENSION_ID: &'static str = "efdfoecbgnmpmmfchhnabejiknoejaeb";

/// The file that holds the extension.
pub const CRX_FILENAME: &'static str = "ydm_extension.crx";

/// The extension's version.
pub const CRX_VERSION: &'static str = "1.0.0";

/// A browser that may be there.
#[derive(Debug, PartialEq, Eq)]
pub struct BrowserInfo {
    pub key: &'static str,
    pub name: &'static str,
    pub exe_paths: Vec<FilePath>,
    pub profile_base: FilePath,
    /// The registry key, with `{id}` for the extension's identifier.
    pub reg_tpl: &'static str,
}

/// A browser as a mathematical value.
#[verifier::ext_equal]
pub ghost struct BrowserView {
    pub key: Seq<char>,
    pub name: Seq<char>,
    pub exe_paths: Seq<PathView>,
    pub profile_base: PathView,
    pub reg_tpl: Seq<char>,
}

/// The views of a list of places.
pub open spec fn path_views(v: Seq<FilePath>) -> Seq<PathView> {
    v.map_values(|p: FilePath| p@)
}

impl View for BrowserInfo {
    type V = BrowserView;

    open spec fn view(&self) -> BrowserView {
        BrowserView {
            key: self.key@,
            name: self.name@,
            exe_paths: path_views(self.exe_paths@),
            profile_base: self.profile_base@,
            reg_tpl: self.reg_tpl@,
        }
    }
}

/// One of the answers is yes.
pub open spec fn any_yes(answers: Seq<bool>) -> bool {
    exists|i: int| 0 <= i < answers.len() && #[trigger] answers[i]
}

/// Whether one of the answers is yes.
fn any(answers: &Vec<bool>) -> (r: bool)
    ensures
        r == any_yes(answers@),
{
    let mut i: usize = 0;
    while i < answers.len()
        invariant
            i <= answers.len(),
            forall|k: int| 0 <= k < i ==> !#[trigger] answers@[k],
        decreases answers.len() - i,
    {
        if answers[i] {
            return true;
        }
        i += 1;
    }
    false
}

/// The profile folders that are looked into.
pub open spec fn profile_names() -> Seq<Seq<char>> {
    seq!["Default"@, "Profile 1"@, "Profile 2"@, "Guest Profile"@]
}

impl BrowserInfo {
    /// Whether the browser is installed, given for each place of its program
    /// whether the place exists.
    pub fn is_installed(&self, exist: &Vec<bool>) -> (r: bool)
        requires
            exist.len() == self.exe_paths.len(),
        ensures
            r == any_yes(exist@),
    {
        any(exist)
    }

    /// The places where the extension may be in a profile.
    pub fn extension_paths(&self, ext_id: &str) -> (r: Vec<FilePath>)
        ensures
            r@.len() == profile_names().len(),
            forall|i: int|
                0 <= i < profile_names().len() ==> (#[trigger] r@[i])@ == self@.profile_base.join(
                    profile_names()[i],
                ).join("Extensions"@).join(ext_id@),
    {
        let mut out: Vec<FilePath> = Vec::new();
        out.push(self.profile_base.join("Default").join("Extensions").join(ext_id));
        out.push(self.profile_base.join("Profile 1").join("Extensions").join(ext_id));
        out.push(self.profile_base.join("Profile 2").join("Extensions").join(ext_id));
        out.push(self.profile_base.join("Guest Profile").join("Extensions").join(ext_id));
        out
    }

    /// Whether the extension is in a profile, given whether the profile folder
    /// exists, and for each of the places whether it does.
    pub fn extension_in_profile(&self, base_exists: bool, exist: &Vec<bool>) -> (r: bool)
        requires
            exist.len() == profile_names().len(),
        ensures
            r == (base_exists && any_yes(exist@)),
    {
        if !base_exists {
            return false;
        }
        any(exist)
    }

    /// The registry key for an extension.
    pub fn registry_key(&self, ext_id: &str) -> (r: String)
        ensures
            r@ == substituted(self@.reg_tpl, "{id}"@, ext_id@),
    {
        proof {
            reveal_strlit("{id}");
        }
        substitute(self.reg_tpl, "{id}", ext_id)
    }
}

// ---------------------------------------------------------------------------
// The browsers that are known
// ---------------------------------------------------------------------------

/// The folders in which browsers are looked for.
#[derive(Debug, PartialEq, Eq)]
pub struct Folders {
    pub local: String,
    pub appd: String,
    pub pf: String,
    pub pf86: String,
}

/// A text, or another where there is none.
fn text_or(s: Option<String>, other: &str) -> (r: String)
    ensures
        r@ == match s {
            Some(t) => t@,
            None => other@,
        },
{
    match s {
        Some(t) => t,
        None => other.to_string(),
    }
}

impl Folders {
    /// The folders that the environment names; the program folders have usual
    /// places, the others none.
    pub fn from_environment(
        local_app_data: Option<String>,
        app_data: Option<String>,
        program_files: Option<String>,
        program_files_x86: Option<String>,
    ) -> (r: Self)
        ensures
            r.local@ == match local_app_data {
                Some(s) => s@,
                None => ""@,
            },
            r.appd@ == match app_data {
                Some(s) => s@,
                None => ""@,
            },
            r.pf@ == match program_files {
                Some(s) => s@,
                None => "C:\\Program Files"@,
            },
            r.pf86@ == match program_files_x86 {
                Some(s) => s@,
                None => "C:\\Program Files (x86)"@,
            },
    {
        Folders {
            local: text_or(local_app_data, ""),
            appd: text_or(app_data, ""),
            pf: text_or(program_files, "C:\\Program Files"),
            pf86: text_or(program_files_x86, "C:\\Program Files (x86)"),
        }
    }
}

/// Google Chrome.
pub open spec fn chrome(f: Folders) -> BrowserView {
    let exe = "Google\\Chrome\\Application\\chrome.exe"@;
    BrowserView {
        key: "chrome"@,
        name: "Google Chrome"@,
        exe_paths: seq![in_folder(f.local@, exe), in_folder(f.pf@, exe), in_folder(f.pf86@, exe)],
        profile_base: in_folder(f.local@, "Google\\Chrome\\User Data"@),
        reg_tpl: "Software\\Google\\Chrome\\Extensions\\{id}"@,
    }
}

/// Microsoft Edge.
pub open spec fn edge(f: Folders) -> BrowserView {
    let exe = "Microsoft\\Edge\\Application\\msedge.exe"@;
    BrowserView {
        key: "edge"@,
        name: "Microsoft Edge"@,
        exe_paths: seq![in_folder(f.pf@, exe), in_folder(f.pf86@, exe), in_folder(f.local@, exe)],
        profile_base: in_folder(f.local@, "Microsoft\\Edge\\User Data"@),
        reg_tpl: "Software\\Microsoft\\Edge\\Extensions\\{id}"@,
    }
}

/// Brave.
pub open spec fn brave(f: Folders) -> BrowserView {
    let exe = "BraveSoftware\\Brave-Browser\\Application\\brave.exe"@;
    BrowserView {
        key: "brave"@,
        name: "Brave Browser"@,
        exe_paths: seq![in_folder(f.pf@, exe), in_folder(f.pf86@, exe), in_folder(f.local@, exe)],
        profile_base: in_folder(f.appd@, "BraveSoftware\\Brave-Browser\\User Data"@),
        reg_tpl: "Software\\Google\\Chrome\\Extensions\\{id}"@,
    }
}

/// Opera.
pub open spec fn opera(f: Folders) -> BrowserView {
    BrowserView {
        key: "opera"@,
        name: "Opera"@,
        exe_paths: seq![
            in_folder(f.appd@, "Opera Software\\Opera Stable\\opera.exe"@),
            in_folder(f.local@, "Programs\\Opera\\opera.exe"@),
            in_folder(f.pf@, "Opera\\opera.exe"@),
            in_folder(f.pf86@, "Opera\\opera.exe"@),
        ],
        profile_base: in_folder(f.appd@, "Opera Software\\Opera Stable"@),
        reg_tpl: "Software\\Google\\Chrome\\Extensions\\{id}"@,
    }
}

/// The places of one program in three folders.
fn three_places(a: &str, b: &str, c: &str, exe: &str) -> (r: Vec<FilePath>)
    ensures
        path_views(r@) == seq![in_folder(a@, exe@), in_folder(b@, exe@), in_folder(c@, exe@)],
{
    let mut out: Vec<FilePath> = Vec::new();
    out.push(FilePath::folder(a, exe));
    out.push(FilePath::folder(b, exe));
    out.push(FilePath::folder(c, exe));
    assert(path_views(out@) =~= seq![
        in_folder(a@, exe@),
        in_folder(b@, exe@),
        in_folder(c@, exe@),
    ]);
    out
}

/// The browsers that are known.
pub fn all_browsers(f: &Folders) -> (r: Vec<BrowserInfo>)
    ensures
        browser_views(r@) == seq![chrome(*f), edge(*f), brave(*f), opera(*f)],
{
    let local = f.local.as_str();
    let appd = f.appd.as_str();
    let pf = f.pf.as_str();
    let pf86 = f.pf86.as_str();
    let chrome_info = BrowserInfo {
        key: "chrome",
        name: "Google Chrome",
        exe_paths: three_places(local, pf, pf86, "Google\\Chrome\\Application\\chrome.exe"),
        profile_base: FilePath::folder(local, "Google\\Chrome\\User Data"),
        reg_tpl: "Software\\Google\\Chrome\\Extensions\\{id}",
    };
    let edge_info = BrowserInfo {
        key: "edge",
        name: "Microsoft Edge",
        exe_paths: three_places(pf, pf86, local, "Microsoft\\Edge\\Application\\msedge.exe"),
        profile_base: FilePath::folder(local, "Microsoft\\Edge\\User Data"),
        reg_tpl: "Software\\Microsoft\\Edge\\Extensions\\{id}",
    };
    let brave_info = BrowserInfo {
        key: "brave",
        name: "Brave Browser",
        exe_paths: three_places(
            pf,
            pf86,
            local,
            "BraveSoftware\\Brave-Browser\\Application\\brave.exe",
        ),
        profile_base: FilePath::folder(appd, "BraveSoftware\\Brave-Browser\\User Data"),
        reg_tpl: "Software\\Google\\Chrome\\Extensions\\{id}",
    };
    let mut opera_paths: Vec<FilePath> = Vec::new();
    opera_paths.push(FilePath::folder(appd, "Opera Software\\Opera Stable\\opera.exe"));
    opera_paths.push(FilePath::folder(local, "Programs\\Opera\\opera.exe"));
    opera_paths.push(FilePath::folder(pf, "Opera\\opera.exe"));
    opera_paths.push(FilePath::folder(pf86, "Opera\\opera.exe"));
    assert(path_views(opera_paths@) =~= opera(*f).exe_paths);
    let opera_info = BrowserInfo {
        key: "opera",
        name: "Opera",
        exe_paths: opera_paths,
        profile_base: FilePath::folder(appd, "Opera Software\\Opera Stable"),
        reg_tpl: "Software\\Google\\Chrome\\Extensions\\{id}",
    };
    let mut out: Vec<BrowserInfo> = Vec::new();
    out.push(chrome_info);
    out.push(edge_info);
    out.push(brave_info);
    out.push(opera_info);
    assert(browser_views(out@) =~= seq![chrome(*f), edge(*f), brave(*f), opera(*f)]);
    out
}

/// The views of a list of browsers.
pub open spec fn browser_views(v: Seq<BrowserInfo>) -> Seq<BrowserView> {
    v.map_values(|b: BrowserInfo| b@)
}

// ---------------------------------------------------------------------------
// What is there
// ---------------------------------------------------------------------------

/// A browser, and for each place of its program whether the place exists.
#[derive(Debug, PartialEq, Eq)]
pub struct Candidate {
    pub browser: BrowserInfo,
    pub exist: Vec<bool>,
}

/// The browsers among the candidates that are installed.
pub open spec fn installed(cs: Seq<Candidate>) -> Seq<BrowserInfo>
    decreases cs.len(),
{
    if cs.len() == 0 {
        Seq::empty()
    } else if any_yes(cs.last().exist@) {
        installed(cs.drop_last()).push(cs.last().browser)
    } else {
        installed(cs.drop_last())
    }
}

/// The browsers among the candidates that are installed.
pub fn detect_installed(candidates: Vec<Candidate>) -> (r: Vec<BrowserInfo>)
    requires
        forall|i: int|
            0 <= i < candidates@.len() ==> (#[trigger] candidates@[i]).exist.len()
                == candidates@[i].browser.exe_paths.len(),
    ensures
        r@ == installed(candidates@),
{
    let ghost all = candidates@;
    let mut out: Vec<BrowserInfo> = Vec::new();
    assert(all.take(0) == Seq::<Candidate>::empty());
    for c in it: candidates
        invariant
            it.seq() == all,
            forall|i: int|
                0 <= i < all.len() ==> (#[trigger] all[i]).exist.len()
                    == all[i].browser.exe_paths.len(),
            out@ == installed(all.take(it.index())),
    {
        let ghost k = it.index();
        assert(all.take(k + 1).drop_last() == all.take(k));
        assert(all.take(k + 1).last() == all[k]);
        if c.browser.is_installed(&c.exist) {
            out.push(c.browser);
        }
    }
    assert(all.take(all.len() as int) == all);
    out
}

/// Whether the extension is in a browser.
#[derive(Debug, PartialEq, Eq)]
pub struct ExtensionStatus {
    pub browser: BrowserInfo,
    pub in_profile: bool,
    pub in_registry: bool,
}

impl ExtensionStatus {
    /// The extension is there, or will be when the browser starts.
    pub open spec fn present(self) -> bool {
        self.in_profile || self.in_registry
    }

    /// Whether the extension is there, or will be when the browser starts.
    pub fn is_installed(&self) -> (r: bool)
        ensures
            r == self.present(),
    {
        self.in_profile || self.in_registry
    }
}

/// An installed browser and what was found of the extension: whether the
/// profile folder exists, for each place in it whether the place does, and
/// whether the registry key is there.
#[derive(Debug, PartialEq, Eq)]
pub struct Finding {
    pub browser: BrowserInfo,
    pub base_exists: bool,
    pub exist: Vec<bool>,
    pub in_registry: bool,
}

/// The status that a finding amounts to.
pub open spec fn status_of(f: Finding) -> ExtensionStatus {
    ExtensionStatus {
        browser: f.browser,
        in_profile: f.base_exists && any_yes(f.exist@),
        in_registry: f.in_registry,
    }
}

/// The status of the extension in each browser.
pub fn check_all_extensions(findings: Vec<Finding>) -> (r: Vec<ExtensionStatus>)
    requires
        forall|i: int|
            0 <= i < findings@.len() ==> (#[trigger] findings@[i]).exist.len()
                == profile_names().len(),
    ensures
        r@ == findings@.map_values(|f: Finding| status_of(f)),
{
    let ghost all = findings@;
    let mut out: Vec<ExtensionStatus> = Vec::new();
    for f in it: findings
        invariant
            it.seq() == all,
            forall|i: int|
                0 <= i < all.len() ==> (#[trigger] all[i]).exist.len() == profile_names().len(),
            out@ == all.take(it.index()).map_values(|f: Finding| status_of(f)),
    {
        let ghost k = it.index();
        let ghost before = out@;
        assert(all.take(k + 1) == all.take(k).push(all[k]));
        let in_profile = f.browser.extension_in_profile(f.base_exists, &f.exist);
        out.push(
            ExtensionStatus { browser: f.browser, in_profile, in_registry: f.in_registry },
        );
        assert(out@ == before.push(status_of(all[k])));
    }
    assert(all.take(all.len() as int) == all);
    out
}

// ---------------------------------------------------------------------------
// Installing the extension
// ---------------------------------------------------------------------------

/// The registry values that make a browser fetch the extension.
#[derive(Debug, PartialEq, Eq)]
pub struct PolicyKey {
    pub key: String,
    pub path: String,
    pub version: String,
}

/// The registry values that make a browser fetch the extension from a file.
pub fn write_policy_key(browser: &BrowserInfo, crx_path: &str, ext_id: &str) -> (r: PolicyKey)
    ensures
        r.key@ == substituted(browser@.reg_tpl, "{id}"@, ext_id@),
        r.path@ == crx_path@,
        r.version@ == CRX_VERSION@,
{
    PolicyKey {
        key: browser.registry_key(ext_id),
        path: crx_path.to_string(),
        version: CRX_VERSION.to_string(),
    }
}

/// The registry key whose removal takes the extension out of a browser again.
pub fn delete_policy_key(browser: &BrowserInfo, ext_id: &str) -> (r: String)
    ensures
        r@ == substituted(browser@.reg_tpl, "{id}"@, ext_id@),
{
    browser.registry_key(ext_id)
}

/// What was done about the extension.
#[derive(Debug, PartialEq, Eq)]
pub struct IntegrationReport {
    pub statuses: Vec<ExtensionStatus>,
    /// The browsers that got a registry key.
    pub wrote_keys: Vec<String>,
    /// The file with the extension is missing.
    pub no_crx: bool,
}

/// The positions, among the first `n` statuses, of the browsers that lack the
/// extension.
pub open spec fn lacking(statuses: Seq<ExtensionStatus>, n: int) -> Seq<int>
    decreases n,
{
    if n <= 0 {
        Seq::empty()
    } else if !statuses[n - 1].present() {
        lacking(statuses, n - 1).push(n - 1)
    } else {
        lacking(statuses, n - 1)
    }
}

/// The positions of the browsers that are to get a registry key: those that
/// lack the extension, if its file is there.
pub open spec fn targets(statuses: Seq<ExtensionStatus>, no_crx: bool) -> Seq<int> {
    if no_crx {
        Seq::empty()
    } else {
        lacking(statuses, statuses.len() as int)
    }
}

/// The positions among `n` statuses are within them.
proof fn lemma_lacking_within(statuses: Seq<ExtensionStatus>, n: int, k: int)
    requires
        0 <= n <= statuses.len(),
        0 <= k < lacking(statuses, n).len(),
    ensures
        0 <= lacking(statuses, n)[k] < n,
        !statuses[lacking(statuses, n)[k]].present(),
    decreases n,
{
    if n > 0 {
        if k < lacking(statuses, n - 1).len() {
            lemma_lacking_within(statuses, n - 1, k);
        }
    }
}

/// The positions of the browsers that are to get a registry key.
pub fn integration_targets(statuses: &Vec<ExtensionStatus>, no_crx: bool) -> (r: Vec<usize>)
    ensures
        r@.map_values(|i: usize| i as int) == targets(statuses@, no_crx),
{
    let mut out: Vec<usize> = Vec::new();
    if no_crx {
        assert(out@.map_values(|i: usize| i as int) =~= Seq::<int>::empty());
        return out;
    }
    let mut i: usize = 0;
    while i < statuses.len()
        invariant
            i <= statuses.len(),
            out@.map_values(|i: usize| i as int) == lacking(statuses@, i as int),
        decreases statuses.len() - i,
    {
        let ghost before = out@;
        if !statuses[i].is_installed() {
            out.push(i);
            assert(out@.map_values(|i: usize| i as int) == before.map_values(
                |i: usize| i as int,
            ).push(i as int));
        }
        i += 1;
    }
    out
}

/// The names of the browsers at the first `n` positions whose key was written.
pub open spec fn names_written(
    statuses: Seq<ExtensionStatus>,
    at: Seq<int>,
    written: Seq<bool>,
    n: int,
) -> Seq<Seq<char>>
    decreases n,
{
    if n <= 0 {
        Seq::empty()
    } else if written[n - 1] {
        names_written(statuses, at, written, n - 1).push(statuses[at[n - 1]].browser.name@)
    } else {
        names_written(statuses, at, written, n - 1)
    }
}

/// Reports what was done, given for each browser that was to get a registry
/// key whether it was written.
pub fn run_integration(
    statuses: Vec<ExtensionStatus>,
    no_crx: bool,
    written: &Vec<bool>,
) -> (r: IntegrationReport)
    requires
        written@.len() == targets(statuses@, no_crx).len(),
    ensures
        r.statuses == statuses,
        r.no_crx == no_crx,
        views(r.wrote_keys@) == names_written(
            statuses@,
            targets(statuses@, no_crx),
            written@,
            written@.len() as int,
        ),
{
    let at = integration_targets(&statuses, no_crx);
    let ghost positions = targets(statuses@, no_crx);
    let mut wrote_keys: Vec<String> = Vec::new();
    let mut i: usize = 0;
    assert(views(wrote_keys@) =~= Seq::<Seq<char>>::empty());
    while i < written.len()
        invariant
            i <= written.len(),
            positions == targets(statuses@, no_crx),
            at@.map_values(|i: usize| i as int) == positions,
            written@.len() == positions.len(),
            views(wrote_keys@) == names_written(statuses@, positions, written@, i as int),
        decreases written.len() - i,
    {
        assert(at@.map_values(|i: usize| i as int)[i as int] == at@[i as int] as int);
        proof {
            if !no_crx {
                lemma_lacking_within(statuses@, statuses@.len() as int, i as int);
            }
        }
        if written[i] {
            let ghost before = wrote_keys@;
            wrote_keys.push(statuses[at[i]].browser.name.to_string());
            assert(views(wrote_keys@) =~= views(before).push(
                statuses@[positions[i as int]].browser.name@,
            ));
        }
        i += 1;
    }
    IntegrationReport { statuses, wrote_keys, no_crx }
}

/// Only browsers that lack the extension get a registry key, and none where
/// the file with the extension is missing.
pub proof fn law_keys_only_where_lacking(
    statuses: Seq<ExtensionStatus>,
    no_crx: bool,
    k: int,
)
    requires
        0 <= k < targets(statuses, no_crx).len(),
    ensures
        !no_crx,
        0 <= targets(statuses, no_crx)[k] < statuses.len(),
        !statuses[targets(statuses, no_crx)[k]].present(),
{
    lemma_lacking_within(statuses, statuses.len() as int, k);
}

/// Every browser that lacks the extension gets a registry key, if the file
/// with the extension is there.
pub proof fn law_keys_wherever_lacking(statuses: Seq<ExtensionStatus>, i: int)
    requires
        0 <= i < statuses.len(),
        !statuses[i].present(),
    ensures
        targets(statuses, false).contains(i),
{
    lemma_lacking_has(statuses, statuses.len() as int, i);
}

/// A browser among the first `n` that lacks the extension is among those that
/// do.
proof fn lemma_lacking_has(statuses: Seq<ExtensionStatus>, n: int, i: int)
    requires
        0 <= i < n <= statuses.len(),
        !statuses[i].present(),
    ensures
        lacking(statuses, n).contains(i),
    decreases n,
{
    let l = lacking(statuses, n);
    if i == n - 1 {
        assert(l[l.len() - 1] == i);
    } else {
        lemma_lacking_has(statuses, n - 1, i);
        let m = lacking(statuses, n - 1);
        let k = choose|k: int| 0 <= k < m.len() && m[k] == i;
        assert(l[k] == i);
    }
}

/// The mark that the browsers have been seen to.
pub fn sentinel_path() -> (r: FilePath)
    ensures
        r@ == in_config(".integration_done"@),
{
    FilePath::config(".integration_done")
}

/// The mark to write once the browsers have been seen to at the moment `at`:
/// where it goes, and the moment that stands in it. There is none for a moment
/// that has no text.
pub fn integration_mark(at: Timestamp) -> (r: Option<(FilePath, String)>)
    ensures
        match r {
            Some(m) => m.0@ == in_config(".integration_done"@) && rfc3339_text(at.secs, at.nanos)
                == Some(m.1@),
            None => rfc3339_text(at.secs, at.nanos) is None,
        },
{
    match rfc3339(at) {
        Some(text) => Some((sentinel_path(), text)),
        None => None,
    }
}

/// The mark to write once the browsers have been seen to: where it goes, and
/// the moment of the call that stands in it.
pub fn mark_integration_done() -> (r: (FilePath, String))
    ensures
        r.0@ == in_config(".integration_done"@),
        exists|at: Timestamp|
            at.nanos < 1_000_000_000 && #[trigger] rfc3339_text(at.secs, at.nanos) == Some(r.1@),
{
    let at = now();
    match integration_mark(at) {
        Some(mark) => mark,
        None => (sentinel_path(), String::new()),
    }
}

} // verus!
