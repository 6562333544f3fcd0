//! Where the settings and the history are kept, and what of the history is.

use crate::paths::in_config;
use crate::paths::FilePath;
use crate::platform::uuid_text;
use crate::queue::lemma_filter_from;
use crate::text::join3;
use crate::types::Config;
use crate::types::DownloadItem;
use vstd::prelude::*;

verus! {

/// How many finished downloads are written to disk.
pub const SAVED_LIMIT: usize = 500;

/// Where the settings are kept.
pub fn config_path() -> (r: FilePath)
    ensures
        r@ == in_config("config.json"@),
{
    FilePath::config("config.json")
}

/// Where the history is kept.
pub fn history_path() -> (r: FilePath)
    ensures
        r@ == in_config("history.json"@),
{
    FilePath::config("history.json")
}

/// The settings to begin with: those that were read, or the first settings
/// where none could be.
pub fn load(read: Option<Config>) -> (r: Config)
    ensures
        read matches Some(c) ==> r == c,
        read is None ==> r.has_defaults() && uuid_text(r.api_token@),
{
    match read {
        Some(c) => c,
        None => Config::default(),
    }
}

/// The history to begin with: the one that was read, or none.
pub fn load_history(read: Option<Vec<DownloadItem>>) -> (r: Vec<DownloadItem>)
    ensures
        r@ == match read {
            Some(items) => items@,
            None => Seq::empty(),
        },
{
    match read {
        Some(items) => items,
        None => Vec::new(),
    }
}

/// The completed ones among a list of downloads.
pub open spec fn completed(items: Seq<DownloadItem>) -> Seq<DownloadItem> {
    items.filter(|i: DownloadItem| i.status is Completed)
}

/// What is written to disk of a history: its last completed downloads, the
/// last of them first.
pub open spec fn saved(items: Seq<DownloadItem>) -> Seq<DownloadItem> {
    let back = completed(items).reverse();
    if back.len() > SAVED_LIMIT {
        back.take(SAVED_LIMIT as int)
    } else {
        back
    }
}

/// What is written to disk of a history.
pub fn save_history(items: &Vec<DownloadItem>) -> (r: Vec<DownloadItem>)
    ensures
        r@ == saved(items@),
{
    let ghost all = items@;
    let mut out: Vec<DownloadItem> = Vec::new();
    let mut i: usize = items.len();
    proof {
        lemma_saved_so_far(all, i as int);
    }
    while i > 0 && out.len() < SAVED_LIMIT
        invariant
            all == items@,
            i <= items.len(),
            out@.len() <= SAVED_LIMIT,
            out@ == completed(all.skip(i as int)).reverse(),
        decreases i,
    {
        i -= 1;
        proof {
            lemma_saved_step(all, i as int);
        }
        if items[i].status.is_completed() {
            out.push(items[i].clone());
        }
    }
    proof {
        lemma_saved_prefix(all, i as int);
        if i == 0 {
            assert(all.skip(0) == all);
        }
    }
    assert(out@ == saved(all));
    out
}

/// Nothing comes after the end.
proof fn lemma_saved_so_far(all: Seq<DownloadItem>, i: int)
    requires
        i == all.len(),
    ensures
        completed(all.skip(i)).reverse() == Seq::<DownloadItem>::empty(),
{
    reveal(Seq::filter);
    assert(all.skip(i) == Seq::<DownloadItem>::empty());
}

/// One download more from the back.
proof fn lemma_saved_step(all: Seq<DownloadItem>, i: int)
    requires
        0 <= i < all.len(),
    ensures
        completed(all.skip(i)).reverse() == if all[i].status is Completed {
            completed(all.skip(i + 1)).reverse().push(all[i])
        } else {
            completed(all.skip(i + 1)).reverse()
        },
{
    let done = |i: DownloadItem| i.status is Completed;
    assert(all.skip(i) == seq![all[i]] + all.skip(i + 1));
    Seq::filter_distributes_over_add(seq![all[i]], all.skip(i + 1), done);
    reveal_with_fuel(Seq::filter, 2);
    assert(seq![all[i]].drop_last() == Seq::<DownloadItem>::empty());
    assert(seq![all[i]].filter(done) == if all[i].status is Completed {
        seq![all[i]]
    } else {
        Seq::<DownloadItem>::empty()
    });
    let rest = completed(all.skip(i + 1));
    if all[i].status is Completed {
        assert((seq![all[i]] + rest).reverse() == rest.reverse().push(all[i]));
    } else {
        assert(Seq::<DownloadItem>::empty() + rest == rest);
    }
}

/// What is taken from the back comes first of all that could be.
proof fn lemma_saved_prefix(all: Seq<DownloadItem>, i: int)
    requires
        0 <= i <= all.len(),
    ensures
        completed(all.skip(i)).len() <= completed(all).len(),
        completed(all).reverse().take(completed(all.skip(i)).len() as int) == completed(
            all.skip(i),
        ).reverse(),
{
    let done = |i: DownloadItem| i.status is Completed;
    assert(all == all.take(i) + all.skip(i));
    Seq::filter_distributes_over_add(all.take(i), all.skip(i), done);
    let a = completed(all.take(i));
    let b = completed(all.skip(i));
    assert(completed(all) == a + b);
    assert((a + b).reverse() == b.reverse() + a.reverse());
    assert((b.reverse() + a.reverse()).take(b.len() as int) == b.reverse());
}

/// What is written to disk is within its limit, and holds completed downloads
/// of the history only.
pub proof fn law_saved_history(items: Seq<DownloadItem>)
    ensures
        saved(items).len() <= SAVED_LIMIT,
        forall|k: int|
            0 <= k < saved(items).len() ==> {
                &&& (#[trigger] saved(items)[k]).status is Completed
                &&& items.contains(saved(items)[k])
            },
{
    let c = completed(items);
    assert forall|k: int| 0 <= k < saved(items).len() implies {
        &&& (#[trigger] saved(items)[k]).status is Completed
        &&& items.contains(saved(items)[k])
    } by {
        let m = c.len() - 1 - k;
        assert(saved(items)[k] == c[m]);
        lemma_filter_from(items, |i: DownloadItem| i.status is Completed, m);
    }
}

/// A history of completed downloads within the limit, written to disk, read
/// again and written once more, is the history it was.
pub proof fn law_saving_twice_restores(items: Seq<DownloadItem>)
    requires
        items.len() <= SAVED_LIMIT,
        forall|k: int| 0 <= k < items.len() ==> (#[trigger] items[k]).status is Completed,
    ensures
        saved(saved(items)) == items,
{
    lemma_all_completed(items);
    let back = items.reverse();
    assert(saved(items) == back);
    assert forall|k: int| 0 <= k < back.len() implies (#[trigger] back[k]).status is Completed by {
        assert(back[k] == items[items.len() - 1 - k]);
    }
    lemma_all_completed(back);
    assert(back.reverse() == items);
}

/// Of completed downloads all are completed.
proof fn lemma_all_completed(items: Seq<DownloadItem>)
    requires
        forall|k: int| 0 <= k < items.len() ==> (#[trigger] items[k]).status is Completed,
    ensures
        completed(items) == items,
    decreases items.len(),
{
    reveal(Seq::filter);
    if items.len() > 0 {
        assert forall|k: int| 0 <= k < items.drop_last().len() implies (
        #[trigger] items.drop_last()[k]).status is Completed by {
            assert(items[k].status is Completed);
        }
        lemma_all_completed(items.drop_last());
        assert(items[items.len() - 1].status is Completed);
        assert(items.drop_last().push(items.last()) == items);
    }
}

/// A download that is completed last is written first, before what would be
/// written without it, and the last of five hundred makes room for it; one that
/// is not completed changes nothing.
pub proof fn law_saved_first(items: Seq<DownloadItem>, item: DownloadItem)
    ensures
        saved(Seq::empty()).len() == 0,
        !(item.status is Completed) ==> saved(items.push(item)) == saved(items),
        item.status is Completed ==> {
            let before = saved(items);
            let after = saved(items.push(item));
            &&& after.len() == if before.len() < 500 {
                before.len() + 1
            } else {
                500
            }
            &&& after[0] == item
            &&& forall|k: int| 1 <= k < after.len() ==> #[trigger] after[k] == before[k - 1]
        },
{
    reveal(Seq::filter);
    assert(items.push(item).drop_last() =~= items);
    if !(item.status is Completed) {
        assert(completed(items.push(item)) =~= completed(items));
    } else {
        assert(completed(items.push(item)) =~= completed(items).push(item));
    }
}

/// Every first setting that does not depend on the user or on chance.
pub proof fn law_first_settings(cfg: Config)
    requires
        cfg.has_defaults(),
    ensures
        cfg.max_concurrent == 3,
        cfg.segments == 16,
        cfg.speed_limit_kbps == 0,
        cfg.dark_mode,
        cfg.minimize_to_tray,
        !cfg.run_at_startup,
        cfg.api_port == 9876,
        cfg.ytdlp_path@ == "yt-dlp.exe"@,
        cfg.ffmpeg_path@ == "ffmpeg.exe"@,
        cfg.ytdlp_format@ == "bestvideo+bestaudio/best"@,
{
}

// ---------------------------------------------------------------------------
// Starting with Windows
// ---------------------------------------------------------------------------

/// The name of the program's entry among those that Windows starts.
pub fn startup_name() -> (r: &'static str)
    ensures
        r@ == "YDM"@,
{
    "YDM"
}

/// A change to the programs that Windows starts.
#[derive(Debug, PartialEq, Eq)]
pub enum StartupChange {
    /// There is nothing to change: this is no Windows.
    Nothing,
    /// The entry `name` is to hold `command`.
    Write { name: String, command: String },
    /// The entry `name` is to go.
    Delete { name: String },
}

/// The command that starts the program in the background.
pub open spec fn startup_command(exe: Seq<char>) -> Seq<char> {
    "\""@ + exe + "\" --tray"@
}

/// The command is the program between quotation marks, then a space and
/// `--tray`, which asks it to stay in the background.
pub proof fn law_startup_command(exe: Seq<char>)
    ensures
        ({
            let c = startup_command(exe);
            let n = exe.len() as int;
            &&& c.len() == n + 9
            &&& c[0] == '"'
            &&& c.subrange(1, n + 1) == exe
            &&& c[n + 1] == '"'
            &&& c[n + 2] == ' '
            &&& c.skip(n + 3) == "--tray"@
        }),
{
    reveal_strlit("\"");
    reveal_strlit("\" --tray");
    reveal_strlit("--tray");
    let c = startup_command(exe);
    let n = exe.len() as int;
    assert(c.subrange(1, n + 1) =~= exe);
    assert(c.skip(n + 3) =~= "--tray"@);
}

/// The registry key of the programs that Windows starts.
pub fn run_key() -> (r: &'static str)
    ensures
        r@ == "Software\\Microsoft\\Windows\\CurrentVersion\\Run"@,
{
    "Software\\Microsoft\\Windows\\CurrentVersion\\Run"
}

/// What to change so that the program at `exe` starts with Windows, or does
/// not.
pub fn set_startup(windows: bool, enable: bool, exe: &str) -> (r: StartupChange)
    ensures
        if !windows {
            r == StartupChange::Nothing
        } else if enable {
            r matches StartupChange::Write { name, command } && name@ == "YDM"@ && command@
                == startup_command(exe@)
        } else {
            r matches StartupChange::Delete { name } && name@ == "YDM"@
        },
{
    if !windows {
        StartupChange::Nothing
    } else if enable {
        StartupChange::Write { name: startup_name().to_string(), command: join3("\"", exe, "\" --tray") }
    } else {
        StartupChange::Delete { name: startup_name().to_string() }
    }
}

/// Whether the program starts with Windows: on Windows, where its entry is
/// there.
pub fn is_startup_enabled(windows: bool, entry_present: bool) -> (r: bool)
    ensures
        r == (windows && entry_present),
{
    windows && entry_present
}

} // verus!
