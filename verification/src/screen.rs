//! What the window shows and what its controls do.

use crate::filename::guessed;
use crate::number::decimal;
use crate::number::to_decimal;
use crate::platform::binary_size_text;
use crate::platform::format_time;
use crate::platform::time_text;
use crate::platform::uuid_text;
use crate::platform::Timestamp;
use crate::queue::lemma_filter_from;
use crate::queue::QueueManager;
use crate::queue::QueueState;
use crate::text::contains;
use crate::text::holds;
use crate::text::join2;
use crate::text::join3;
use crate::text::lowercase;
use crate::text::lowered;
use crate::text::same;
use crate::text::trim;
use crate::text::trimmed;
use crate::text::views;
use crate::types::eta_words;
use crate::types::Color;
use crate::types::Config;
use crate::types::DownloadItem;
use crate::types::DownloadStatus;
use vstd::prelude::*;
use vstd::utf8::decode_utf8;
use vstd::utf8::encode_utf8;
use vstd::utf8::is_char_boundary;

verus! {

// ---------------------------------------------------------------------------
// Pages
// ---------------------------------------------------------------------------

/// The pages of the window.
#[derive(Clone, Copy, Debug, PartialEq, Eq, Structural)]
pub enum Page {
    Queue,
    Completed,
    History,
    Settings,
}

impl Page {
    /// The word on the page's tab.
    pub open spec fn word(self) -> Seq<char> {
        match self {
            Page::Queue => "Queue"@,
            Page::Completed => "Completed"@,
            Page::History => "History"@,
            Page::Settings => "Settings"@,
        }
    }

    /// The word on the page's tab.
    pub fn label(self) -> (r: &'static str)
        ensures
            r@ == self.word(),
    {
        match self {
            Page::Queue => "Queue",
            Page::Completed => "Completed",
            Page::History => "History",
            Page::Settings => "Settings",
        }
    }

    /// The pages in the order of their tabs.
    pub fn all() -> (r: Vec<Page>)
        ensures
            r@ == seq![Page::Queue, Page::Completed, Page::History, Page::Settings],
    {
        let mut out: Vec<Page> = Vec::new();
        out.push(Page::Queue);
        out.push(Page::Completed);
        out.push(Page::History);
        out.push(Page::Settings);
        assert(out@ =~= seq![Page::Queue, Page::Completed, Page::History, Page::Settings]);
        out
    }
}

// ---------------------------------------------------------------------------
// Lists of downloads
// ---------------------------------------------------------------------------

/// A text is found by a search, whatever the case of either.
pub open spec fn found(search: Seq<char>, text: Seq<char>) -> bool {
    holds(lowered(text), lowered(search))
}

/// A download is on a page under a search: on the page of completed downloads
/// by its name, on the others by its name or address.
pub open spec fn listed(page: Page, search: Seq<char>, item: DownloadItem) -> bool {
    match page {
        Page::Completed => item.status is Completed && (search.len() == 0 || found(
            search,
            item.filename@,
        )),
        _ => search.len() == 0 || found(search, item.filename@) || found(search, item.url@),
    }
}

/// The downloads on a page under a search.
pub open spec fn listing(page: Page, search: Seq<char>, items: Seq<DownloadItem>) -> Seq<
    DownloadItem,
> {
    items.filter(|i: DownloadItem| listed(page, search, i))
}

/// Whether a text is found by a search.
pub fn is_found(search: &str, text: &str) -> (r: bool)
    ensures
        r == found(search@, text@),
{
    contains(lowercase(text).as_str(), lowercase(search).as_str())
}

/// Whether a download is on a page under a search.
pub fn is_listed(page: Page, search: &str, item: &DownloadItem) -> (r: bool)
    ensures
        r == listed(page, search@, *item),
{
    match page {
        Page::Completed => item.status.is_completed() && (search.is_empty() || is_found(
            search,
            item.filename.as_str(),
        )),
        _ => search.is_empty() || is_found(search, item.filename.as_str()) || is_found(
            search,
            item.url.as_str(),
        ),
    }
}

/// The downloads on a page under a search.
pub fn page_items(page: Page, search: &str, items: &Vec<DownloadItem>) -> (r: Vec<DownloadItem>)
    ensures
        r@ == listing(page, search@, items@),
{
    let ghost keep = |i: DownloadItem| listed(page, search@, i);
    let ghost all = items@;
    let mut out: Vec<DownloadItem> = Vec::new();
    let mut i: usize = 0;
    assert(all.take(0).filter(keep) == Seq::<DownloadItem>::empty()) by {
        reveal(Seq::filter);
    }
    while i < items.len()
        invariant
            all == items@,
            i <= items.len(),
            keep == (|i: DownloadItem| listed(page, search@, i)),
            out@ == all.take(i as int).filter(keep),
        decreases items.len() - i,
    {
        assert(all.take(i + 1).drop_last() == all.take(i as int));
        assert(all.take(i + 1).last() == all[i as int]);
        reveal(Seq::filter);
        if is_listed(page, search, &items[i]) {
            out.push(items[i].clone());
        }
        i += 1;
    }
    assert(all.take(i as int) == all);
    out
}

/// What a page says when nothing is listed on it.
pub fn empty_message(page: Page) -> (r: &'static str)
    ensures
        r@ == match page {
            Page::Queue => "No active downloads\nClick '＋ Add Download' to start"@,
            Page::Completed => "No completed downloads yet"@,
            Page::History => "No history"@,
            Page::Settings => ""@,
        },
{
    match page {
        Page::Queue => "No active downloads\nClick '＋ Add Download' to start",
        Page::Completed => "No completed downloads yet",
        Page::History => "No history",
        Page::Settings => "",
    }
}

/// Without a search every download of the queue and of the history is listed.
pub proof fn law_empty_search_lists_all(page: Page, items: Seq<DownloadItem>)
    requires
        page is Queue || page is History,
    ensures
        listing(page, Seq::empty(), items) == items,
    decreases items.len(),
{
    reveal(Seq::filter);
    if items.len() > 0 {
        law_empty_search_lists_all(page, items.drop_last());
        assert(items.drop_last().push(items.last()) == items);
    }
}

/// What a page lists are downloads of the list that the search finds there, on
/// the page of completed downloads only completed ones.
pub proof fn law_listed_downloads_match(page: Page, search: Seq<char>, items: Seq<DownloadItem>)
    ensures
        forall|k: int|
            0 <= k < listing(page, search, items).len() ==> {
                &&& items.contains(#[trigger] listing(page, search, items)[k])
                &&& listed(page, search, listing(page, search, items)[k])
                &&& page is Completed ==> listing(page, search, items)[k].status is Completed
            },
{
    let l = listing(page, search, items);
    assert forall|k: int| 0 <= k < l.len() implies {
        &&& items.contains(#[trigger] l[k])
        &&& listed(page, search, l[k])
        &&& page is Completed ==> l[k].status is Completed
    } by {
        lemma_filter_from(items, |i: DownloadItem| listed(page, search, i), k);
    }
}

// ---------------------------------------------------------------------------
// Cards
// ---------------------------------------------------------------------------

/// What can be done about a download.
#[derive(Clone, Copy, Debug, PartialEq, Eq, Structural)]
pub enum Control {
    Pause,
    Resume,
    Cancel,
    Retry,
    Remove,
}

/// The controls shown for a download.
pub open spec fn controls_for(status: DownloadStatus) -> Seq<Control> {
    if status.active() {
        seq![Control::Pause, Control::Cancel, Control::Remove]
    } else if status is Paused {
        seq![Control::Resume, Control::Cancel, Control::Remove]
    } else if status is Failed {
        seq![Control::Retry, Control::Remove]
    } else {
        seq![Control::Remove]
    }
}

/// The controls shown for a download.
pub fn controls(status: &DownloadStatus) -> (r: Vec<Control>)
    ensures
        r@ == controls_for(*status),
{
    let mut out: Vec<Control> = Vec::new();
    match status {
        DownloadStatus::Connecting | DownloadStatus::Downloading | DownloadStatus::Merging => {
            out.push(Control::Pause);
            out.push(Control::Cancel);
        },
        DownloadStatus::Paused => {
            out.push(Control::Resume);
            out.push(Control::Cancel);
        },
        DownloadStatus::Failed(_) => {
            out.push(Control::Retry);
        },
        _ => {},
    }
    out.push(Control::Remove);
    assert(out@ =~= controls_for(*status));
    out
}

/// The queue after a control has been used.
pub open spec fn used(q: QueueState, control: Control, id: Seq<char>) -> QueueState {
    match control {
        Control::Pause => q.paused(id),
        Control::Resume => q.resumed(id),
        Control::Cancel => q.cancelled(id),
        Control::Retry => q.retried(id),
        Control::Remove => q.removed(id),
    }
}

/// Uses a control of the download `id`.
pub fn use_control(queue: &mut QueueManager, control: Control, id: &str)
    ensures
        final(queue)@ == used(old(queue)@, control, id@),
{
    match control {
        Control::Pause => queue.pause(id),
        Control::Resume => queue.resume(id),
        Control::Cancel => queue.cancel(id),
        Control::Retry => queue.retry(id),
        Control::Remove => queue.remove(id),
    }
}

/// The bytes of an address that are shown.
pub const URL_SHOWN: usize = 80;

/// An address can be cut where it is to be: between two characters.
pub open spec fn url_cuts(url: Seq<char>) -> bool {
    encode_utf8(url).len() <= URL_SHOWN || is_char_boundary(encode_utf8(url), URL_SHOWN as int)
}

/// The address as it is shown: cut, with an ellipsis, where it is long.
pub open spec fn url_shown(url: Seq<char>) -> Seq<char> {
    if encode_utf8(url).len() > URL_SHOWN {
        decode_utf8(encode_utf8(url).take(URL_SHOWN as int)) + "…"@
    } else {
        url
    }
}

/// Whether an address can be cut where it is to be.
pub fn can_cut_url(url: &str) -> (r: bool)
    ensures
        r == url_cuts(url@),
{
    url.as_bytes().len() <= URL_SHOWN || url.is_char_boundary(URL_SHOWN)
}

/// The address as it is shown.
pub fn url_display(url: &str) -> (r: String)
    requires
        url_cuts(url@),
    ensures
        r@ == url_shown(url@),
{
    if url.as_bytes().len() > URL_SHOWN {
        let (kept, rest) = url.split_at(URL_SHOWN);
        assert(encode_utf8(kept@) == encode_utf8(url@).take(URL_SHOWN as int));
        proof {
            vstd::utf8::encode_utf8_decode_utf8(kept@);
        }
        join2(kept, "…")
    } else {
        url.to_string()
    }
}

/// What the card of a download shows beside its name, picture and progress.
#[derive(Debug, PartialEq, Eq)]
pub struct DownloadCard {
    pub status: String,
    pub color: Color,
    pub controls: Vec<Control>,
    /// What has arrived, of how much.
    pub size_line: String,
    /// The time left, where it is known.
    pub eta_line: Option<String>,
    /// The speed, where something moves.
    pub speed_line: Option<String>,
    /// What went wrong, where something did.
    pub error_line: Option<String>,
    pub url_line: String,
}

/// The size in words, or a dash where it is not known.
pub open spec fn size_words(bytes: u64) -> Seq<char> {
    if bytes == 0 {
        "—"@
    } else {
        binary_size_text(bytes)
    }
}

impl DownloadCard {
    /// The card is that of `item`.
    pub open spec fn describes(self, item: DownloadItem) -> bool {
        &&& self.status@ == item.status.word()
        &&& self.color == item.status.shade()
        &&& self.controls@ == controls_for(item.status)
        &&& self.size_line@ == binary_size_text(item.downloaded) + " / "@ + size_words(
            item.total_bytes,
        )
        &&& match self.eta_line {
            Some(s) => item.eta_secs > 0 && s@ == "ETA "@ + eta_words(item.eta_secs as nat),
            None => item.eta_secs == 0,
        }
        &&& match self.speed_line {
            Some(s) => item.speed_bps > 0 && s@ == binary_size_text(item.speed_bps) + "/s"@,
            None => item.speed_bps == 0,
        }
        &&& match self.error_line {
            Some(s) => item.status matches DownloadStatus::Failed(msg) && s@ == "Error: "@ + msg@,
            None => !(item.status is Failed),
        }
        &&& self.url_line@ == url_shown(item.url@)
    }

    /// The card of a download.
    pub fn of(item: &DownloadItem) -> (r: Self)
        requires
            url_cuts(item.url@),
        ensures
            r.describes(*item),
    {
        let eta_line = if item.eta_secs > 0 {
            Some(join2("ETA ", item.human_eta().as_str()))
        } else {
            None
        };
        let speed_line = if item.speed_bps > 0 {
            Some(item.human_speed())
        } else {
            None
        };
        let error_line = match &item.status {
            DownloadStatus::Failed(msg) => Some(join2("Error: ", msg.as_str())),
            _ => None,
        };
        DownloadCard {
            status: item.status.label().to_string(),
            color: item.status.color(),
            controls: controls(&item.status),
            size_line: join3(
                item.human_downloaded().as_str(),
                " / ",
                item.human_size().as_str(),
            ),
            eta_line,
            speed_line,
            error_line,
            url_line: url_display(item.url.as_str()),
        }
    }
}

// ---------------------------------------------------------------------------
// Rows and marks
// ---------------------------------------------------------------------------

/// The colours of the window.
#[derive(Clone, Copy, Debug, PartialEq, Eq, Structural)]
pub enum Tone {
    Background,
    Surface,
    Card,
    Border,
    Text,
    Dim,
    Accent,
    Success,
    Warning,
    Danger,
}

impl Tone {
    /// The colour.
    pub open spec fn shade(self) -> Color {
        match self {
            Tone::Background => (Color { r: 13, g: 17, b: 23 }),
            Tone::Surface => (Color { r: 22, g: 27, b: 34 }),
            Tone::Card => (Color { r: 30, g: 37, b: 46 }),
            Tone::Border => (Color { r: 48, g: 54, b: 61 }),
            Tone::Text => (Color { r: 230, g: 237, b: 243 }),
            Tone::Dim => (Color { r: 139, g: 148, b: 158 }),
            Tone::Accent => (Color { r: 88, g: 166, b: 255 }),
            Tone::Success => (Color { r: 63, g: 185, b: 80 }),
            Tone::Warning => (Color { r: 210, g: 153, b: 34 }),
            Tone::Danger => (Color { r: 248, g: 81, b: 73 }),
        }
    }

    /// The colour.
    pub fn color(self) -> (r: Color)
        ensures
            r == self.shade(),
    {
        match self {
            Tone::Background => Color { r: 13, g: 17, b: 23 },
            Tone::Surface => Color { r: 22, g: 27, b: 34 },
            Tone::Card => Color { r: 30, g: 37, b: 46 },
            Tone::Border => Color { r: 48, g: 54, b: 61 },
            Tone::Text => Color { r: 230, g: 237, b: 243 },
            Tone::Dim => Color { r: 139, g: 148, b: 158 },
            Tone::Accent => Color { r: 88, g: 166, b: 255 },
            Tone::Success => Color { r: 63, g: 185, b: 80 },
            Tone::Warning => Color { r: 210, g: 153, b: 34 },
            Tone::Danger => Color { r: 248, g: 81, b: 73 },
        }
    }
}

/// The colour of a status in the history.
pub fn history_tone(status: &DownloadStatus) -> (r: Tone)
    ensures
        r == if status is Completed {
            Tone::Success
        } else if status is Failed {
            Tone::Danger
        } else {
            Tone::Dim
        },
{
    match status {
        DownloadStatus::Completed => Tone::Success,
        DownloadStatus::Failed(_) => Tone::Danger,
        _ => Tone::Dim,
    }
}

/// The sign for an extension that is there or not, and its colour.
pub fn extension_mark(installed: bool) -> (r: (&'static str, Tone))
    ensures
        r.0@ == if installed {
            "✓"@
        } else {
            "✗"@
        },
        r.1 == if installed {
            Tone::Success
        } else {
            Tone::Danger
        },
{
    if installed {
        ("✓", Tone::Success)
    } else {
        ("✗", Tone::Danger)
    }
}

/// When a download was finished, to the minute.
pub fn finished_line(item: &DownloadItem) -> (r: Option<String>)
    ensures
        match item.finished_at {
            Some(t) => match r {
                Some(s) => time_text(t.secs, t.nanos, "%Y-%m-%d %H:%M"@) == Some(s@),
                None => time_text(t.secs, t.nanos, "%Y-%m-%d %H:%M"@) is None,
            },
            None => r is None,
        },
{
    match item.finished_at {
        Some(t) => format_time(t, "%Y-%m-%d %H:%M"),
        None => None,
    }
}

/// How many of a list of downloads are under way.
pub open spec fn active_in(items: Seq<DownloadItem>) -> nat
    decreases items.len(),
{
    if items.len() == 0 {
        0
    } else {
        active_in(items.drop_last()) + if items.last().status.active() {
            1nat
        } else {
            0
        }
    }
}

/// How many of a list of downloads wait for their turn.
pub open spec fn queued_in(items: Seq<DownloadItem>) -> nat
    decreases items.len(),
{
    if items.len() == 0 {
        0
    } else {
        queued_in(items.drop_last()) + if items.last().status is Queued {
            1nat
        } else {
            0
        }
    }
}

/// The line at the bottom of the window.
pub fn status_line(items: &Vec<DownloadItem>) -> (r: String)
    ensures
        r@ == "Active: "@ + decimal(active_in(items@)) + "  Queued: "@ + decimal(
            queued_in(items@),
        ),
{
    let mut active: u64 = 0;
    let mut queued: u64 = 0;
    let mut i: usize = 0;
    assert(items@.take(0) == Seq::<DownloadItem>::empty());
    while i < items.len()
        invariant
            i <= items.len(),
            active <= i,
            queued <= i,
            active == active_in(items@.take(i as int)),
            queued == queued_in(items@.take(i as int)),
        decreases items.len() - i,
    {
        assert(items@.take(i + 1).drop_last() == items@.take(i as int));
        assert(items@.take(i + 1).last() == items@[i as int]);
        if items[i].status.is_active() {
            active += 1;
        }
        if items[i].status.is_queued() {
            queued += 1;
        }
        i += 1;
    }
    assert(items@.take(i as int) == items@);
    let mut out = join2("Active: ", to_decimal(active).as_str());
    out.append("  Queued: ");
    out.append(to_decimal(queued).as_str());
    out
}

// ---------------------------------------------------------------------------
// The window
// ---------------------------------------------------------------------------

/// The dialog that asks for a download.
#[derive(Debug, PartialEq, Eq)]
pub struct AddDialog {
    pub open: bool,
    pub url: String,
    pub filename: String,
    pub error: Option<String>,
}

impl AddDialog {
    /// The dialog is closed and empty.
    pub open spec fn blank(self) -> bool {
        !self.open && self.url@ == Seq::<char>::empty() && self.filename@ == Seq::<char>::empty()
            && self.error is None
    }
}

impl Default for AddDialog {
    /// A closed, empty dialog.
    fn default() -> (r: Self)
        ensures
            r.blank(),
    {
        AddDialog { open: false, url: String::new(), filename: String::new(), error: None }
    }
}

/// What the window shows.
#[derive(Debug, PartialEq, Eq)]
pub struct Window {
    pub page: Page,
    pub add_dialog: AddDialog,
    pub search: String,
    pub message: Option<String>,
}

impl Window {
    /// The window when the program starts.
    pub fn new() -> (r: Self)
        ensures
            r.page is Queue,
            r.add_dialog.blank(),
            r.search@ == Seq::<char>::empty(),
            r.message is None,
    {
        Window {
            page: Page::Queue,
            add_dialog: AddDialog::default(),
            search: String::new(),
            message: None,
        }
    }

    /// Asks for the download that the dialog describes, and closes it. Without
    /// an address the dialog stays open and says so.
    pub fn submit(&mut self, queue: &mut QueueManager)
        ensures
            final(self).search == old(self).search,
            final(self).message == old(self).message,
            trimmed(old(self).add_dialog.url@).len() == 0 ==> {
                &&& final(queue)@ == old(queue)@
                &&& final(self).page == old(self).page
                &&& final(self).add_dialog.open == old(self).add_dialog.open
                &&& final(self).add_dialog.url == old(self).add_dialog.url
                &&& final(self).add_dialog.filename == old(self).add_dialog.filename
                &&& final(self).add_dialog.error matches Some(e) && e@ == "URL cannot be empty."@
            },
            trimmed(old(self).add_dialog.url@).len() > 0 ==> {
                &&& final(self).page is Queue
                &&& final(self).add_dialog.blank()
                &&& exists|id: String, at: Timestamp, url: String, name: String|
                    {
                        &&& uuid_text(id@)
                        &&& at.nanos < 1_000_000_000
                        &&& url@ == trimmed(old(self).add_dialog.url@)
                        &&& if trimmed(old(self).add_dialog.filename@).len() > 0 {
                            name@ == trimmed(old(self).add_dialog.filename@)
                        } else {
                            guessed(url@, name@)
                        }
                        &&& final(queue)@ == #[trigger] old(queue)@.added(id, at, url, name)
                    }
            },
    {
        let url = trim(self.add_dialog.url.as_str());
        if url.as_str().is_empty() {
            self.add_dialog.error = Some("URL cannot be empty.".to_string());
            return;
        }
        let typed = trim(self.add_dialog.filename.as_str());
        let filename = if typed.as_str().is_empty() {
            None
        } else {
            Some(typed)
        };
        queue.add(url, filename, None);
        self.add_dialog = AddDialog::default();
        self.page = Page::Queue;
    }

    /// Takes over the settings as they stand in the window.
    pub fn save_settings(&mut self, queue: &mut QueueManager, cfg: &Config)
        ensures
            final(queue)@ == (QueueState { cfg: *cfg, ..old(queue)@ }),
            final(self).message matches Some(m) && m@ == "Settings saved."@,
            final(self).page == old(self).page,
            final(self).search == old(self).search,
            final(self).add_dialog == old(self).add_dialog,
    {
        queue.set_config(cfg.clone());
        self.message = Some("Settings saved.".to_string());
    }
}

/// The most downloads at once that can be chosen.
pub const MOST_CONCURRENT: usize = 10;

/// The most segments that can be chosen.
pub const MOST_SEGMENTS: usize = 32;

/// Whether the program is asked to start in the background.
pub fn start_minimized(args: &Vec<String>) -> (r: bool)
    ensures
        r == views(args@).contains("--tray"@),
{
    let mut i: usize = 0;
    while i < args.len()
        invariant
            i <= args.len(),
            forall|k: int| 0 <= k < i ==> (#[trigger] args@[k])@ != "--tray"@,
        decreases args.len() - i,
    {
        if same(args[i].as_str(), "--tray") {
            assert(views(args@)[i as int] == "--tray"@);
            return true;
        }
        i += 1;
    }
    assert forall|k: int| 0 <= k < args@.len() implies views(args@)[k] != "--tray"@ by {
        assert(args@[k]@ != "--tray"@);
    }
    false
}

} // verus!
