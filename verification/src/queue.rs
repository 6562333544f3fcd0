//! The queue of downloads.
//!
//! It holds the downloads that are not finished, the history of those that
//! are, the log of each and the settings. It decides which downloads start,
//! within the limit on how many run at once, and what each request of the user
//! and each message of a running download changes. Whoever drives the queue
//! runs the downloads that it hands out, keeps their cancel and pause flags as
//! the queue says, and reports how each one ended.

use crate::filename::guess_filename;
use crate::filename::guessed;
use crate::platform::new_uuid;
use crate::platform::now;
use crate::platform::uuid_text;
use crate::platform::Timestamp;
use crate::text::contains;
use crate::text::holds;
use crate::text::same;
use crate::text::views;
use crate::types::fresh_item;
use crate::types::Config;
use crate::types::DownloadEvent;
use crate::types::DownloadItem;
use crate::types::DownloadStatus;
use crate::ytdlp::needs_ytdlp;
use crate::ytdlp::on_platform;
use crate::text::lowered;
use vstd::hash_map::StringHashMap;
use vstd::hash_set::StringHashSet;
use vstd::prelude::*;

verus! {

/// How many finished downloads the history keeps.
pub const HISTORY_LIMIT: usize = 500;

/// How many lines the log of one download keeps.
pub const LOG_LIMIT: usize = 500;

/// What a running download is told.
#[derive(Clone, Copy, Debug, PartialEq, Eq, Structural)]
pub struct DownloadHandle {
    pub cancel: bool,
    pub pause: bool,
}

/// A download to be run, and the speed limit it is to keep.
#[derive(Debug, PartialEq, Eq)]
pub struct DownloadStart {
    pub item: DownloadItem,
    pub speed_limit_kbps: u64,
}

/// What there is to do once a download has ended.
#[derive(Debug, PartialEq, Eq)]
pub struct Finish {
    /// The message about the end, for the queue itself.
    pub event: DownloadEvent,
    /// The history has changed and should be written to disk.
    pub save_history: bool,
}

/// The queue as a mathematical value.
#[verifier::ext_equal]
pub ghost struct QueueState {
    /// The downloads that are not in the history.
    pub items: Seq<DownloadItem>,
    /// The finished downloads, the latest first.
    pub history: Seq<DownloadItem>,
    /// The log of each download.
    pub logs: Map<Seq<char>, Seq<Seq<char>>>,
    /// What the running downloads are told.
    pub handles: Map<Seq<char>, DownloadHandle>,
    /// The downloads that were handed out and whose status has not been set
    /// since.
    pub handed: Set<Seq<char>>,
    /// How many downloads run.
    pub active: u64,
    /// The settings.
    pub cfg: Config,
    /// The downloads handed out and not yet fetched by the driver.
    pub starts: Seq<DownloadStart>,
}

// ---------------------------------------------------------------------------
// Finding a download
// ---------------------------------------------------------------------------

/// The first download at or after `from` with the identifier `id`.
pub open spec fn with_id(items: Seq<DownloadItem>, id: Seq<char>, from: int) -> Option<int>
    decreases items.len() - from,
{
    if from < 0 || from >= items.len() {
        None
    } else if items[from].id@ == id {
        Some(from)
    } else {
        with_id(items, id, from + 1)
    }
}

/// `with_id` is the least position at which the identifier stands.
pub proof fn lemma_with_id(items: Seq<DownloadItem>, id: Seq<char>, from: int)
    requires
        0 <= from,
    ensures
        match with_id(items, id, from) {
            Some(i) => from <= i < items.len() && items[i].id@ == id && (forall|k: int|
                from <= k < i ==> #[trigger] items[k].id@ != id),
            None => forall|k: int| from <= k < items.len() ==> #[trigger] items[k].id@ != id,
        },
    decreases items.len() - from,
{
    if from < items.len() && items[from].id@ != id {
        lemma_with_id(items, id, from + 1);
    }
}

/// What a filter leaves of a list stands in the list and passes the filter.
pub proof fn lemma_filter_from<A>(items: Seq<A>, pred: spec_fn(A) -> bool, k: int)
    requires
        0 <= k < items.filter(pred).len(),
    ensures
        items.contains(items.filter(pred)[k]),
        pred(items.filter(pred)[k]),
    decreases items.len(),
{
    reveal(Seq::filter);
    let front = items.drop_last();
    let x = items.filter(pred)[k];
    if k < front.filter(pred).len() {
        lemma_filter_from(front, pred, k);
        let j = choose|j: int| 0 <= j < front.len() && front[j] == x;
        assert(items[j] == x);
    } else {
        assert(items[items.len() - 1] == x);
    }
}

/// The first download with the identifier `id`.
pub fn find_item(items: &Vec<DownloadItem>, id: &str) -> (r: Option<usize>)
    ensures
        match r {
            Some(i) => with_id(items@, id@, 0) == Some(i as int) && i < items.len()
                && items@[i as int].id@ == id@,
            None => with_id(items@, id@, 0) is None,
        },
{
    let mut i: usize = 0;
    while i < items.len()
        invariant
            i <= items.len(),
            with_id(items@, id@, 0) == with_id(items@, id@, i as int),
        decreases items.len() - i,
    {
        if same(items[i].id.as_str(), id) {
            return Some(i);
        }
        i += 1;
    }
    None
}

// ---------------------------------------------------------------------------
// What each operation does to the queue
// ---------------------------------------------------------------------------

/// What a download is told when it starts.
pub open spec fn new_handle() -> DownloadHandle {
    DownloadHandle { cancel: false, pause: false }
}

/// What the running downloads are told once `items` run too.
pub open spec fn with_new_handles(
    handles: Map<Seq<char>, DownloadHandle>,
    items: Seq<DownloadItem>,
) -> Map<Seq<char>, DownloadHandle>
    decreases items.len(),
{
    if items.len() == 0 {
        handles
    } else {
        with_new_handles(handles, items.drop_last()).insert(items.last().id@, new_handle())
    }
}

/// The downloads that are handed out once `items` are too.
pub open spec fn with_handed(handed: Set<Seq<char>>, items: Seq<DownloadItem>) -> Set<Seq<char>>
    decreases items.len(),
{
    if items.len() == 0 {
        handed
    } else {
        with_handed(handed, items.drop_last()).insert(items.last().id@)
    }
}

/// The status that a download ends with.
pub open spec fn end_status(outcome: Result<(), String>) -> DownloadStatus {
    match outcome {
        Ok(_) => DownloadStatus::Completed,
        Err(msg) => if holds(msg@, "Cancelled"@) {
            DownloadStatus::Cancelled
        } else {
            DownloadStatus::Failed(msg)
        },
    }
}

/// A log with one line more, its oldest line dropped where it would grow past
/// its limit.
pub open spec fn logged(log: Seq<Seq<char>>, line: Seq<char>) -> Seq<Seq<char>> {
    if log.push(line).len() > LOG_LIMIT {
        log.push(line).skip(1)
    } else {
        log.push(line)
    }
}

/// A history with one download more in front, cut at its limit.
pub open spec fn recorded(history: Seq<DownloadItem>, item: DownloadItem) -> Seq<DownloadItem> {
    let all = seq![item] + history;
    if all.len() > HISTORY_LIMIT {
        all.take(HISTORY_LIMIT as int)
    } else {
        all
    }
}

/// The downloads with another identifier than `id`.
pub open spec fn others(items: Seq<DownloadItem>, id: Seq<char>) -> Seq<DownloadItem> {
    items.filter(|i: DownloadItem| i.id@ != id)
}

impl QueueState {
    /// The downloads that wait for their turn, in order: they are queued and
    /// have not been handed out since they were.
    pub open spec fn waiting(self) -> Seq<DownloadItem> {
        self.items.filter(|i: DownloadItem| i.status is Queued && !self.handed.contains(i.id@))
    }

    /// How many more downloads may run.
    pub open spec fn room(self) -> nat {
        if self.active < self.cfg.max_concurrent {
            (self.cfg.max_concurrent - self.active) as nat
        } else {
            0
        }
    }

    /// The downloads whose turn it is: those that wait, from the first on, as
    /// far as there is room.
    pub open spec fn next_up(self) -> Seq<DownloadItem> {
        if self.waiting().len() <= self.room() {
            self.waiting()
        } else {
            self.waiting().take(self.room() as int)
        }
    }

    /// The downloads whose turn it is have been handed out, each once, under
    /// flags that let it run.
    pub open spec fn started(self) -> QueueState {
        QueueState {
            active: (self.active + self.next_up().len()) as u64,
            handles: with_new_handles(self.handles, self.next_up()),
            handed: with_handed(self.handed, self.next_up()),
            starts: self.starts + self.next_up().map_values(
                |item: DownloadItem|
                    DownloadStart { item, speed_limit_kbps: self.cfg.speed_limit_kbps },
            ),
            ..self
        }
    }

    /// The download `id` has the status `status`.
    pub open spec fn with_status(self, id: Seq<char>, status: DownloadStatus) -> QueueState {
        QueueState {
            items: match with_id(self.items, id, 0) {
                Some(i) => self.items.update(i, DownloadItem { status, ..self.items[i] }),
                None => self.items,
            },
            handed: self.handed.remove(id),
            ..self
        }
    }

    /// The download `id`, if it runs, is told something else.
    pub open spec fn told(self, id: Seq<char>, handle: DownloadHandle) -> QueueState {
        if self.handles.contains_key(id) {
            QueueState { handles: self.handles.insert(id, handle), ..self }
        } else {
            self
        }
    }

    /// A download is added behind the others.
    pub open spec fn enqueued(
        self,
        id: String,
        at: Timestamp,
        url: String,
        name: String,
    ) -> QueueState {
        let item = DownloadItem {
            is_ytdlp: on_platform(lowered(url@)),
            segments: self.cfg.segments,
            format: Some(self.cfg.ytdlp_format),
            ..fresh_item(id, at, url, name, self.cfg.save_dir)
        };
        QueueState { items: self.items.push(item), ..self }
    }

    /// A download is added behind the others, and what can start starts.
    pub open spec fn added(
        self,
        id: String,
        at: Timestamp,
        url: String,
        name: String,
    ) -> QueueState {
        self.enqueued(id, at, url, name).started()
    }

    /// The download `id` is paused.
    pub open spec fn paused(self, id: Seq<char>) -> QueueState {
        self.told(id, DownloadHandle { pause: true, ..self.handles[id] }).with_status(
            id,
            DownloadStatus::Paused,
        )
    }

    /// The download `id` goes on if it still runs, and waits again if not.
    pub open spec fn resumed(self, id: Seq<char>) -> QueueState {
        if self.handles.contains_key(id) {
            self.told(id, DownloadHandle { pause: false, ..self.handles[id] }).with_status(
                id,
                DownloadStatus::Downloading,
            )
        } else {
            self.with_status(id, DownloadStatus::Queued).started()
        }
    }

    /// The download `id` is cancelled.
    pub open spec fn cancelled(self, id: Seq<char>) -> QueueState {
        self.told(id, DownloadHandle { cancel: true, ..self.handles[id] }).with_status(
            id,
            DownloadStatus::Cancelled,
        )
    }

    /// The download `id` is cancelled and taken out of the queue.
    pub open spec fn removed(self, id: Seq<char>) -> QueueState {
        let c = self.cancelled(id);
        QueueState { items: others(c.items, id), ..c }
    }

    /// The download `id` waits to begin anew, even where its last run has not
    /// ended yet.
    pub open spec fn requeued(self, id: Seq<char>) -> QueueState {
        match with_id(self.items, id, 0) {
            Some(i) => QueueState {
                items: self.items.update(
                    i,
                    DownloadItem {
                        status: DownloadStatus::Queued,
                        downloaded: 0,
                        error: None,
                        ..self.items[i]
                    },
                ),
                handed: self.handed.remove(id),
                ..self
            },
            None => self,
        }
    }

    /// The download `id`, if there is one, waits to begin anew, and what can
    /// start starts.
    pub open spec fn retried(self, id: Seq<char>) -> QueueState {
        if with_id(self.items, id, 0) is Some {
            self.requeued(id).started()
        } else {
            self
        }
    }

    /// The downloads with the identifiers `ids` are cancelled, one after
    /// another.
    pub open spec fn cancelled_each(self, ids: Seq<Seq<char>>) -> QueueState
        decreases ids.len(),
    {
        if ids.len() == 0 {
            self
        } else {
            self.cancelled_each(ids.drop_last()).cancelled(ids.last())
        }
    }

    /// The identifiers of the downloads in the queue.
    pub open spec fn ids(self) -> Seq<Seq<char>> {
        self.items.map_values(|i: DownloadItem| i.id@)
    }

    /// The download `id` has told of its status; of a failure the reason is
    /// kept.
    pub open spec fn changed(self, id: Seq<char>, status: DownloadStatus) -> QueueState {
        QueueState {
            items: match with_id(self.items, id, 0) {
                Some(i) => self.items.update(
                    i,
                    DownloadItem {
                        status,
                        error: match status {
                            DownloadStatus::Failed(msg) => Some(msg),
                            _ => self.items[i].error,
                        },
                        ..self.items[i]
                    },
                ),
                None => self.items,
            },
            handed: self.handed.remove(id),
            ..self
        }
    }

    /// A message has been heeded.
    pub open spec fn heard(self, event: DownloadEvent) -> QueueState {
        match event {
            DownloadEvent::Progress { id, downloaded, total, speed, eta } => {
                match with_id(self.items, id@, 0) {
                    Some(i) => QueueState {
                        items: self.items.update(
                            i,
                            DownloadItem {
                                downloaded,
                                total_bytes: total,
                                speed_bps: speed,
                                eta_secs: eta,
                                ..self.items[i]
                            },
                        ),
                        ..self
                    },
                    None => self,
                }
            },
            DownloadEvent::StatusChange { id, status } => self.changed(id@, status).started(),
            DownloadEvent::Log { id, msg } => {
                let log = if self.logs.contains_key(id@) {
                    self.logs[id@]
                } else {
                    Seq::empty()
                };
                QueueState { logs: self.logs.insert(id@, logged(log, msg@)), ..self }
            },
        }
    }

    /// The messages have been heeded, one after another.
    pub open spec fn heard_all(self, events: Seq<DownloadEvent>) -> QueueState
        decreases events.len(),
    {
        if events.len() == 0 {
            self
        } else {
            self.heard_all(events.drop_last()).heard(events.last())
        }
    }

    /// The run of the download `id` has ended at `at`: a completed download
    /// moves to the history, and its place is free.
    pub open spec fn ended(
        self,
        id: Seq<char>,
        outcome: Result<(), String>,
        at: Timestamp,
    ) -> QueueState {
        let moved = match with_id(self.items, id, 0) {
            Some(i) => if end_status(outcome) is Completed {
                let item = DownloadItem {
                    status: DownloadStatus::Completed,
                    finished_at: Some(at),
                    ..self.items[i]
                };
                QueueState {
                    items: self.items.remove(i),
                    history: recorded(self.history, item),
                    ..self
                }
            } else {
                self
            },
            None => self,
        };
        QueueState {
            handles: moved.handles.remove(id),
            active: if moved.active == 0 {
                u64::MAX
            } else {
                (moved.active - 1) as u64
            },
            ..moved
        }
    }
}

// ---------------------------------------------------------------------------
// The logs
// ---------------------------------------------------------------------------

/// What the logs say of each download.
pub open spec fn log_views(logs: Map<Seq<char>, Vec<String>>) -> Map<Seq<char>, Seq<Seq<char>>> {
    logs.map_values(|lines: Vec<String>| views(lines@))
}

/// Adds a line to a log and drops its oldest line where it grew past its
/// limit.
fn push_line(lines: &mut Vec<String>, msg: String)
    ensures
        views(final(lines)@) == logged(views(old(lines)@), msg@),
{
    lines.push(msg);
    assert(views(lines@) == views(old(lines)@).push(msg@));
    if lines.len() > LOG_LIMIT {
        let ghost all = lines@;
        lines.remove(0);
        assert(lines@ == all.remove(0));
        assert(views(lines@) == views(all).skip(1));
    }
}

/// The same lines once more.
fn copy_lines(lines: &Vec<String>) -> (r: Vec<String>)
    ensures
        r@ == lines@,
{
    let mut out: Vec<String> = Vec::new();
    let mut i: usize = 0;
    while i < lines.len()
        invariant
            i <= lines.len(),
            out@ == lines@.take(i as int),
        decreases lines.len() - i,
    {
        out.push(lines[i].clone());
        i += 1;
    }
    assert(lines@.take(i as int) == lines@);
    out
}

/// Adds a line to the log of the download `id`.
fn add_line(logs: &mut StringHashMap<Vec<String>>, id: String, msg: String)
    ensures
        log_views(final(logs)@) == log_views(old(logs)@).insert(
            id@,
            logged(
                if old(logs)@.contains_key(id@) {
                    log_views(old(logs)@)[id@]
                } else {
                    Seq::empty()
                },
                msg@,
            ),
        ),
{
    let mut lines: Vec<String> = match logs.get(id.as_str()) {
        Some(lines) => copy_lines(lines),
        None => Vec::new(),
    };
    assert(!logs@.contains_key(id@) ==> views(lines@) == Seq::<Seq<char>>::empty());
    push_line(&mut lines, msg);
    logs.insert(id, lines);
    assert(log_views(logs@) =~= log_views(old(logs)@).insert(id@, views(lines@)));
}

// ---------------------------------------------------------------------------
// The queue
// ---------------------------------------------------------------------------

/// The queue of downloads.
pub struct QueueManager {
    pub items: Vec<DownloadItem>,
    pub history: Vec<DownloadItem>,
    pub logs: StringHashMap<Vec<String>>,
    pub handles: StringHashMap<DownloadHandle>,
    pub handed: StringHashSet,
    pub active_count: u64,
    pub starts: Vec<DownloadStart>,
    pub cfg: Config,
}

impl View for QueueManager {
    type V = QueueState;

    open spec fn view(&self) -> QueueState {
        QueueState {
            items: self.items@,
            history: self.history@,
            logs: log_views(self.logs@),
            handles: self.handles@,
            handed: self.handed@,
            active: self.active_count,
            cfg: self.cfg,
            starts: self.starts@,
        }
    }
}

/// The status that a download ends with.
pub fn final_status(outcome: Result<(), String>) -> (r: DownloadStatus)
    ensures
        r == end_status(outcome),
{
    match outcome {
        Ok(_) => DownloadStatus::Completed,
        Err(msg) => if contains(msg.as_str(), "Cancelled") {
            DownloadStatus::Cancelled
        } else {
            DownloadStatus::Failed(msg)
        },
    }
}

impl QueueManager {
    /// An empty queue with the given settings and history.
    pub fn new(cfg: Config, history: Vec<DownloadItem>) -> (r: Self)
        ensures
            r@ == (QueueState {
                items: Seq::empty(),
                history: history@,
                logs: Map::empty(),
                handles: Map::empty(),
                handed: Set::empty(),
                active: 0,
                cfg,
                starts: Seq::empty(),
            }),
    {
        let r = QueueManager {
            items: Vec::new(),
            history,
            logs: StringHashMap::new(),
            handles: StringHashMap::new(),
            handed: StringHashSet::new(),
            active_count: 0,
            starts: Vec::new(),
            cfg,
        };
        assert(log_views(r.logs@) =~= Map::empty());
        r
    }

    /// Adds a download under a new random identifier, which is returned, and
    /// the time of the call. Without a name, the address gives one. The page
    /// that referred to the address is not used.
    pub fn add(
        &mut self,
        url: String,
        filename: Option<String>,
        referrer: Option<String>,
    ) -> (r: String)
        ensures
            uuid_text(r@),
            exists|at: Timestamp, name: String|
                {
                    &&& at.nanos < 1_000_000_000
                    &&& match filename {
                        Some(f) => name == f,
                        None => guessed(url@, name@),
                    }
                    &&& final(self)@ == #[trigger] old(self)@.added(r, at, url, name)
                },
    {
        let name = match filename {
            Some(f) => f,
            None => guess_filename(url.as_str()),
        };
        let id = new_uuid();
        let at = now();
        self.add_identified(id.clone(), at, url, name);
        id
    }

    /// Adds a download under the given identifier, time and name.
    pub fn add_identified(&mut self, id: String, at: Timestamp, url: String, name: String)
        ensures
            final(self)@ == old(self)@.added(id, at, url, name),
    {
        let save_path = self.cfg.save_dir.clone();
        let is_ytdlp = needs_ytdlp(url.as_str());
        let mut item = DownloadItem::identified(id, at, url, name, save_path);
        item.is_ytdlp = is_ytdlp;
        item.segments = self.cfg.segments;
        item.format = Some(self.cfg.ytdlp_format.clone());
        self.items.push(item);
        self.try_start_next();
    }

    /// Starts downloads that wait, in order and each once, up to the limit.
    pub fn try_start_next(&mut self)
        ensures
            final(self)@ == old(self)@.started(),
    {
        let ghost before = self@;
        let max: u64 = self.cfg.max_concurrent as u64;
        let room: u64 = if self.active_count < max {
            max - self.active_count
        } else {
            0
        };
        let next = self.find_waiting(room);
        let mut k: usize = 0;
        assert(next@.take(0) == Seq::<DownloadItem>::empty());
        while k < next.len()
            invariant
                k <= next.len(),
                next@ == before.next_up(),
                before.active + next.len() <= u64::MAX,
                self@ == (QueueState {
                    active: (before.active + k) as u64,
                    handles: with_new_handles(before.handles, next@.take(k as int)),
                    handed: with_handed(before.handed, next@.take(k as int)),
                    starts: before.starts + next@.take(k as int).map_values(
                        |item: DownloadItem|
                            DownloadStart { item, speed_limit_kbps: before.cfg.speed_limit_kbps },
                    ),
                    ..before
                }),
            decreases next.len() - k,
        {
            assert(next@.take(k + 1).drop_last() == next@.take(k as int));
            assert(next@.take(k + 1).last() == next@[k as int]);
            self.active_count += 1;
            self.start_download(next[k].clone());
            k += 1;
        }
        assert(next@.take(k as int) == next@);
    }

    /// The downloads that wait for their turn, from the first on and no more
    /// than `room` of them.
    fn find_waiting(&self, room: u64) -> (r: Vec<DownloadItem>)
        ensures
            r@ == if self@.waiting().len() <= room {
                self@.waiting()
            } else {
                self@.waiting().take(room as int)
            },
    {
        let ghost all = self.items@;
        let ghost waits = |i: DownloadItem|
            i.status is Queued && !self@.handed.contains(i.id@);
        let mut out: Vec<DownloadItem> = Vec::new();
        let mut i: usize = 0;
        assert(all.take(0).filter(waits) == Seq::<DownloadItem>::empty()) by {
            reveal(Seq::filter);
        }
        while i < self.items.len() && (out.len() as u64) < room
            invariant
                all == self.items@,
                i <= self.items.len(),
                waits == (|i: DownloadItem|
                    i.status is Queued && !self@.handed.contains(i.id@)),
                out@ == all.take(i as int).filter(waits),
                out.len() <= room,
            decreases self.items.len() - i,
        {
            assert(all.take(i + 1).drop_last() == all.take(i as int));
            assert(all.take(i + 1).last() == all[i as int]);
            reveal(Seq::filter);
            if self.items[i].status.is_queued() && !self.handed.contains(
                self.items[i].id.as_str(),
            ) {
                out.push(self.items[i].clone());
            }
            i += 1;
        }
        proof {
            assert(all.take(i as int) + all.skip(i as int) == all);
            Seq::filter_distributes_over_add(all.take(i as int), all.skip(i as int), waits);
            assert(self@.waiting() == all.filter(waits));
            if i < all.len() {
                assert(self@.waiting().take(room as int) == out@);
                if self@.waiting().len() <= room {
                    assert(self@.waiting() == out@);
                }
            } else {
                assert(all.take(i as int) == all);
            }
        }
        out
    }

    /// Hands a download out, under flags that let it run.
    fn start_download(&mut self, item: DownloadItem)
        ensures
            final(self)@ == (QueueState {
                handles: old(self)@.handles.insert(item.id@, new_handle()),
                handed: old(self)@.handed.insert(item.id@),
                starts: old(self)@.starts.push(
                    DownloadStart { item, speed_limit_kbps: old(self)@.cfg.speed_limit_kbps },
                ),
                ..old(self)@
            }),
    {
        self.handles.insert(item.id.clone(), DownloadHandle { cancel: false, pause: false });
        self.handed.insert(item.id.clone());
        self.starts.push(DownloadStart { item, speed_limit_kbps: self.cfg.speed_limit_kbps });
    }

    /// Hands over the downloads to be run since the last call.
    pub fn take_starts(&mut self) -> (r: Vec<DownloadStart>)
        ensures
            r@ == old(self)@.starts,
            final(self)@ == (QueueState { starts: Seq::empty(), ..old(self)@ }),
    {
        let mut out: Vec<DownloadStart> = Vec::new();
        std::mem::swap(&mut out, &mut self.starts);
        out
    }

    /// What the running download `id` is told.
    pub fn handle(&self, id: &str) -> (r: Option<DownloadHandle>)
        ensures
            r == if self@.handles.contains_key(id@) {
                Some(self@.handles[id@])
            } else {
                None
            },
    {
        match self.handles.get(id) {
            Some(h) => Some(*h),
            None => None,
        }
    }

    /// The lines logged for the download `id`.
    pub fn log(&self, id: &str) -> (r: Option<&Vec<String>>)
        ensures
            match r {
                Some(lines) => self@.logs.contains_key(id@) && views(lines@) == self@.logs[id@],
                None => !self@.logs.contains_key(id@),
            },
    {
        self.logs.get(id)
    }

    /// Takes over new settings.
    pub fn set_config(&mut self, cfg: Config)
        ensures
            final(self)@ == (QueueState { cfg, ..old(self)@ }),
    {
        self.cfg = cfg;
    }

    /// Pauses the download `id`.
    pub fn pause(&mut self, id: &str)
        ensures
            final(self)@ == old(self)@.paused(id@),
    {
        if let Some(h) = self.handle(id) {
            self.handles.insert(id.to_string(), DownloadHandle { cancel: h.cancel, pause: true });
        }
        self.set_status(id, DownloadStatus::Paused);
    }

    /// Lets the download `id` go on if it still runs, and queues it again if
    /// not.
    pub fn resume(&mut self, id: &str)
        ensures
            final(self)@ == old(self)@.resumed(id@),
    {
        if let Some(h) = self.handle(id) {
            self.handles.insert(id.to_string(), DownloadHandle { cancel: h.cancel, pause: false });
            self.set_status(id, DownloadStatus::Downloading);
            return;
        }
        self.set_status(id, DownloadStatus::Queued);
        self.try_start_next();
    }

    /// Cancels the download `id`.
    pub fn cancel(&mut self, id: &str)
        ensures
            final(self)@ == old(self)@.cancelled(id@),
    {
        if let Some(h) = self.handle(id) {
            self.handles.insert(id.to_string(), DownloadHandle { cancel: true, pause: h.pause });
        }
        self.set_status(id, DownloadStatus::Cancelled);
    }

    /// Cancels the download `id` and takes it out of the queue.
    pub fn remove(&mut self, id: &str)
        ensures
            final(self)@ == old(self)@.removed(id@),
    {
        self.cancel(id);
        let ghost all = self.items@;
        let ghost keep = |i: DownloadItem| i.id@ != id@;
        let mut old_items: Vec<DownloadItem> = Vec::new();
        std::mem::swap(&mut old_items, &mut self.items);
        let mut i: usize = 0;
        assert(all.take(0).filter(keep) == Seq::<DownloadItem>::empty());
        while i < old_items.len()
            invariant
                i <= old_items.len(),
                old_items@ == all,
                keep == (|i: DownloadItem| i.id@ != id@),
                self.items@ == all.take(i as int).filter(keep),
                self@ == (QueueState { items: self.items@, ..old(self)@.cancelled(id@) }),
            decreases old_items.len() - i,
        {
            assert(all.take(i + 1).drop_last() == all.take(i as int));
            assert(all.take(i + 1).last() == all[i as int]);
            reveal(Seq::filter);
            if !same(old_items[i].id.as_str(), id) {
                self.items.push(old_items[i].clone());
            }
            i += 1;
        }
        assert(all.take(i as int) == all);
    }

    /// Lets the download `id` begin anew: it starts as soon as there is room,
    /// whether or not its last run has ended.
    pub fn retry(&mut self, id: &str)
        ensures
            final(self)@ == old(self)@.retried(id@),
    {
        if let Some(i) = find_item(&self.items, id) {
            let mut item = self.items[i].clone();
            item.status = DownloadStatus::Queued;
            item.downloaded = 0;
            item.error = None;
            self.items.set(i, item);
            self.handed.remove(id);
            self.try_start_next();
        }
    }

    /// Cancels every download.
    pub fn cancel_all(&mut self)
        ensures
            final(self)@ == old(self)@.cancelled_each(old(self)@.ids()),
    {
        let ghost before = self@;
        let ghost all = before.ids();
        let mut ids: Vec<String> = Vec::new();
        let mut i: usize = 0;
        while i < self.items.len()
            invariant
                self@ == before,
                all == before.ids(),
                i <= self.items.len(),
                views(ids@) == all.take(i as int),
            decreases self.items.len() - i,
        {
            let ghost rest = ids@;
            ids.push(self.items[i].id.clone());
            assert(views(ids@) == views(rest).push(all[i as int]));
            assert(all.take(i + 1) == all.take(i as int).push(all[i as int]));
            i += 1;
        }
        assert(all.take(i as int) == all);
        let mut k: usize = 0;
        while k < ids.len()
            invariant
                k <= ids.len(),
                views(ids@) == all,
                self@ == before.cancelled_each(all.take(k as int)),
            decreases ids.len() - k,
        {
            assert(ids@[k as int]@ == views(ids@)[k as int]);
            self.cancel(ids[k].as_str());
            assert(all.take(k + 1).drop_last() == all.take(k as int));
            assert(all.take(k + 1).last() == all[k as int]);
            k += 1;
        }
        assert(all.take(k as int) == all);
    }

    /// Heeds the messages of the running downloads, in order.
    pub fn process_events(&mut self, events: Vec<DownloadEvent>)
        ensures
            final(self)@ == old(self)@.heard_all(events@),
    {
        let ghost before = self@;
        let ghost all = events@;
        assert(all.take(0) == Seq::<DownloadEvent>::empty());
        for event in it: events
            invariant
                it.seq() == all,
                self@ == before.heard_all(all.take(it.index())),
        {
            let ghost k = it.index();
            assert(all.take(k + 1).drop_last() == all.take(k));
            assert(all.take(k + 1).last() == all[k]);
            self.process_event(event);
        }
        assert(all.take(all.len() as int) == all);
    }

    /// Heeds one message.
    pub fn process_event(&mut self, event: DownloadEvent)
        ensures
            final(self)@ == old(self)@.heard(event),
    {
        match event {
            DownloadEvent::Progress { id, downloaded, total, speed, eta } => {
                if let Some(i) = find_item(&self.items, id.as_str()) {
                    let mut item = self.items[i].clone();
                    item.downloaded = downloaded;
                    item.total_bytes = total;
                    item.speed_bps = speed;
                    item.eta_secs = eta;
                    self.items.set(i, item);
                }
            },
            DownloadEvent::StatusChange { id, status } => {
                if let Some(i) = find_item(&self.items, id.as_str()) {
                    let mut item = self.items[i].clone();
                    if let DownloadStatus::Failed(msg) = &status {
                        item.error = Some(msg.clone());
                    }
                    item.status = status;
                    self.items.set(i, item);
                }
                self.handed.remove(id.as_str());
                self.try_start_next();
            },
            DownloadEvent::Log { id, msg } => {
                add_line(&mut self.logs, id, msg);
            },
        }
    }

    /// Takes note that the run of the download `id` has ended, at the time of
    /// the call.
    pub fn finish(&mut self, id: &str, outcome: Result<(), String>) -> (r: Finish)
        ensures
            exists|at: Timestamp|
                at.nanos < 1_000_000_000 && final(self)@ == #[trigger] old(self)@.ended(
                    id@,
                    outcome,
                    at,
                ),
            r.event matches DownloadEvent::StatusChange { id: told, status } && told@ == id@
                && status == end_status(outcome),
            r.save_history == (end_status(outcome) is Completed && with_id(
                old(self)@.items,
                id@,
                0,
            ) is Some),
    {
        let at = now();
        self.finish_at(id, outcome, at)
    }

    /// Takes note that the run of the download `id` has ended at `at`.
    pub fn finish_at(&mut self, id: &str, outcome: Result<(), String>, at: Timestamp) -> (r: Finish)
        ensures
            final(self)@ == old(self)@.ended(id@, outcome, at),
            r.event matches DownloadEvent::StatusChange { id: told, status } && told@ == id@
                && status == end_status(outcome),
            r.save_history == (end_status(outcome) is Completed && with_id(
                old(self)@.items,
                id@,
                0,
            ) is Some),
    {
        let status = final_status(outcome);
        let mut save_history = false;
        if status.is_completed() {
            if let Some(i) = find_item(&self.items, id) {
                let mut item = self.items.remove(i);
                item.status = DownloadStatus::Completed;
                item.finished_at = Some(at);
                let ghost before = self.history@;
                self.history.insert(0, item);
                assert(self.history@ == seq![item] + before);
                self.history.truncate(HISTORY_LIMIT);
                save_history = true;
            }
        }
        self.handles.remove(id);
        self.active_count = self.active_count.wrapping_sub(1);
        Finish {
            event: DownloadEvent::StatusChange { id: id.to_string(), status },
            save_history,
        }
    }

    /// Gives the download `id` a status.
    fn set_status(&mut self, id: &str, status: DownloadStatus)
        ensures
            final(self)@ == old(self)@.with_status(id@, status),
    {
        if let Some(i) = find_item(&self.items, id) {
            let mut item = self.items[i].clone();
            item.status = status;
            self.items.set(i, item);
        }
        self.handed.remove(id);
    }
}

} // verus!
