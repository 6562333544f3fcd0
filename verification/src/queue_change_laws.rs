//! What each operation changes of the queue, and what it leaves as it is.

use crate::platform::Timestamp;
use crate::queue::end_status;
use crate::queue::lemma_filter_from;
use crate::queue::lemma_with_id;
use crate::queue::others;
use crate::queue::with_id;
use crate::queue::QueueState;
use crate::queue::HISTORY_LIMIT;
use crate::queue_laws::distinct;
use crate::queue_laws::law_starting_fills_room;
use crate::text::holds;
use crate::text::lowered;
use crate::types::category_of;
use crate::types::extension;
use crate::types::DownloadEvent;
use crate::types::DownloadItem;
use crate::types::DownloadStatus;
use crate::ytdlp::PLATFORMS;
use vstd::prelude::*;

verus! {

/// `b` has the downloads of `a`, but for the one at `i`, which is `item`.
pub open spec fn only_item_changed(
    a: Seq<DownloadItem>,
    b: Seq<DownloadItem>,
    i: int,
    item: DownloadItem,
) -> bool {
    &&& b.len() == a.len()
    &&& b[i] == item
    &&& forall|k: int| 0 <= k < a.len() && k != i ==> #[trigger] b[k] == a[k]
}

/// Nothing but the downloads and what the running ones are told differs between
/// `a` and `b`; only the download `id` may be told something else, and it no
/// longer counts as handed out.
pub open spec fn told_only(a: QueueState, b: QueueState, id: Seq<char>) -> bool {
    &&& b.history == a.history
    &&& b.logs == a.logs
    &&& b.cfg == a.cfg
    &&& b.active == a.active
    &&& b.starts == a.starts
    &&& b.handed == a.handed.remove(id)
    &&& forall|other: Seq<char>|
        #![trigger b.handles.contains_key(other)]
        b.handles.contains_key(other) == a.handles.contains_key(other)
    &&& forall|other: Seq<char>|
        a.handles.contains_key(other) && other != id ==> #[trigger] b.handles[other]
            == a.handles[other]
}

/// Pausing a download changes its status and raises its pause flag.
pub proof fn law_pause_changes(q: QueueState, id: Seq<char>)
    ensures
        told_only(q, q.paused(id), id),
        q.handles.contains_key(id) ==> q.paused(id).handles[id].pause
            && q.paused(id).handles[id].cancel == q.handles[id].cancel,
        match with_id(q.items, id, 0) {
            Some(i) => only_item_changed(
                q.items,
                q.paused(id).items,
                i,
                (DownloadItem { status: DownloadStatus::Paused, ..q.items[i] }),
            ),
            None => q.paused(id).items == q.items,
        },
{
    lemma_with_id(q.items, id, 0);
}

/// Cancelling a download changes its status and raises its cancel flag.
pub proof fn law_cancel_changes(q: QueueState, id: Seq<char>)
    ensures
        told_only(q, q.cancelled(id), id),
        q.handles.contains_key(id) ==> q.cancelled(id).handles[id].cancel
            && q.cancelled(id).handles[id].pause == q.handles[id].pause,
        match with_id(q.items, id, 0) {
            Some(i) => only_item_changed(
                q.items,
                q.cancelled(id).items,
                i,
                (DownloadItem { status: DownloadStatus::Cancelled, ..q.items[i] }),
            ),
            None => q.cancelled(id).items == q.items,
        },
{
    lemma_with_id(q.items, id, 0);
}

/// Letting a running download go on changes its status and lowers its pause
/// flag; one that does not run waits again.
pub proof fn law_resume_changes(q: QueueState, id: Seq<char>)
    ensures
        q.handles.contains_key(id) ==> {
            &&& told_only(q, q.resumed(id), id)
            &&& !q.resumed(id).handles[id].pause
            &&& q.resumed(id).handles[id].cancel == q.handles[id].cancel
        },
        q.resumed(id).history == q.history,
        q.resumed(id).logs == q.logs,
        q.resumed(id).cfg == q.cfg,
        match with_id(q.items, id, 0) {
            Some(i) => only_item_changed(
                q.items,
                q.resumed(id).items,
                i,
                (DownloadItem {
                    status: if q.handles.contains_key(id) {
                        DownloadStatus::Downloading
                    } else {
                        DownloadStatus::Queued
                    },
                    ..q.items[i]
                }),
            ),
            None => q.resumed(id).items == q.items,
        },
{
    lemma_with_id(q.items, id, 0);
}

/// A retry changes nothing of the download but its status, its bytes and its
/// error, and nothing of any other.
pub proof fn law_retry_changes(q: QueueState, id: Seq<char>)
    ensures
        q.retried(id).history == q.history,
        q.retried(id).logs == q.logs,
        q.retried(id).cfg == q.cfg,
        match with_id(q.items, id, 0) {
            Some(i) => only_item_changed(
                q.items,
                q.retried(id).items,
                i,
                (DownloadItem {
                    status: DownloadStatus::Queued,
                    downloaded: 0,
                    error: None,
                    ..q.items[i]
                }),
            ),
            None => q.retried(id) == q,
        },
{
    lemma_with_id(q.items, id, 0);
}

/// Of distinct downloads exactly the one removed leaves the queue, the others
/// keep their order, and its run, if there is one, is cancelled.
pub proof fn law_remove_changes(q: QueueState, id: Seq<char>)
    requires
        distinct(q.items),
    ensures
        told_only(q, q.removed(id), id),
        q.handles.contains_key(id) ==> q.removed(id).handles[id].cancel,
        q.removed(id).items == match with_id(q.items, id, 0) {
            Some(i) => q.items.remove(i),
            None => q.items,
        },
{
    lemma_with_id(q.items, id, 0);
    crate::queue_laws::law_removed_is_gone(q, id);
    law_cancel_changes(q, id);
    match with_id(q.items, id, 0) {
        Some(i) => {
            lemma_others_of_distinct(q.items, id, i);
        },
        None => {
            lemma_others_without(q.items, id);
        },
    }
}

/// Where none has the identifier, the others are all.
proof fn lemma_others_without(items: Seq<DownloadItem>, id: Seq<char>)
    requires
        forall|k: int| 0 <= k < items.len() ==> #[trigger] items[k].id@ != id,
    ensures
        others(items, id) == items,
    decreases items.len(),
{
    reveal(Seq::filter);
    if items.len() > 0 {
        let front = items.drop_last();
        assert forall|k: int| 0 <= k < front.len() implies #[trigger] front[k].id@ != id by {
            assert(items[k].id@ != id);
        }
        lemma_others_without(front, id);
        assert(items[items.len() - 1].id@ != id);
        assert(front.push(items.last()) =~= items);
    }
}

/// Of distinct downloads the others than one are all but that one.
proof fn lemma_others_of_distinct(items: Seq<DownloadItem>, id: Seq<char>, i: int)
    requires
        distinct(items),
        0 <= i < items.len(),
        items[i].id@ == id,
    ensures
        others(items, id) == items.remove(i),
    decreases items.len(),
{
    reveal(Seq::filter);
    let front = items.drop_last();
    if i == items.len() - 1 {
        assert forall|k: int| 0 <= k < front.len() implies #[trigger] front[k].id@ != id by {
            assert(items[k].id@ != items[i].id@);
        }
        lemma_others_without(front, id);
        assert(items.remove(i) =~= front);
    } else {
        assert forall|a: int, b: int| 0 <= a < b < front.len() implies (#[trigger] front[a]).id@
            != (#[trigger] front[b]).id@ by {
            assert(items[a].id@ != items[b].id@);
        }
        lemma_others_of_distinct(front, id, i);
        assert(items[i].id@ != items[items.len() - 1].id@);
        assert(items.remove(i) =~= front.remove(i).push(items.last()));
    }
}

/// A report changes the numbers of its download and nothing else.
pub proof fn law_report_changes(
    q: QueueState,
    id: String,
    downloaded: u64,
    total: u64,
    speed: u64,
    eta: u64,
)
    ensures
        ({
            let h = q.heard(DownloadEvent::Progress { id, downloaded, total, speed, eta });
            &&& h.history == q.history
            &&& h.logs == q.logs
            &&& h.cfg == q.cfg
            &&& h.handles == q.handles
            &&& h.active == q.active
            &&& h.starts == q.starts
            &&& match with_id(q.items, id@, 0) {
                Some(i) => only_item_changed(
                    q.items,
                    h.items,
                    i,
                    (DownloadItem {
                        downloaded,
                        total_bytes: total,
                        speed_bps: speed,
                        eta_secs: eta,
                        ..q.items[i]
                    }),
                ),
                None => h.items == q.items,
            }
        }),
{
    lemma_with_id(q.items, id@, 0);
}

/// A message about a status changes the status of its download and, for a
/// failure, its error, and nothing else of the downloads.
pub proof fn law_status_message_changes(q: QueueState, id: String, status: DownloadStatus)
    ensures
        ({
            let h = q.heard(DownloadEvent::StatusChange { id, status });
            &&& h.history == q.history
            &&& h.logs == q.logs
            &&& h.cfg == q.cfg
            &&& match with_id(q.items, id@, 0) {
                Some(i) => {
                    &&& status matches DownloadStatus::Failed(msg) ==> only_item_changed(
                        q.items,
                        h.items,
                        i,
                        (DownloadItem { status, error: Some(msg), ..q.items[i] }),
                    )
                    &&& !(status is Failed) ==> only_item_changed(
                        q.items,
                        h.items,
                        i,
                        (DownloadItem { status, ..q.items[i] }),
                    )
                },
                None => h.items == q.items,
            }
        }),
{
    lemma_with_id(q.items, id@, 0);
}

/// A line for a log changes that log and nothing else.
pub proof fn law_log_message_changes(q: QueueState, id: String, msg: String)
    ensures
        ({
            let h = q.heard(DownloadEvent::Log { id, msg });
            &&& h.items == q.items
            &&& h.history == q.history
            &&& h.handles == q.handles
            &&& h.handed == q.handed
            &&& h.active == q.active
            &&& h.starts == q.starts
            &&& h.cfg == q.cfg
            &&& h.logs.contains_key(id@)
            &&& h.logs[id@].len() > 0
            &&& h.logs[id@].last() == msg@
            &&& forall|other: Seq<char>|
                other != id@ ==> (#[trigger] h.logs.contains_key(other) == q.logs.contains_key(
                    other,
                )) && (q.logs.contains_key(other) ==> h.logs[other] == q.logs[other])
        }),
{
}

/// Messages are heeded one after another, in order.
pub proof fn law_messages_in_order(q: QueueState, events: Seq<DownloadEvent>, event: DownloadEvent)
    ensures
        q.heard_all(Seq::empty()) == q,
        q.heard_all(events.push(event)) == q.heard_all(events).heard(event),
{
    assert(events.push(event).drop_last() =~= events);
}

/// The end of a run changes, for a completed download, only the queue, which it
/// leaves, and the history, where it stands first as it was, completed and with
/// the time of its end; it takes its handle, and frees its place.
pub proof fn law_end_changes(
    q: QueueState,
    id: Seq<char>,
    outcome: Result<(), String>,
    at: Timestamp,
)
    ensures
        ({
            let e = q.ended(id, outcome, at);
            &&& e.logs == q.logs
            &&& e.cfg == q.cfg
            &&& e.starts == q.starts
            &&& e.handed == q.handed
            &&& !e.handles.contains_key(id)
            &&& forall|other: Seq<char>|
                other != id ==> (#[trigger] e.handles.contains_key(other)
                    == q.handles.contains_key(other)) && (q.handles.contains_key(other)
                    ==> e.handles[other] == q.handles[other])
            &&& q.active > 0 ==> e.active == q.active - 1
            &&& match with_id(q.items, id, 0) {
                Some(i) => if outcome is Ok {
                    &&& e.items == q.items.remove(i)
                    &&& e.history.len() == if q.history.len() < HISTORY_LIMIT {
                        (q.history.len() + 1) as int
                    } else {
                        HISTORY_LIMIT as int
                    }
                    &&& e.history[0] == (DownloadItem {
                        status: DownloadStatus::Completed,
                        finished_at: Some(at),
                        ..q.items[i]
                    })
                    &&& forall|k: int|
                        1 <= k < e.history.len() ==> #[trigger] e.history[k] == q.history[k - 1]
                } else {
                    e.items == q.items && e.history == q.history
                },
                None => e.items == q.items && e.history == q.history,
            }
        }),
{
    lemma_with_id(q.items, id, 0);
}

/// A run that ends well is completed; one that ends with a message in which
/// `Cancelled` stands is cancelled; any other has failed, with its message.
pub proof fn law_how_runs_end(msg: String)
    ensures
        end_status(Ok(())) == DownloadStatus::Completed,
        holds(msg@, "Cancelled"@) ==> end_status(Err(msg)) == DownloadStatus::Cancelled,
        !holds(msg@, "Cancelled"@) ==> end_status(Err(msg)) == DownloadStatus::Failed(msg),
{
}

/// Every field of a download that has been added: it waits under its
/// identifier, with nothing arrived, for the folder, the segments and the format
/// of the settings, and goes to yt-dlp exactly where its address names a
/// platform.
pub proof fn law_added_item(q: QueueState, id: String, at: Timestamp, url: String, name: String)
    ensures
        ({
            let a = q.added(id, at, url, name);
            let item = a.items.last();
            &&& a.items.len() == q.items.len() + 1
            &&& a.items.drop_last() == q.items
            &&& a.history == q.history
            &&& a.logs == q.logs
            &&& a.cfg == q.cfg
            &&& item.id == id
            &&& item.url == url
            &&& item.filename == name
            &&& item.save_path == q.cfg.save_dir
            &&& item.category == category_of(extension(lowered(url@)))
            &&& item.status == DownloadStatus::Queued
            &&& item.total_bytes == 0
            &&& item.downloaded == 0
            &&& item.speed_bps == 0
            &&& item.eta_secs == 0
            &&& item.segments == q.cfg.segments
            &&& item.added_at == at
            &&& item.finished_at is None
            &&& item.error is None
            &&& item.format == Some(q.cfg.ytdlp_format)
            &&& item.is_ytdlp <==> exists|i: int|
                0 <= i < PLATFORMS@.len() && holds(lowered(url@), #[trigger] PLATFORMS@[i]@)
        }),
{
    crate::ytdlp::law_platforms(lowered(url@));
}

/// Exactly the queued downloads that have not been handed out wait, and in their
/// order.
pub proof fn law_who_waits(q: QueueState)
    ensures
        forall|k: int|
            0 <= k < q.items.len() && q.items[k].status is Queued && !q.handed.contains(
                q.items[k].id@,
            ) ==> q.waiting().contains(#[trigger] q.items[k]),
        forall|k: int|
            0 <= k < q.waiting().len() ==> {
                &&& q.items.contains(#[trigger] q.waiting()[k])
                &&& q.waiting()[k].status is Queued
                &&& !q.handed.contains(q.waiting()[k].id@)
            },
{
    let waits = |i: DownloadItem| i.status is Queued && !q.handed.contains(i.id@);
    assert forall|k: int|
        0 <= k < q.items.len() && q.items[k].status is Queued && !q.handed.contains(
            q.items[k].id@,
        ) implies q.waiting().contains(#[trigger] q.items[k]) by {
        q.items.lemma_filter_contains(waits, k);
    }
    assert forall|k: int| 0 <= k < q.waiting().len() implies {
        &&& q.items.contains(#[trigger] q.waiting()[k])
        &&& q.waiting()[k].status is Queued
        &&& !q.handed.contains(q.waiting()[k].id@)
    } by {
        lemma_filter_from(q.items, waits, k);
    }
}

/// Those who wait stand in the order of the queue: a download added behind the
/// others waits behind them.
pub proof fn law_waiting_in_order(q: QueueState, item: DownloadItem)
    ensures
        ({
            let r = QueueState { items: q.items.push(item), ..q };
            r.waiting() == if item.status is Queued && !q.handed.contains(item.id@) {
                q.waiting().push(item)
            } else {
                q.waiting()
            }
        }),
{
    reveal(Seq::filter);
    assert(q.items.push(item).drop_last() =~= q.items);
}

/// As many downloads run as may, or none waits.
pub open spec fn settled(q: QueueState) -> bool {
    q.active >= q.cfg.max_concurrent || q.waiting().len() == 0
}

/// Whatever may leave a download waiting is followed by the start of those that
/// find room: a new download, one that is to go on without a run, one that is
/// tried again, and a message about a status.
pub proof fn law_room_is_filled(
    q: QueueState,
    id: String,
    at: Timestamp,
    url: String,
    name: String,
    status: DownloadStatus,
)
    ensures
        settled(q.added(id, at, url, name)),
        !q.handles.contains_key(id@) ==> settled(q.resumed(id@)),
        with_id(q.items, id@, 0) is Some ==> settled(q.retried(id@)),
        settled(q.heard(DownloadEvent::StatusChange { id, status })),
{
    law_starting_fills_room(q.enqueued(id, at, url, name));
    law_starting_fills_room(q.with_status(id@, DownloadStatus::Queued));
    law_starting_fills_room(q.requeued(id@));
    law_starting_fills_room(q.changed(id@, status));
}

/// There is room for as many downloads as the limit exceeds those that run, and
/// as many of those who wait start, from the first on, each with its settings.
pub proof fn law_who_starts(q: QueueState)
    ensures
        q.active >= q.cfg.max_concurrent ==> q.started() == q,
        q.active < q.cfg.max_concurrent ==> {
            let room = q.cfg.max_concurrent - q.active;
            let n = q.started().starts.len() - q.starts.len();
            &&& n == if q.waiting().len() < room {
                q.waiting().len() as int
            } else {
                room
            }
            &&& q.started().active == q.active + n
            &&& q.started().starts.take(q.starts.len() as int) == q.starts
            &&& forall|k: int|
                q.starts.len() <= k < q.started().starts.len() ==> (
                #[trigger] q.started().starts[k]).item == q.waiting()[k - q.starts.len()]
                    && q.started().starts[k].speed_limit_kbps == q.cfg.speed_limit_kbps
        },
{
    if q.active >= q.cfg.max_concurrent {
        assert(q.next_up() =~= Seq::empty());
        assert(q.started().starts =~= q.starts);
    } else {
        assert(q.started().starts.take(q.starts.len() as int) =~= q.starts);
    }
}

} // verus!
