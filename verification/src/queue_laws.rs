//! What holds of the queue whatever happens to it.

use crate::platform::Timestamp;
use crate::queue::end_status;
use crate::queue::lemma_filter_from;
use crate::queue::lemma_with_id;
use crate::queue::logged;
use crate::queue::new_handle;
use crate::queue::others;
use crate::queue::with_handed;
use crate::queue::with_id;
use crate::queue::with_new_handles;
use crate::queue::DownloadHandle;
use crate::queue::QueueState;
use crate::queue::HISTORY_LIMIT;
use crate::queue::LOG_LIMIT;
use crate::types::DownloadEvent;
use crate::types::DownloadItem;
use crate::types::DownloadStatus;
use vstd::prelude::*;

verus! {

/// The greater of two numbers.
pub open spec fn at_least(a: int, b: int) -> int {
    if a < b {
        b
    } else {
        a
    }
}

/// From `a` to `b` no more downloads have begun to run than the limit allows,
/// and each that has begun has been handed out.
pub open spec fn within_limit(a: QueueState, b: QueueState) -> bool {
    &&& a.active <= b.active <= at_least(a.active as int, a.cfg.max_concurrent as int)
    &&& a.starts.len() <= b.starts.len()
    &&& b.starts.len() - a.starts.len() == b.active - a.active
    &&& b.starts.take(a.starts.len() as int) == a.starts
}

/// Of distinct downloads any that a filter leaves are distinct.
proof fn lemma_filter_distinct(items: Seq<DownloadItem>, pred: spec_fn(DownloadItem) -> bool)
    requires
        distinct(items),
    ensures
        distinct(items.filter(pred)),
    decreases items.len(),
{
    reveal(Seq::filter);
    if items.len() > 0 {
        let front = items.drop_last();
        assert forall|i: int, j: int| 0 <= i < j < front.len() implies (#[trigger] front[i]).id@
            != (#[trigger] front[j]).id@ by {
            assert(items[i].id@ != items[j].id@);
        }
        lemma_filter_distinct(front, pred);
        let before = front.filter(pred);
        let after = items.filter(pred);
        assert forall|i: int, j: int| 0 <= i < j < after.len() implies (#[trigger] after[i]).id@
            != (#[trigger] after[j]).id@ by {
            assert(after[i] == before[i]);
            if j < before.len() {
                assert(after[j] == before[j]);
            } else {
                lemma_filter_from(front, pred, i);
                let m = choose|m: int| 0 <= m < front.len() && front[m] == before[i];
                assert(items[m].id@ != items[items.len() - 1].id@);
            }
        }
    }
}

/// New handles stand for exactly the downloads that have begun to run, beside
/// those that stood before.
proof fn lemma_new_handles(
    handles: Map<Seq<char>, DownloadHandle>,
    items: Seq<DownloadItem>,
    id: Seq<char>,
)
    ensures
        with_new_handles(handles, items).contains_key(id) <==> handles.contains_key(id) || exists|
            k: int,
        |
            0 <= k < items.len() && (#[trigger] items[k]).id@ == id,
        (exists|k: int| 0 <= k < items.len() && (#[trigger] items[k]).id@ == id)
            ==> with_new_handles(handles, items)[id] == new_handle(),
        !(exists|k: int| 0 <= k < items.len() && (#[trigger] items[k]).id@ == id)
            && handles.contains_key(id) ==> with_new_handles(handles, items)[id] == handles[id],
    decreases items.len(),
{
    if items.len() > 0 {
        let front = items.drop_last();
        lemma_new_handles(handles, front, id);
        if exists|k: int| 0 <= k < items.len() && (#[trigger] items[k]).id@ == id {
            let k = choose|k: int| 0 <= k < items.len() && (#[trigger] items[k]).id@ == id;
            if k < front.len() {
                assert(front[k].id@ == id);
            }
        }
        if exists|k: int| 0 <= k < front.len() && (#[trigger] front[k]).id@ == id {
            let k = choose|k: int| 0 <= k < front.len() && (#[trigger] front[k]).id@ == id;
            assert(items[k].id@ == id);
        }
        if items.last().id@ == id {
            assert(items[items.len() - 1].id@ == id);
        }
    }
}

/// The downloads handed out are exactly those from before and the new ones.
proof fn lemma_handed(handed: Set<Seq<char>>, items: Seq<DownloadItem>, id: Seq<char>)
    ensures
        with_handed(handed, items).contains(id) <==> handed.contains(id) || exists|k: int|
            0 <= k < items.len() && (#[trigger] items[k]).id@ == id,
    decreases items.len(),
{
    if items.len() > 0 {
        let front = items.drop_last();
        lemma_handed(handed, front, id);
        if exists|k: int| 0 <= k < items.len() && (#[trigger] items[k]).id@ == id {
            let k = choose|k: int| 0 <= k < items.len() && (#[trigger] items[k]).id@ == id;
            if k < front.len() {
                assert(front[k].id@ == id);
            }
        }
        if exists|k: int| 0 <= k < front.len() && (#[trigger] front[k]).id@ == id {
            let k = choose|k: int| 0 <= k < front.len() && (#[trigger] front[k]).id@ == id;
            assert(items[k].id@ == id);
        }
        if items.last().id@ == id {
            assert(items[items.len() - 1].id@ == id);
        }
    }
}

/// What is handed out next waits, and has not been handed out yet.
proof fn lemma_next_up(q: QueueState, k: int)
    requires
        0 <= k < q.next_up().len(),
    ensures
        q.next_up()[k] == q.waiting()[k],
        q.items.contains(q.next_up()[k]),
        q.next_up()[k].status is Queued,
        !q.handed.contains(q.next_up()[k].id@),
{
    let waits = |i: DownloadItem| i.status is Queued && !q.handed.contains(i.id@);
    lemma_filter_from(q.items, waits, k);
}

/// Starting downloads keeps to the limit.
pub proof fn law_starting_keeps_limit(q: QueueState)
    ensures
        within_limit(q, q.started()),
        q.started().items == q.items,
        q.started().history == q.history,
        q.started().logs == q.logs,
        q.started().cfg == q.cfg,
{
    assert(q.started().starts.take(q.starts.len() as int) == q.starts);
}

/// Nothing is left to start once the queue has started what it can: the limit
/// is reached or no download waits.
pub proof fn law_starting_fills_room(q: QueueState)
    ensures
        q.started().room() == 0 || q.started().waiting().len() == 0,
        q.started().started() == q.started(),
{
    let s = q.started();
    if s.room() > 0 && s.waiting().len() > 0 {
        let waits = |i: DownloadItem| i.status is Queued && !s.handed.contains(i.id@);
        lemma_filter_from(s.items, waits, 0);
        let x = s.waiting()[0];
        lemma_handed(q.handed, q.next_up(), x.id@);
        let waited = |i: DownloadItem| i.status is Queued && !q.handed.contains(i.id@);
        let m = choose|m: int| 0 <= m < q.items.len() && q.items[m] == x;
        q.items.lemma_filter_contains(waited, m);
        assert(q.waiting().contains(x));
        let k = choose|k: int| 0 <= k < q.waiting().len() && q.waiting()[k] == x;
        assert(q.next_up()[k].id@ == x.id@);
    }
    assert(s.next_up() =~= Seq::empty());
    assert(s.started().starts =~= s.starts);
}

/// Exactly as many downloads start as wait and find room.
pub proof fn law_starting_counts(q: QueueState)
    ensures
        q.started().starts.len() - q.starts.len() == if q.waiting().len() <= q.room() {
            q.waiting().len()
        } else {
            q.room()
        },
        q.started().active - q.active == q.started().starts.len() - q.starts.len(),
{
}

/// Only downloads that wait are handed out, and each is told neither to stop
/// nor to pause.
pub proof fn law_only_waiting_downloads_start(q: QueueState, k: int)
    requires
        q.starts.len() <= k < q.started().starts.len(),
    ensures
        ({
            let s = q.started().starts[k];
            &&& q.items.contains(s.item)
            &&& s.item.status is Queued
            &&& s.speed_limit_kbps == q.cfg.speed_limit_kbps
            &&& q.started().handles.contains_key(s.item.id@)
            &&& q.started().handles[s.item.id@] == new_handle()
            &&& !q.started().handles[s.item.id@].cancel
            &&& !q.started().handles[s.item.id@].pause
        }),
{
    let j = k - q.starts.len();
    lemma_next_up(q, j);
    lemma_new_handles(q.handles, q.next_up(), q.next_up()[j].id@);
}

/// Of distinct downloads none is handed out twice at once, none that has been
/// handed out before, and each that is counts as handed out from then on.
pub proof fn law_each_starts_once(q: QueueState)
    requires
        distinct(q.items),
    ensures
        forall|k: int|
            q.starts.len() <= k < q.started().starts.len() ==> {
                &&& !q.handed.contains((#[trigger] q.started().starts[k]).item.id@)
                &&& q.started().handed.contains(q.started().starts[k].item.id@)
            },
        forall|j: int, k: int|
            q.starts.len() <= j < k < q.started().starts.len() ==> (
            #[trigger] q.started().starts[j]).item.id@ != (
            #[trigger] q.started().starts[k]).item.id@,
{
    let waits = |i: DownloadItem| i.status is Queued && !q.handed.contains(i.id@);
    lemma_filter_distinct(q.items, waits);
    let n = q.starts.len();
    let s = q.started().starts;
    assert forall|k: int| n <= k < s.len() implies {
        &&& !q.handed.contains((#[trigger] s[k]).item.id@)
        &&& q.started().handed.contains(s[k].item.id@)
    } by {
        lemma_next_up(q, k - n);
        lemma_handed(q.handed, q.next_up(), q.next_up()[k - n].id@);
    }
    assert forall|j: int, k: int| n <= j < k < s.len() implies (#[trigger] s[j]).item.id@ != (
    #[trigger] s[k]).item.id@ by {
        assert(s[j].item == q.waiting()[j - n]);
        assert(s[k].item == q.waiting()[k - n]);
    }
}

/// A download that has been handed out is not handed out again on the way from
/// `a` to `b`, and still counts as handed out.
pub open spec fn left_alone(a: QueueState, b: QueueState, id: Seq<char>) -> bool {
    &&& b.handed.contains(id)
    &&& a.starts.len() <= b.starts.len()
    &&& forall|k: int|
        a.starts.len() <= k < b.starts.len() ==> (#[trigger] b.starts[k]).item.id@ != id
}

/// Starting leaves alone what has been handed out.
proof fn lemma_started_leaves_alone(q: QueueState, id: Seq<char>)
    requires
        q.handed.contains(id),
    ensures
        left_alone(q, q.started(), id),
{
    lemma_handed(q.handed, q.next_up(), id);
    let s = q.started().starts;
    assert forall|k: int| q.starts.len() <= k < s.len() implies (#[trigger] s[k]).item.id@
        != id by {
        lemma_next_up(q, k - q.starts.len());
    }
}

/// A download that has been handed out is not handed out again until a request
/// or a message sets its status: those for other downloads leave it alone, and
/// so do reports, lines for its log and the end of its run.
pub proof fn law_handed_out_once(
    q: QueueState,
    id: Seq<char>,
    other: String,
    at: Timestamp,
    url: String,
    name: String,
    event: DownloadEvent,
    outcome: Result<(), String>,
)
    requires
        q.handed.contains(id),
        other@ != id,
    ensures
        left_alone(q, q.started(), id),
        left_alone(q, q.added(other, at, url, name), id),
        left_alone(q, q.paused(other@), id),
        left_alone(q, q.resumed(other@), id),
        left_alone(q, q.cancelled(other@), id),
        left_alone(q, q.removed(other@), id),
        left_alone(q, q.retried(other@), id),
        !(event matches DownloadEvent::StatusChange { id: told, status } && told@ == id)
            ==> left_alone(q, q.heard(event), id),
        left_alone(q, q.ended(id, outcome, at), id),
        left_alone(q, q.ended(other@, outcome, at), id),
{
    lemma_started_leaves_alone(q, id);
    lemma_started_leaves_alone(q.enqueued(other, at, url, name), id);
    lemma_started_leaves_alone(q.with_status(other@, DownloadStatus::Queued), id);
    lemma_started_leaves_alone(q.requeued(other@), id);
    if let DownloadEvent::StatusChange { id: told, status } = event {
        if told@ != id {
            lemma_started_leaves_alone(q.changed(told@, status), id);
        }
    }
}

/// Every queued download whose run is under way has been handed out.
pub open spec fn runs_are_known(q: QueueState) -> bool {
    forall|k: int|
        0 <= k < q.items.len() && (#[trigger] q.items[k]).status is Queued
            && q.handles.contains_key(q.items[k].id@) ==> q.handed.contains(q.items[k].id@)
}

/// Where that holds, no download is handed out while a run of it is under way.
pub proof fn law_no_second_run(q: QueueState)
    requires
        runs_are_known(q),
    ensures
        forall|k: int|
            q.starts.len() <= k < q.started().starts.len() ==> !q.handles.contains_key(
                (#[trigger] q.started().starts[k]).item.id@,
            ),
{
    let n = q.starts.len();
    let s = q.started().starts;
    assert forall|k: int| n <= k < s.len() implies !q.handles.contains_key(
        (#[trigger] s[k]).item.id@,
    ) by {
        lemma_next_up(q, k - n);
        let x = q.next_up()[k - n];
        let m = choose|m: int| 0 <= m < q.items.len() && q.items[m] == x;
        assert(q.items[m].id@ == x.id@);
    }
}

/// Starting keeps the runs known.
proof fn lemma_started_keeps_runs_known(q: QueueState)
    requires
        runs_are_known(q),
    ensures
        runs_are_known(q.started()),
{
    let s = q.started();
    assert forall|k: int|
        0 <= k < s.items.len() && (#[trigger] s.items[k]).status is Queued
            && s.handles.contains_key(s.items[k].id@) implies s.handed.contains(s.items[k].id@) by {
        let id = s.items[k].id@;
        assert(q.items[k].id@ == id);
        lemma_new_handles(q.handles, q.next_up(), id);
        lemma_handed(q.handed, q.next_up(), id);
    }
}

/// Setting the status of one of distinct downloads keeps the runs known, unless
/// one that runs is queued.
proof fn lemma_status_keeps_runs_known(q: QueueState, r: QueueState, id: Seq<char>)
    requires
        runs_are_known(q),
        distinct(q.items),
        r.items.len() == q.items.len(),
        forall|k: int| 0 <= k < q.items.len() ==> (#[trigger] r.items[k]).id@ == q.items[k].id@,
        forall|k: int|
            0 <= k < q.items.len() && (#[trigger] q.items[k]).id@ != id ==> r.items[k].status
                == q.items[k].status,
        with_id(q.items, id, 0) matches Some(i) ==> !(r.items[i].status is Queued)
            || !q.handles.contains_key(id),
        r.handles.dom() == q.handles.dom(),
        r.handed == q.handed.remove(id),
    ensures
        runs_are_known(r),
{
    assert forall|k: int|
        0 <= k < r.items.len() && (#[trigger] r.items[k]).status is Queued
            && r.handles.contains_key(r.items[k].id@) implies r.handed.contains(r.items[k].id@) by {
        assert(r.handles.dom().contains(r.items[k].id@));
        assert(q.handles.contains_key(q.items[k].id@));
        if q.items[k].id@ == id {
            law_distinct_items_are_found(q.items, k);
        }
    }
}

/// The runs stay known whatever happens to a queue of distinct downloads, but
/// for one thing: a download that is tried again, or told to be queued, while
/// its last run is under way.
pub proof fn law_runs_stay_known(
    q: QueueState,
    id: String,
    at: Timestamp,
    url: String,
    name: String,
    event: DownloadEvent,
    outcome: Result<(), String>,
)
    requires
        runs_are_known(q),
        distinct(q.items),
    ensures
        runs_are_known(q.started()),
        !q.handles.contains_key(id@) ==> runs_are_known(q.added(id, at, url, name)),
        runs_are_known(q.paused(id@)),
        runs_are_known(q.resumed(id@)),
        runs_are_known(q.cancelled(id@)),
        runs_are_known(q.removed(id@)),
        !q.handles.contains_key(id@) ==> runs_are_known(q.retried(id@)),
        !(event matches DownloadEvent::StatusChange { id: told, status } && status is Queued
            && q.handles.contains_key(told@)) ==> runs_are_known(q.heard(event)),
        runs_are_known(q.ended(id@, outcome, at)),
{
    lemma_with_id(q.items, id@, 0);
    lemma_started_keeps_runs_known(q);
    if !q.handles.contains_key(id@) {
        let a = q.enqueued(id, at, url, name);
        assert forall|k: int|
            0 <= k < a.items.len() && (#[trigger] a.items[k]).status is Queued
                && a.handles.contains_key(a.items[k].id@) implies a.handed.contains(
            a.items[k].id@,
        ) by {
            if k < q.items.len() {
                assert(q.items[k] == a.items[k]);
            }
        }
        lemma_started_keeps_runs_known(a);
        let w = q.with_status(id@, DownloadStatus::Queued);
        lemma_status_keeps_runs_known(q, w, id@);
        lemma_started_keeps_runs_known(w);
        if with_id(q.items, id@, 0) is Some {
            lemma_status_keeps_runs_known(q, q.requeued(id@), id@);
            lemma_started_keeps_runs_known(q.requeued(id@));
        }
    } else {
        assert(q.resumed(id@).handles.dom() =~= q.handles.dom());
        lemma_status_keeps_runs_known(q, q.resumed(id@), id@);
    }
    assert(q.paused(id@).handles.dom() =~= q.handles.dom());
    lemma_status_keeps_runs_known(q, q.paused(id@), id@);
    let c = q.cancelled(id@);
    assert(c.handles.dom() =~= q.handles.dom());
    lemma_status_keeps_runs_known(q, c, id@);
    let r = q.removed(id@);
    assert forall|k: int|
        0 <= k < r.items.len() && (#[trigger] r.items[k]).status is Queued
            && r.handles.contains_key(r.items[k].id@) implies r.handed.contains(r.items[k].id@) by {
        lemma_filter_from(c.items, |i: DownloadItem| i.id@ != id@, k);
        let m = choose|m: int| 0 <= m < c.items.len() && c.items[m] == r.items[k];
        assert(c.items[m].status is Queued);
    }
    match event {
        DownloadEvent::StatusChange { id: told, status } => {
            if !(status is Queued && q.handles.contains_key(told@)) {
                lemma_with_id(q.items, told@, 0);
                let h = q.changed(told@, status);
                lemma_status_keeps_runs_known(q, h, told@);
                lemma_started_keeps_runs_known(h);
            }
        },
        DownloadEvent::Progress { id: told, downloaded, total, speed, eta } => {
            lemma_with_id(q.items, told@, 0);
            let h = q.heard(event);
            assert forall|k: int|
                0 <= k < h.items.len() && (#[trigger] h.items[k]).status is Queued
                    && h.handles.contains_key(h.items[k].id@) implies h.handed.contains(
                h.items[k].id@,
            ) by {
                assert(q.items[k].status is Queued);
            }
        },
        DownloadEvent::Log { id: told, msg } => {},
    }
    let e = q.ended(id@, outcome, at);
    assert forall|k: int|
        0 <= k < e.items.len() && (#[trigger] e.items[k]).status is Queued
            && e.handles.contains_key(e.items[k].id@) implies e.handed.contains(e.items[k].id@) by {
        let m = match with_id(q.items, id@, 0) {
            Some(p) => if e.items.len() < q.items.len() && k >= p {
                k + 1
            } else {
                k
            },
            None => k,
        };
        assert(e.items[k] == q.items[m]);
    }
}

/// A download that is tried again starts at once where there is room for all
/// that wait then, whether or not its last run is under way.
pub proof fn law_retry_starts(q: QueueState, id: Seq<char>)
    requires
        with_id(q.items, id, 0) is Some,
        q.requeued(id).waiting().len() <= q.room(),
    ensures
        exists|k: int|
            q.starts.len() <= k < q.retried(id).starts.len()
                && (#[trigger] q.retried(id).starts[k]).item.id@ == id,
        q.retried(id).handles.contains_key(id),
        q.retried(id).handles[id] == new_handle(),
        !q.retried(id).handles[id].cancel,
        !q.retried(id).handles[id].pause,
{
    lemma_with_id(q.items, id, 0);
    let i = with_id(q.items, id, 0)->0;
    let r = q.requeued(id);
    let x = r.items[i];
    let waits = |i: DownloadItem| i.status is Queued && !r.handed.contains(i.id@);
    r.items.lemma_filter_contains(waits, i);
    assert(r.waiting().contains(x));
    let k = choose|k: int| 0 <= k < r.waiting().len() && r.waiting()[k] == x;
    assert(r.next_up()[k].id@ == id);
    assert(q.retried(id).starts[q.starts.len() + k].item.id@ == id);
    lemma_new_handles(r.handles, r.next_up(), id);
}

/// Running downloads that do not wait to begin anew keep what they are told when
/// others start.
pub proof fn law_starting_leaves_runs_alone(q: QueueState, id: Seq<char>)
    requires
        q.handles.contains_key(id),
        q.handed.contains(id) || with_id(q.waiting(), id, 0) is None,
    ensures
        q.started().handles.contains_key(id),
        q.started().handles[id] == q.handles[id],
{
    lemma_new_handles(q.handles, q.next_up(), id);
    lemma_with_id(q.waiting(), id, 0);
    if exists|k: int| 0 <= k < q.next_up().len() && (#[trigger] q.next_up()[k]).id@ == id {
        let k = choose|k: int| 0 <= k < q.next_up().len() && (#[trigger] q.next_up()[k]).id@ == id;
        lemma_next_up(q, k);
        assert(q.waiting()[k].id@ == id);
    }
}

/// No request of the user and no message makes more downloads run than the
/// limit allows.
pub proof fn law_limit_is_kept(
    q: QueueState,
    id: String,
    at: Timestamp,
    url: String,
    name: String,
    event: DownloadEvent,
)
    ensures
        within_limit(q, q.added(id, at, url, name)),
        within_limit(q, q.paused(id@)),
        within_limit(q, q.resumed(id@)),
        within_limit(q, q.cancelled(id@)),
        within_limit(q, q.removed(id@)),
        within_limit(q, q.retried(id@)),
        within_limit(q, q.heard(event)),
{
    assert(q.starts.take(q.starts.len() as int) == q.starts);
    let a = q.added(id, at, url, name);
    assert(a.starts.take(q.starts.len() as int) == q.starts);
    let r = q.resumed(id@);
    assert(r.starts.take(q.starts.len() as int) == q.starts);
    let t = q.retried(id@);
    assert(t.starts.take(q.starts.len() as int) == q.starts);
    let h = q.heard(event);
    assert(h.starts.take(q.starts.len() as int) == q.starts);
}

/// A number of messages keeps to the limit as one does.
pub proof fn law_limit_is_kept_by_all(q: QueueState, events: Seq<DownloadEvent>)
    ensures
        within_limit(q, q.heard_all(events)),
        q.heard_all(events).cfg == q.cfg,
    decreases events.len(),
{
    if events.len() > 0 {
        let m = q.heard_all(events.drop_last());
        law_limit_is_kept_by_all(q, events.drop_last());
        let last = events.last();
        let h = m.heard(last);
        assert(h.starts.take(m.starts.len() as int) == m.starts);
        assert(h.starts.take(q.starts.len() as int) == m.starts.take(q.starts.len() as int));
    } else {
        assert(q.starts.take(q.starts.len() as int) == q.starts);
    }
}

/// The end of a run frees one place, and removes what the download was told.
pub proof fn law_end_frees_a_place(
    q: QueueState,
    id: Seq<char>,
    outcome: Result<(), String>,
    at: Timestamp,
)
    requires
        q.active > 0,
    ensures
        q.ended(id, outcome, at).active == q.active - 1,
        !q.ended(id, outcome, at).handles.contains_key(id),
{
}

/// The history never grows past its limit when a download ends.
pub proof fn law_history_is_limited(
    q: QueueState,
    id: Seq<char>,
    outcome: Result<(), String>,
    at: Timestamp,
)
    requires
        q.history.len() <= HISTORY_LIMIT,
    ensures
        q.ended(id, outcome, at).history.len() <= HISTORY_LIMIT,
{
}

/// A completed download leaves the queue and stands first in the history, with
/// the time of its end; the downloads around it stay as they are.
pub proof fn law_completed_moves_to_history(q: QueueState, id: Seq<char>, at: Timestamp)
    requires
        with_id(q.items, id, 0) is Some,
    ensures
        ({
            let i = with_id(q.items, id, 0)->0;
            let e = q.ended(id, Ok(()), at);
            &&& e.items == q.items.remove(i)
            &&& e.history.len() > 0
            &&& e.history[0] == (DownloadItem {
                status: DownloadStatus::Completed,
                finished_at: Some(at),
                ..q.items[i]
            })
            &&& forall|k: int|
                0 <= k < q.history.len() && k + 1 < HISTORY_LIMIT ==> #[trigger] e.history[k + 1]
                    == q.history[k]
        }),
{
}

/// A download that does not complete stays in the queue, and the history as it
/// was.
pub proof fn law_other_ends_keep_the_item(
    q: QueueState,
    id: Seq<char>,
    msg: String,
    at: Timestamp,
)
    ensures
        q.ended(id, Err(msg), at).items == q.items,
        q.ended(id, Err(msg), at).history == q.history,
{
}

/// Every log is within its limit.
pub open spec fn logs_limited(q: QueueState) -> bool {
    forall|id: Seq<char>|
        q.logs.contains_key(id) ==> (#[trigger] q.logs[id]).len() <= LOG_LIMIT
}

/// No log grows past its limit, whatever messages come.
pub proof fn law_logs_are_limited(q: QueueState, events: Seq<DownloadEvent>)
    requires
        logs_limited(q),
    ensures
        logs_limited(q.heard_all(events)),
    decreases events.len(),
{
    if events.len() > 0 {
        let m = q.heard_all(events.drop_last());
        law_logs_are_limited(q, events.drop_last());
        let h = m.heard(events.last());
        assert forall|id: Seq<char>| h.logs.contains_key(id) implies (#[trigger] h.logs[id]).len()
            <= LOG_LIMIT by {
            if m.logs.contains_key(id) {
                assert(m.logs[id].len() <= LOG_LIMIT);
            }
        }
    }
}

/// The line logged last is kept.
pub proof fn law_last_line_is_kept(log: Seq<Seq<char>>, line: Seq<char>)
    ensures
        logged(log, line).len() > 0,
        logged(log, line).last() == line,
{
}

/// The lines that messages hold for the log of the download `id`.
pub open spec fn lines_for(events: Seq<DownloadEvent>, id: Seq<char>) -> Seq<Seq<char>>
    decreases events.len(),
{
    if events.len() == 0 {
        Seq::empty()
    } else {
        let before = lines_for(events.drop_last(), id);
        match events.last() {
            DownloadEvent::Log { id: told, msg } => if told@ == id {
                before.push(msg@)
            } else {
                before
            },
            _ => before,
        }
    }
}

/// The log of the download `id`, empty where there is none.
pub open spec fn log_of(q: QueueState, id: Seq<char>) -> Seq<Seq<char>> {
    if q.logs.contains_key(id) {
        q.logs[id]
    } else {
        Seq::empty()
    }
}

/// The last lines, as many as a log keeps.
pub open spec fn latest(lines: Seq<Seq<char>>) -> Seq<Seq<char>> {
    if lines.len() <= LOG_LIMIT {
        lines
    } else {
        lines.skip(lines.len() - LOG_LIMIT)
    }
}

/// A log is the last lines of all that it was told, in order.
pub proof fn law_log_is_the_latest_lines(
    q: QueueState,
    events: Seq<DownloadEvent>,
    id: Seq<char>,
)
    requires
        log_of(q, id).len() <= LOG_LIMIT,
    ensures
        log_of(q.heard_all(events), id) == latest(log_of(q, id) + lines_for(events, id)),
        q.heard_all(events).logs.contains_key(id) <==> q.logs.contains_key(id) || lines_for(
            events,
            id,
        ).len() > 0,
    decreases events.len(),
{
    let all = log_of(q, id) + lines_for(events, id);
    if events.len() == 0 {
        assert(all == log_of(q, id));
    } else {
        law_log_is_the_latest_lines(q, events.drop_last(), id);
        let before = log_of(q, id) + lines_for(events.drop_last(), id);
        if let DownloadEvent::Log { id: told, msg } = events.last() {
            if told@ == id {
                assert(all == before.push(msg@));
                assert(logged(latest(before), msg@) =~= latest(all));
            }
        }
    }
}

/// A change of one download's status leaves the others as they are, and of
/// that one everything but the status.
pub proof fn law_status_change_is_local(
    q: QueueState,
    id: Seq<char>,
    status: DownloadStatus,
    k: int,
)
    requires
        0 <= k < q.items.len(),
    ensures
        q.with_status(id, status).items.len() == q.items.len(),
        q.with_status(id, status).items[k] == if with_id(q.items, id, 0) == Some(k) {
            DownloadItem { status, ..q.items[k] }
        } else {
            q.items[k]
        },
        q.with_status(id, status).history == q.history,
        q.with_status(id, status).active == q.active,
        q.with_status(id, status).starts == q.starts,
{
    lemma_with_id(q.items, id, 0);
}

/// A change of status does not move a download.
proof fn lemma_same_place(q: QueueState, id: Seq<char>, status: DownloadStatus, other: Seq<char>, from: int)
    requires
        0 <= from,
    ensures
        with_id(q.with_status(id, status).items, other, from) == with_id(q.items, other, from),
    decreases q.items.len() - from,
{
    lemma_with_id(q.items, id, 0);
    if from < q.items.len() {
        lemma_same_place(q, id, status, other, from + 1);
    }
}

/// Pausing a running download and letting it go on leaves it downloading and
/// told what it was told before, its pause flag down.
pub proof fn law_resume_undoes_pause(q: QueueState, id: Seq<char>)
    requires
        q.handles.contains_key(id),
    ensures
        q.paused(id).resumed(id) == q.told(
            id,
            DownloadHandle { pause: false, ..q.handles[id] },
        ).with_status(id, DownloadStatus::Downloading),
        q.paused(id).handles[id].pause,
        !q.paused(id).resumed(id).handles[id].pause,
{
    let t = q.told(id, DownloadHandle { pause: true, ..q.handles[id] });
    lemma_same_place(t, id, DownloadStatus::Paused, id, 0);
    lemma_with_id(q.items, id, 0);
    let a = q.paused(id).resumed(id);
    let b = q.told(id, DownloadHandle { pause: false, ..q.handles[id] }).with_status(
        id,
        DownloadStatus::Downloading,
    );
    assert(a.handles =~= b.handles);
    assert(a.items =~= b.items);
}

/// Cancelling twice is cancelling once.
pub proof fn law_cancel_is_idempotent(q: QueueState, id: Seq<char>)
    ensures
        q.cancelled(id).cancelled(id) == q.cancelled(id),
{
    let c = q.cancelled(id);
    let t = q.told(id, DownloadHandle { cancel: true, ..q.handles[id] });
    lemma_same_place(t, id, DownloadStatus::Cancelled, id, 0);
    lemma_with_id(q.items, id, 0);
    assert(c.cancelled(id).handles =~= c.handles);
    assert(c.cancelled(id).items =~= c.items);
}

/// A running download that is cancelled is told so.
pub proof fn law_cancel_reaches_the_run(q: QueueState, id: Seq<char>)
    requires
        q.handles.contains_key(id),
    ensures
        q.cancelled(id).handles.contains_key(id),
        q.cancelled(id).handles[id].cancel,
        q.removed(id).handles.contains_key(id),
        q.removed(id).handles[id].cancel,
{
}

/// A removed download is gone, and every other one is still there as it was.
pub proof fn law_removed_is_gone(q: QueueState, id: Seq<char>)
    ensures
        with_id(q.removed(id).items, id, 0) is None,
        q.removed(id).items == others(q.items, id),
{
    let c = q.cancelled(id);
    lemma_with_id(q.items, id, 0);
    lemma_filter_ignores_status(q.items, c.items, id);
    let left = q.removed(id).items;
    lemma_with_id(left, id, 0);
}

/// Filtering out an identifier does not see a change to downloads that have it.
proof fn lemma_filter_ignores_status(a: Seq<DownloadItem>, b: Seq<DownloadItem>, id: Seq<char>)
    requires
        a.len() == b.len(),
        forall|k: int| 0 <= k < a.len() ==> (#[trigger] a[k]).id@ == b[k].id@,
        forall|k: int| 0 <= k < a.len() && (#[trigger] a[k]).id@ != id ==> a[k] == b[k],
    ensures
        others(a, id) == others(b, id),
        forall|k: int| 0 <= k < others(a, id).len() ==> (#[trigger] others(a, id)[k]).id@ != id,
    decreases a.len(),
{
    reveal(Seq::filter);
    if a.len() > 0 {
        assert forall|k: int| 0 <= k < a.drop_last().len() implies (#[trigger] a.drop_last()[k]).id@
            == b.drop_last()[k].id@ by {
            assert(a[k].id@ == b[k].id@);
        }
        assert forall|k: int|
            0 <= k < a.drop_last().len() && (#[trigger] a.drop_last()[k]).id@ != id implies a.drop_last()[k]
            == b.drop_last()[k] by {
            assert(a[k].id@ != id);
        }
        lemma_filter_ignores_status(a.drop_last(), b.drop_last(), id);
        assert(a[a.len() - 1].id@ == b[a.len() - 1].id@);
    }
}

/// No two downloads in the queue have the same identifier.
pub open spec fn distinct(items: Seq<DownloadItem>) -> bool {
    forall|i: int, j: int|
        0 <= i < j < items.len() ==> (#[trigger] items[i]).id@ != (#[trigger] items[j]).id@
}

/// Of distinct downloads each is found where it stands.
pub proof fn law_distinct_items_are_found(items: Seq<DownloadItem>, k: int)
    requires
        distinct(items),
        0 <= k < items.len(),
    ensures
        with_id(items, items[k].id@, 0) == Some(k),
{
    lemma_with_id(items, items[k].id@, 0);
}

/// Lists whose downloads have the same identifiers are distinct together.
proof fn lemma_same_ids(a: Seq<DownloadItem>, b: Seq<DownloadItem>)
    requires
        distinct(a),
        a.len() == b.len(),
        forall|k: int| 0 <= k < a.len() ==> (#[trigger] b[k]).id@ == a[k].id@,
    ensures
        distinct(b),
{
    assert forall|i: int, j: int| 0 <= i < j < b.len() implies (#[trigger] b[i]).id@ != (
    #[trigger] b[j]).id@ by {
        assert(a[i].id@ != a[j].id@);
    }
}

/// A download with a new identifier keeps the downloads distinct, and so does
/// every other request and message, and the end of a run.
pub proof fn law_downloads_stay_distinct(
    q: QueueState,
    id: String,
    at: Timestamp,
    url: String,
    name: String,
    event: DownloadEvent,
    outcome: Result<(), String>,
)
    requires
        distinct(q.items),
    ensures
        with_id(q.items, id@, 0) is None ==> distinct(q.added(id, at, url, name).items),
        distinct(q.paused(id@).items),
        distinct(q.resumed(id@).items),
        distinct(q.cancelled(id@).items),
        distinct(q.removed(id@).items),
        distinct(q.retried(id@).items),
        distinct(q.heard(event).items),
        distinct(q.ended(id@, outcome, at).items),
{
    lemma_with_id(q.items, id@, 0);
    if with_id(q.items, id@, 0) is None {
        let items = q.added(id, at, url, name).items;
        assert forall|i: int, j: int| 0 <= i < j < items.len() implies (#[trigger] items[i]).id@
            != (#[trigger] items[j]).id@ by {
            assert(items[i] == q.items[i]);
            if j < q.items.len() {
                assert(items[j] == q.items[j]);
            }
        }
    }
    lemma_same_ids(q.items, q.paused(id@).items);
    lemma_same_ids(q.items, q.resumed(id@).items);
    lemma_same_ids(q.items, q.cancelled(id@).items);
    lemma_same_ids(q.items, q.retried(id@).items);
    law_removed_is_gone(q, id@);
    lemma_filter_distinct(q.items, |i: DownloadItem| i.id@ != id@);
    assert forall|k: int| 0 <= k < q.items.len() implies (#[trigger] q.heard(event).items[k]).id@
        == q.items[k].id@ by {
        law_messages_keep_the_downloads(q, event, k);
    }
    if q.items.len() > 0 {
        law_messages_keep_the_downloads(q, event, 0);
    }
    lemma_same_ids(q.items, q.heard(event).items);
    let e = q.ended(id@, outcome, at).items;
    assert forall|i: int, j: int| 0 <= i < j < e.len() implies (#[trigger] e[i]).id@ != (
    #[trigger] e[j]).id@ by {
        match with_id(q.items, id@, 0) {
            Some(p) => {
                let a = if e.len() < q.items.len() && i >= p {
                    i + 1
                } else {
                    i
                };
                let b = if e.len() < q.items.len() && j >= p {
                    j + 1
                } else {
                    j
                };
                assert(e[i] == q.items[a]);
                assert(e[j] == q.items[b]);
            },
            None => {
                assert(e == q.items);
            },
        }
    }
}

/// Cancelling all leaves every download of a queue cancelled, and tells every
/// one that runs so.
pub proof fn law_cancel_all_reaches_all(q: QueueState, k: int)
    requires
        distinct(q.items),
        0 <= k < q.items.len(),
    ensures
        ({
            let c = q.cancelled_each(q.ids());
            &&& c.items.len() == q.items.len()
            &&& c.items[k] == (DownloadItem { status: DownloadStatus::Cancelled, ..q.items[k] })
            &&& q.handles.contains_key(q.items[k].id@) ==> c.handles.contains_key(q.items[k].id@)
                && c.handles[q.items[k].id@].cancel
            &&& c.active == q.active
            &&& c.history == q.history
        }),
{
    lemma_cancelled_first(q, q.items.len() as int);
    assert(q.ids().take(q.items.len() as int) == q.ids());
}

/// Cancelling the first `n` downloads of a queue of distinct ones.
proof fn lemma_cancelled_first(q: QueueState, n: int)
    requires
        distinct(q.items),
        0 <= n <= q.items.len(),
    ensures
        ({
            let c = q.cancelled_each(q.ids().take(n));
            &&& c.items.len() == q.items.len()
            &&& forall|k: int|
                0 <= k < q.items.len() ==> #[trigger] c.items[k] == if k < n {
                    DownloadItem { status: DownloadStatus::Cancelled, ..q.items[k] }
                } else {
                    q.items[k]
                }
            &&& forall|id: Seq<char>|
                q.handles.contains_key(id) == #[trigger] c.handles.contains_key(id)
            &&& forall|k: int|
                0 <= k < n && q.handles.contains_key((#[trigger] q.items[k]).id@)
                    ==> c.handles[q.items[k].id@].cancel
            &&& c.active == q.active
            &&& c.history == q.history
        }),
    decreases n,
{
    if n > 0 {
        lemma_cancelled_first(q, n - 1);
        let m = q.cancelled_each(q.ids().take(n - 1));
        assert(q.ids().take(n).drop_last() == q.ids().take(n - 1));
        let id = q.items[n - 1].id@;
        assert(q.ids().take(n).last() == id);
        let c = m.cancelled(id);
        assert(q.cancelled_each(q.ids().take(n)) == c);
        assert forall|k: int| 0 <= k < m.items.len() implies (#[trigger] m.items[k]).id@
            == q.items[k].id@ by {}
        assert(distinct(m.items)) by {
            assert forall|i: int, j: int| 0 <= i < j < m.items.len() implies (
            #[trigger] m.items[i]).id@ != (#[trigger] m.items[j]).id@ by {
                assert(q.items[i].id@ != q.items[j].id@);
            }
        }
        law_distinct_items_are_found(m.items, n - 1);
        assert(with_id(m.items, id, 0) == Some(n - 1));
        assert forall|k: int|
            0 <= k < n && q.handles.contains_key((#[trigger] q.items[k]).id@) implies c.handles[q.items[k].id@].cancel by {
            if k < n - 1 {
                assert(q.items[k].id@ != q.items[n - 1].id@);
            }
            assert(m.handles.contains_key(q.items[k].id@));
        }
    }
}

/// Cancelling the download `id` would change nothing.
pub open spec fn is_cancelled(q: QueueState, id: Seq<char>) -> bool {
    q.cancelled(id) == q
}

/// A download that is cancelled stays so when another one is.
proof fn lemma_stays_cancelled(q: QueueState, a: Seq<char>, b: Seq<char>)
    requires
        is_cancelled(q, a),
    ensures
        is_cancelled(q.cancelled(b), a),
{
    if a == b {
        law_cancel_is_idempotent(q, a);
    } else {
        let c = q.cancelled(b);
        let t = q.told(b, DownloadHandle { cancel: true, ..q.handles[b] });
        lemma_same_place(t, b, DownloadStatus::Cancelled, a, 0);
        lemma_with_id(q.items, a, 0);
        lemma_with_id(q.items, b, 0);
        if q.handles.contains_key(a) {
            assert(q.cancelled(a).handles[a].cancel);
            assert(q.handles[a].cancel);
        }
        if let Some(i) = with_id(q.items, a, 0) {
            assert(q.cancelled(a).items[i].status is Cancelled);
            assert(q.items[i].status is Cancelled);
        }
        assert(c.cancelled(a).handles =~= c.handles);
        assert(c.cancelled(a).items =~= c.items);
        assert(!q.cancelled(a).handed.contains(a));
        assert(c.cancelled(a).handed =~= c.handed);
    }
}

/// Once downloads have been cancelled one after another, each of them is.
proof fn lemma_each_is_cancelled(q: QueueState, ids: Seq<Seq<char>>, k: int)
    requires
        0 <= k < ids.len(),
    ensures
        is_cancelled(q.cancelled_each(ids), ids[k]),
    decreases ids.len(),
{
    let before = q.cancelled_each(ids.drop_last());
    if k < ids.len() - 1 {
        lemma_each_is_cancelled(q, ids.drop_last(), k);
        lemma_stays_cancelled(before, ids[k], ids.last());
    } else {
        law_cancel_is_idempotent(before, ids.last());
    }
}

/// Cancelling what is cancelled changes nothing.
proof fn lemma_nothing_to_cancel(q: QueueState, ids: Seq<Seq<char>>)
    requires
        forall|k: int| 0 <= k < ids.len() ==> is_cancelled(q, #[trigger] ids[k]),
    ensures
        q.cancelled_each(ids) == q,
    decreases ids.len(),
{
    if ids.len() > 0 {
        let front = ids.drop_last();
        assert forall|k: int| 0 <= k < front.len() implies is_cancelled(
            q,
            #[trigger] front[k],
        ) by {
            assert(is_cancelled(q, ids[k]));
        }
        lemma_nothing_to_cancel(q, front);
        assert(is_cancelled(q, ids[ids.len() - 1]));
    }
}

/// Cancelling does not change which downloads there are.
proof fn lemma_cancelling_keeps_ids(q: QueueState, ids: Seq<Seq<char>>)
    ensures
        q.cancelled_each(ids).ids() == q.ids(),
    decreases ids.len(),
{
    if ids.len() > 0 {
        let before = q.cancelled_each(ids.drop_last());
        lemma_cancelling_keeps_ids(q, ids.drop_last());
        lemma_with_id(before.items, ids.last(), 0);
        assert(before.cancelled(ids.last()).ids() =~= before.ids());
    }
}

/// Cancelling all twice is cancelling all once.
pub proof fn law_cancel_all_is_idempotent(q: QueueState)
    ensures
        ({
            let c = q.cancelled_each(q.ids());
            c.cancelled_each(c.ids()) == c
        }),
{
    let c = q.cancelled_each(q.ids());
    lemma_cancelling_keeps_ids(q, q.ids());
    assert forall|k: int| 0 <= k < c.ids().len() implies is_cancelled(
        c,
        #[trigger] c.ids()[k],
    ) by {
        lemma_each_is_cancelled(q, q.ids(), k);
    }
    lemma_nothing_to_cancel(c, c.ids());
}

/// Messages change no identifier and no address, and neither add nor drop a
/// download.
pub proof fn law_messages_keep_the_downloads(q: QueueState, event: DownloadEvent, k: int)
    requires
        0 <= k < q.items.len(),
    ensures
        q.heard(event).items.len() == q.items.len(),
        q.heard(event).items[k].id == q.items[k].id,
        q.heard(event).items[k].url == q.items[k].url,
        q.heard(event).items[k].filename == q.items[k].filename,
        q.heard(event).items[k].save_path == q.items[k].save_path,
        q.heard(event).items[k].added_at == q.items[k].added_at,
        q.heard(event).history == q.history,
{
    match event {
        DownloadEvent::Progress { id, downloaded, total, speed, eta } => {
            lemma_with_id(q.items, id@, 0);
        },
        DownloadEvent::StatusChange { id, status } => {
            lemma_with_id(q.items, id@, 0);
        },
        DownloadEvent::Log { id, msg } => {},
    }
}

/// A failure is remembered with its message, and forgotten when the download
/// is tried again.
pub proof fn law_retry_forgets_failure(q: QueueState, id: String, msg: String)
    requires
        with_id(q.items, id@, 0) is Some,
    ensures
        ({
            let i = with_id(q.items, id@, 0)->0;
            let f = q.heard(
                DownloadEvent::StatusChange { id, status: DownloadStatus::Failed(msg) },
            );
            let r = f.retried(id@);
            &&& f.items[i].error == Some(msg)
            &&& f.items[i].status == DownloadStatus::Failed(msg)
            &&& r.items[i].error is None
            &&& r.items[i].status is Queued
            &&& r.items[i].downloaded == 0
        }),
{
    lemma_with_id(q.items, id@, 0);
    let i = with_id(q.items, id@, 0)->0;
    let event = DownloadEvent::StatusChange { id, status: DownloadStatus::Failed(msg) };
    let f = q.heard(event);
    assert(forall|k: int| 0 <= k < q.items.len() ==> (#[trigger] f.items[k]).id == q.items[k].id);
    lemma_with_id(f.items, id@, 0);
    assert(with_id(f.items, id@, 0) == Some(i)) by {
        match with_id(f.items, id@, 0) {
            Some(j) => {
                assert(q.items[j].id@ == id@);
                if j > i {
                    assert(f.items[i].id@ != id@);
                }
                if j < i {
                    assert(q.items[j].id@ != id@);
                }
            },
            None => {
                assert(f.items[i].id@ != id@);
            },
        }
    }
}

/// A new download stands last in the queue, waiting, under its identifier and
/// the settings of the moment; the others stay as they are.
pub proof fn law_added_waits_last(
    q: QueueState,
    id: String,
    at: Timestamp,
    url: String,
    name: String,
)
    ensures
        ({
            let a = q.added(id, at, url, name);
            let item = a.items.last();
            &&& a.items.len() == q.items.len() + 1
            &&& a.items.drop_last() == q.items
            &&& item.id == id
            &&& item.url == url
            &&& item.filename == name
            &&& item.save_path == q.cfg.save_dir
            &&& item.status is Queued
            &&& item.segments == q.cfg.segments
            &&& item.downloaded == 0
        }),
{
    let a = q.added(id, at, url, name);
    assert(a.items.drop_last() =~= q.items);
}

/// An end that tells of cancelling ends in the status Cancelled; any other
/// failure keeps its message.
pub proof fn law_end_status(msg: String)
    ensures
        end_status(Ok(())) is Completed,
        end_status(Err(msg)) is Cancelled || end_status(Err(msg)) == DownloadStatus::Failed(msg),
        msg@ == "Cancelled"@ ==> end_status(Err(msg)) is Cancelled,
        end_status(Err(msg)).done(),
{
    if msg@ == "Cancelled"@ {
        assert(msg@.subrange(0, msg@.len() as int) == msg@);
        assert(crate::text::occurs_at(msg@, "Cancelled"@, 0));
    }
}

} // verus!
