use ydm::platform::Timestamp;
use ydm::queue::final_status;
use ydm::queue::DownloadHandle;
use ydm::queue::QueueManager;
use ydm::types::Config;
use ydm::types::DownloadEvent;
use ydm::types::DownloadItem;
use ydm::types::DownloadStatus;

fn config(max_concurrent: usize) -> Config {
    let mut cfg = Config::first(Some("/tmp/d".to_string()), "token".to_string());
    cfg.max_concurrent = max_concurrent;
    cfg
}

fn empty(max_concurrent: usize) -> QueueManager {
    QueueManager::new(config(max_concurrent), Vec::new())
}

fn at() -> Timestamp {
    Timestamp { secs: 1_700_000_000, nanos: 5 }
}

fn put(q: &mut QueueManager, id: &str) {
    q.add_identified(id.to_string(), at(), format!("http://h/{}.zip", id), format!("{}.zip", id));
}

/// A queue with downloads that wait and none of which runs.
fn waiting(ids: &[&str]) -> QueueManager {
    let mut q = empty(0);
    for id in ids {
        put(&mut q, id);
    }
    q
}

fn status(q: &QueueManager, id: &str) -> DownloadStatus {
    for i in 0..q.items.len() {
        if q.items[i].id == id {
            return q.items[i].status.clone();
        }
    }
    panic!("no such download")
}

fn change(id: &str, status: DownloadStatus) -> DownloadEvent {
    DownloadEvent::StatusChange { id: id.to_string(), status }
}

#[test]
fn a_new_queue_is_empty() {
    let q = empty(3);
    assert_eq!(q.items.len(), 0);
    assert_eq!(q.history.len(), 0);
    assert_eq!(q.active_count, 0);
    assert_eq!(q.starts.len(), 0);
    assert_eq!(q.cfg.max_concurrent, 3);
}

#[test]
fn add_takes_the_settings() {
    let mut q = empty(1);
    q.cfg.segments = 5;
    q.cfg.speed_limit_kbps = 64;
    let id = q.add("http://h/x%20y.mp3?z".to_string(), None, Some("http://r".to_string()));
    assert_eq!(id.len(), 36);
    let item = &q.items[0];
    assert_eq!(item.id, id);
    assert_eq!(item.filename, "x y.mp3");
    assert_eq!(item.save_path, "/tmp/d");
    assert_eq!(item.segments, 5);
    assert_eq!(item.format, Some("bestvideo+bestaudio/best".to_string()));
    assert!(!item.is_ytdlp);
    assert_eq!(q.active_count, 1);
    let starts = q.take_starts();
    assert_eq!(starts.len(), 1);
    assert_eq!(starts[0].item.id, id);
    assert_eq!(starts[0].speed_limit_kbps, 64);
    assert_eq!(q.take_starts().len(), 0);
    assert_eq!(q.handle(&id), Some(DownloadHandle { cancel: false, pause: false }));
}

#[test]
fn add_keeps_a_given_name_and_sees_platforms() {
    let mut q = empty(1);
    q.add("https://YouTube.com/watch?v=1".to_string(), Some("clip".to_string()), None);
    assert_eq!(q.items[0].filename, "clip");
    assert!(q.items[0].is_ytdlp);
}

#[test]
fn starting_keeps_the_limit() {
    let mut q = waiting(&["a", "b", "c"]);
    q.set_config(config(2));
    q.try_start_next();
    assert_eq!(q.active_count, 2);
    q.try_start_next();
    assert_eq!(q.active_count, 2);
}

#[test]
fn waiting_downloads_start_in_order_and_once() {
    let mut q = waiting(&["a", "b", "c"]);
    q.set_config(config(2));
    q.try_start_next();
    let ids: Vec<String> = q.take_starts().into_iter().map(|s| s.item.id).collect();
    assert_eq!(ids, vec!["a", "b"]);
    assert_eq!(status(&q, "a"), DownloadStatus::Queued);
    assert_eq!(q.active_count, 2);
    assert_eq!(q.handle("b"), Some(DownloadHandle { cancel: false, pause: false }));
    assert_eq!(q.handle("c"), None);
}

#[test]
fn a_run_is_not_started_again() {
    let mut q = empty(3);
    put(&mut q, "a");
    q.try_start_next();
    q.process_event(change("nobody", DownloadStatus::Downloading));
    assert_eq!(q.take_starts().len(), 1);
    assert_eq!(q.active_count, 1);
    // A failed download that is tried again starts once its run has ended.
    q.process_event(change("a", DownloadStatus::Failed("x".to_string())));
    q.finish_at("a", Err("x".to_string()), at());
    q.retry("a");
    assert_eq!(q.take_starts().len(), 1);
}

#[test]
fn a_retry_starts_even_while_the_last_run_is_under_way() {
    let mut q = empty(2);
    put(&mut q, "a");
    assert_eq!(q.take_starts().len(), 1);
    q.cancel("a");
    q.retry("a");
    let ids: Vec<String> = q.take_starts().into_iter().map(|s| s.item.id).collect();
    assert_eq!(ids, vec!["a"]);
    assert_eq!(status(&q, "a"), DownloadStatus::Queued);
    assert_eq!(q.active_count, 2);
    assert_eq!(q.handle("a"), Some(DownloadHandle { cancel: false, pause: false }));
    // It is not started a third time.
    q.set_config(config(4));
    q.try_start_next();
    assert_eq!(q.take_starts().len(), 0);
}

#[test]
fn a_retry_without_room_waits_and_keeps_the_last_run() {
    let mut q = empty(1);
    put(&mut q, "a");
    q.take_starts();
    q.retry("a");
    assert_eq!(q.take_starts().len(), 0);
    assert_eq!(status(&q, "a"), DownloadStatus::Queued);
    q.cancel("a");
    assert_eq!(q.handle("a"), Some(DownloadHandle { cancel: true, pause: false }));
}

#[test]
fn an_end_does_not_start_a_download_again_before_it_is_heard() {
    let mut q = empty(1);
    put(&mut q, "a");
    q.take_starts();
    let end = q.finish_at("a", Err("x".to_string()), at());
    q.try_start_next();
    assert_eq!(q.take_starts().len(), 0);
    q.process_event(end.event);
    q.retry("a");
    assert_eq!(q.take_starts().len(), 1);
}

#[test]
fn starting_leaves_runs_alone() {
    let mut q = empty(2);
    put(&mut q, "a");
    q.pause("a");
    put(&mut q, "b");
    assert_eq!(q.handle("a"), Some(DownloadHandle { cancel: false, pause: true }));
    assert_eq!(q.active_count, 2);
}

#[test]
fn a_freed_place_goes_to_the_next() {
    let mut q = empty(1);
    put(&mut q, "a");
    put(&mut q, "b");
    assert_eq!(q.take_starts().len(), 1);
    let end = q.finish_at("a", Ok(()), at());
    q.process_event(end.event);
    let ids: Vec<String> = q.take_starts().into_iter().map(|s| s.item.id).collect();
    assert_eq!(ids, vec!["b"]);
}

#[test]
fn first_come_first_served() {
    let mut q = waiting(&["a", "b"]);
    q.process_event(change("a", DownloadStatus::Paused));
    q.set_config(config(1));
    q.try_start_next();
    assert_eq!(q.take_starts()[0].item.id, "b");
}

#[test]
fn nothing_starts_where_nothing_waits() {
    let mut q = waiting(&["a"]);
    q.cancel("a");
    q.set_config(config(4));
    q.try_start_next();
    assert_eq!(q.active_count, 0);
    assert_eq!(q.starts.len(), 0);
}

#[test]
fn pause_and_resume_a_run() {
    let mut q = empty(1);
    put(&mut q, "a");
    q.pause("a");
    assert_eq!(status(&q, "a"), DownloadStatus::Paused);
    assert_eq!(q.handle("a"), Some(DownloadHandle { cancel: false, pause: true }));
    q.resume("a");
    assert_eq!(status(&q, "a"), DownloadStatus::Downloading);
    assert_eq!(q.handle("a"), Some(DownloadHandle { cancel: false, pause: false }));
}

#[test]
fn resume_without_a_run_queues_again() {
    let mut q = waiting(&["a"]);
    q.pause("a");
    assert_eq!(q.handle("a"), None);
    q.set_config(config(1));
    q.resume("a");
    assert_eq!(status(&q, "a"), DownloadStatus::Queued);
    assert_eq!(q.take_starts()[0].item.id, "a");
}

#[test]
fn cancel_reaches_the_run_and_is_idempotent() {
    let mut q = empty(1);
    put(&mut q, "a");
    put(&mut q, "b");
    q.cancel("a");
    q.cancel("a");
    assert_eq!(status(&q, "a"), DownloadStatus::Cancelled);
    assert_eq!(status(&q, "b"), DownloadStatus::Queued);
    assert_eq!(q.handle("a"), Some(DownloadHandle { cancel: true, pause: false }));
    q.cancel("nobody");
    assert_eq!(q.items.len(), 2);
}

#[test]
fn removed_is_gone() {
    let mut q = empty(1);
    put(&mut q, "a");
    put(&mut q, "b");
    q.remove("a");
    assert_eq!(q.items.len(), 1);
    assert_eq!(q.items[0].id, "b");
    assert_eq!(q.handle("a"), Some(DownloadHandle { cancel: true, pause: false }));
}

#[test]
fn retry_forgets_the_failure() {
    let mut q = waiting(&["a"]);
    q.process_event(DownloadEvent::Progress {
        id: "a".to_string(),
        downloaded: 7,
        total: 9,
        speed: 3,
        eta: 1,
    });
    q.process_event(change("a", DownloadStatus::Failed("broken".to_string())));
    assert_eq!(q.items[0].error, Some("broken".to_string()));
    q.set_config(config(1));
    q.retry("a");
    assert_eq!(status(&q, "a"), DownloadStatus::Queued);
    assert_eq!(q.items[0].downloaded, 0);
    assert_eq!(q.items[0].total_bytes, 9);
    assert_eq!(q.items[0].error, None);
    assert_eq!(q.take_starts().len(), 1);
    q.retry("nobody");
    assert_eq!(q.take_starts().len(), 0);
}

#[test]
fn cancel_all_reaches_all() {
    let mut q = waiting(&["a", "b", "c"]);
    q.cancel_all();
    for id in ["a", "b", "c"] {
        assert_eq!(status(&q, id), DownloadStatus::Cancelled);
    }
}

#[test]
fn cancel_all_is_idempotent() {
    let mut q = empty(1);
    put(&mut q, "a");
    put(&mut q, "b");
    q.cancel_all();
    let items: Vec<DownloadItem> = q.items.iter().map(|i| i.clone()).collect();
    q.cancel_all();
    assert_eq!(q.items, items);
    assert_eq!(q.handle("a"), Some(DownloadHandle { cancel: true, pause: false }));
}

#[test]
fn progress_is_heard() {
    let mut q = waiting(&["a", "b"]);
    q.process_events(vec![DownloadEvent::Progress {
        id: "b".to_string(),
        downloaded: 7,
        total: 9,
        speed: 3,
        eta: 1,
    }]);
    let b = &q.items[1];
    assert_eq!((b.downloaded, b.total_bytes, b.speed_bps, b.eta_secs), (7, 9, 3, 1));
    assert_eq!(q.items[0].downloaded, 0);
}

#[test]
fn a_status_change_starts_what_waits() {
    let mut q = waiting(&["a", "b"]);
    q.set_config(config(1));
    q.process_event(change("a", DownloadStatus::Downloading));
    assert_eq!(status(&q, "a"), DownloadStatus::Downloading);
    assert_eq!(q.take_starts()[0].item.id, "b");
}

#[test]
fn logs_are_limited_and_keep_the_last_line() {
    let mut q = empty(0);
    for i in 0..502 {
        q.process_event(DownloadEvent::Log { id: "a".to_string(), msg: format!("line {}", i) });
    }
    q.process_event(DownloadEvent::Log { id: "b".to_string(), msg: "other".to_string() });
    let lines = q.log("a").unwrap();
    assert_eq!(lines.len(), 500);
    assert_eq!(lines[0], "line 2");
    assert_eq!(lines[499], "line 501");
    assert_eq!(q.log("b").unwrap().len(), 1);
    assert!(q.log("c").is_none());
}

#[test]
fn completed_moves_to_history_and_frees_a_place() {
    let mut q = empty(1);
    put(&mut q, "a");
    let end = q.finish("a", Ok(()));
    assert!(end.save_history);
    assert_eq!(end.event, change("a", DownloadStatus::Completed));
    assert_eq!(q.items.len(), 0);
    assert_eq!(q.active_count, 0);
    assert_eq!(q.handle("a"), None);
    assert_eq!(q.history[0].id, "a");
    assert_eq!(q.history[0].status, DownloadStatus::Completed);
    assert!(q.history[0].finished_at.unwrap().secs > 1_600_000_000);
}

#[test]
fn newest_history_first_within_its_limit() {
    let mut q = empty(0);
    put(&mut q, "old");
    q.finish_at("old", Ok(()), at());
    for i in 0..500 {
        let id = format!("n{}", i);
        put(&mut q, &id);
        q.finish_at(&id, Ok(()), at());
    }
    assert_eq!(q.history.len(), 500);
    assert_eq!(q.history[0].id, "n499");
    assert_eq!(q.history[499].id, "n0");
    assert_eq!(q.history[0].finished_at, Some(at()));
}

#[test]
fn other_ends_keep_the_item() {
    let mut q = empty(1);
    put(&mut q, "a");
    let end = q.finish("a", Err("no route".to_string()));
    assert!(!end.save_history);
    assert_eq!(end.event, change("a", DownloadStatus::Failed("no route".to_string())));
    assert_eq!(q.items.len(), 1);
    assert_eq!(q.history.len(), 0);
    assert_eq!(q.active_count, 0);
}

#[test]
fn the_end_of_a_removed_download_saves_nothing() {
    let mut q = empty(1);
    put(&mut q, "a");
    q.remove("a");
    let end = q.finish("a", Ok(()));
    assert!(!end.save_history);
    assert_eq!(q.history.len(), 0);
}

#[test]
fn end_statuses() {
    assert_eq!(final_status(Ok(())), DownloadStatus::Completed);
    assert_eq!(final_status(Err("Cancelled".to_string())), DownloadStatus::Cancelled);
    assert_eq!(final_status(Err("run: Cancelled!".to_string())), DownloadStatus::Cancelled);
    assert_eq!(
        final_status(Err("cancelled".to_string())),
        DownloadStatus::Failed("cancelled".to_string())
    );
}

#[test]
fn the_history_given_is_kept() {
    let mut old = DownloadItem::new("u".to_string(), "f".to_string(), "s".to_string());
    old.status = DownloadStatus::Completed;
    let id = old.id.clone();
    let q = QueueManager::new(config(1), vec![old]);
    assert_eq!(q.history[0].id, id);
}

#[test]
fn downloads_stay_distinct() {
    let mut q = waiting(&["a", "b", "c"]);
    q.pause("a");
    q.resume("a");
    q.process_event(change("c", DownloadStatus::Downloading));
    q.finish_at("b", Ok(()), at());
    put(&mut q, "d");
    let ids: Vec<String> = (0..q.items.len()).map(|i| q.items[i].id.clone()).collect();
    assert_eq!(ids, vec!["a", "c", "d"]);
}
