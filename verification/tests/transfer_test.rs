use ydm::queue::final_status;
use ydm::transfer::eta;
use ydm::transfer::given_up;
use ydm::transfer::reporter_step;
use ydm::transfer::segments_outcome;
use ydm::transfer::speed_cap;
use ydm::transfer::throttle;
use ydm::transfer::Happening;
use ydm::transfer::SegmentStep;
use ydm::transfer::SegmentTransfer;
use ydm::transfer::Step;
use ydm::transfer::StreamTransfer;
use ydm::types::DownloadEvent;
use ydm::types::DownloadStatus;

fn report(downloaded: u64, total: u64, speed: u64, eta: u64) -> DownloadEvent {
    DownloadEvent::Progress { id: "i".to_string(), downloaded, total, speed, eta }
}

#[test]
fn caps() {
    assert_eq!(speed_cap(0), 0);
    assert_eq!(speed_cap(3), 3072);
}

#[test]
fn etas() {
    assert_eq!(eta(1000, 400, 100), 6);
    assert_eq!(eta(1000, 401, 100), 5);
    assert_eq!(eta(1000, 1000, 100), 0);
    assert_eq!(eta(1000, 2000, 100), 0);
    assert_eq!(eta(1000, 0, 0), 0);
}

#[test]
fn throttling_keeps_the_limit() {
    assert_eq!(throttle(2048, 1024), 2000);
    assert_eq!(throttle(1, 1024), 0);
    assert_eq!(throttle(2048, 0), 0);
}

#[test]
fn a_stream_from_beginning_to_end() {
    let mut t = StreamTransfer::begin("i", Some("100"));
    assert_eq!((t.total, t.downloaded, t.unreported), (100, 0, 0));
    assert_eq!(t.step(Happening::Chunk { cancelled: false }), Step::LookAtPause);
    assert_eq!(t.step(Happening::PauseFlag { paused: true }), Step::WaitPaused { ms: 200 });
    assert_eq!(t.step(Happening::PauseFlag { paused: false }), Step::Write);
    assert_eq!(t.step(Happening::Written { len: 40, cap: 20 }), Step::Sleep { ms: 2000 });
    assert_eq!(t.step(Happening::Slept), Step::LookAtClock);
    assert_eq!(
        t.step(Happening::Clock { elapsed_ms: 250, speed: 20 }),
        Step::Report { event: report(40, 100, 20, 3) }
    );
    assert_eq!((t.downloaded, t.unreported), (40, 0));
    assert_eq!(t.step(Happening::Written { len: 60, cap: 0 }), Step::LookAtClock);
    assert_eq!(t.step(Happening::Clock { elapsed_ms: 249, speed: 9 }), Step::NextChunk);
    assert_eq!(t.unreported, 60);
    assert_eq!(t.step(Happening::End), Step::Finish { event: report(100, 100, 0, 0) });
}

#[test]
fn a_cancelled_stream_gives_up() {
    let mut t = StreamTransfer::begin("i", None);
    assert_eq!(t.total, 0);
    assert_eq!(t.step(Happening::Chunk { cancelled: true }), Step::GiveUp);
    assert_eq!(given_up(), Err("Cancelled".to_string()));
    assert_eq!(final_status(given_up()), DownloadStatus::Cancelled);
}

#[test]
fn a_segment_counts_what_is_written() {
    let mut t = SegmentTransfer::begin();
    assert_eq!(t.step(Happening::Chunk { cancelled: true }), SegmentStep::GiveUp);
    assert_eq!(t.step(Happening::Chunk { cancelled: false }), SegmentStep::LookAtPause);
    assert_eq!(t.step(Happening::PauseFlag { paused: true }), SegmentStep::WaitPaused { ms: 200 });
    assert_eq!(t.step(Happening::PauseFlag { paused: false }), SegmentStep::Write);
    assert_eq!(
        t.step(Happening::Written { len: 5, cap: 0 }),
        SegmentStep::CountAndLookAtClock { count: 5 }
    );
    assert_eq!(t.step(Happening::Clock { elapsed_ms: 10, speed: 0 }), SegmentStep::NextChunk);
    assert_eq!(
        t.step(Happening::Written { len: 7, cap: 7 }),
        SegmentStep::CountAndSleep { count: 7, ms: 1000 }
    );
    assert_eq!(t.step(Happening::Slept), SegmentStep::LookAtClock);
    assert_eq!(
        t.step(Happening::Clock { elapsed_ms: 250, speed: 0 }),
        SegmentStep::Sample { bytes: 12 }
    );
    assert_eq!(t.unsampled, 0);
    assert_eq!(t.step(Happening::End), SegmentStep::Finish);
}

#[test]
fn the_reporter_multiplies_samples() {
    let s = reporter_step("i", false, 500, 25, 1000);
    assert_eq!(s.event, Some(report(500, 1000, 100, 5)));
    assert!(!s.stop);
    let s = reporter_step("i", false, 1000, 0, 1000);
    assert_eq!(s.event, Some(report(1000, 1000, 0, 0)));
    assert!(s.stop);
    let s = reporter_step("i", true, 500, 25, 1000);
    assert_eq!(s.event, None);
    assert!(s.stop);
}

#[test]
fn outcomes_of_segments() {
    assert_eq!(segments_outcome(vec![Ok(()), Ok(())], false), Ok(()));
    assert_eq!(segments_outcome(vec![Ok(())], true), Err("Cancelled".to_string()));
    assert_eq!(
        segments_outcome(vec![Ok(()), Err("a".to_string()), Err("b".to_string())], true),
        Err("a".to_string())
    );
}
