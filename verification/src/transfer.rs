//! What to do with the chunks of a file as they arrive.
//!
//! A transfer is driven step by step: the driver says what has happened, and
//! is told what to do next. For each chunk it is told to look at the pause flag
//! until that is down, to write the chunk, to sleep as long as the speed limit
//! asks, and to look at the clock for the next report.

use crate::downloader::header_number;
use crate::downloader::parse_header_number;
use crate::downloader::PAUSE_POLL_MS;
use crate::downloader::REPORT_MS;
use crate::queue::end_status;
use crate::queue_laws::law_end_status;
use crate::types::DownloadEvent;
use vstd::prelude::*;

verus! {

/// Bytes per second from kilobytes per second; 0 stands for no limit.
pub fn speed_cap(kbps: u64) -> (r: u64)
    requires
        kbps * 1024 <= u64::MAX,
    ensures
        r == kbps * 1024,
{
    kbps * 1024
}

/// The seconds left at the given speed; 0 where they are not known.
pub open spec fn eta_secs(total: u64, downloaded: u64, speed: u64) -> u64 {
    if speed > 0 && total > downloaded {
        ((total - downloaded) as u64 / speed) as u64
    } else {
        0
    }
}

/// The seconds left at the given speed.
pub fn eta(total: u64, downloaded: u64, speed: u64) -> (r: u64)
    ensures
        r == eta_secs(total, downloaded, speed),
{
    if speed > 0 && total > downloaded {
        (total - downloaded) / speed
    } else {
        0
    }
}

/// The milliseconds to sleep after `len` bytes under a limit of `cap` bytes
/// per second.
pub open spec fn throttle_ms(len: int, cap: int) -> int {
    if cap > 0 {
        (len * 1000) / cap
    } else {
        0
    }
}

/// The milliseconds to sleep after `len` bytes.
pub fn throttle(len: u64, cap: u64) -> (r: u64)
    requires
        len * 1000 <= u64::MAX,
    ensures
        r == throttle_ms(len as int, cap as int),
{
    if cap > 0 {
        (len * 1000) / cap
    } else {
        0
    }
}

/// The sleep after a chunk is the longest in which the limit lets no more
/// through than the chunk: a millisecond more would be too long.
pub proof fn law_throttle_keeps_the_limit(len: int, cap: int)
    requires
        0 <= len,
        0 < cap,
    ensures
        throttle_ms(len, cap) * cap <= len * 1000 < (throttle_ms(len, cap) + 1) * cap,
{
    let ms = throttle_ms(len, cap);
    let x = len * 1000;
    assert(ms * cap <= x < (ms + 1) * cap) by (nonlinear_arith)
        requires
            ms == x / cap,
            0 < cap,
            0 <= x,
    ;
}

/// What has happened in a transfer.
#[derive(Clone, Copy, Debug, PartialEq, Eq, Structural)]
pub enum Happening {
    /// A chunk has arrived; the cancel flag stood so.
    Chunk { cancelled: bool },
    /// The pause flag stands so.
    PauseFlag { paused: bool },
    /// The chunk of `len` bytes is written; the limit is `cap` bytes per
    /// second, or none where it is 0.
    Written { len: u64, cap: u64 },
    /// The sleep that the limit asked for is over.
    Slept,
    /// So many milliseconds have passed since the last report, at so many
    /// bytes per second.
    Clock { elapsed_ms: u64, speed: u64 },
    /// The stream has ended.
    End,
}

/// What to do next in a transfer.
#[derive(Debug, PartialEq, Eq)]
pub enum Step {
    /// Wait for the next chunk.
    NextChunk,
    /// Look at the pause flag.
    LookAtPause,
    /// Sleep so many milliseconds, then look at the pause flag again.
    WaitPaused { ms: u64 },
    /// Write the chunk.
    Write,
    /// Sleep so many milliseconds for the sake of the limit.
    Sleep { ms: u64 },
    /// Look at the clock.
    LookAtClock,
    /// Send the report, then wait for the next chunk.
    Report { event: DownloadEvent },
    /// Write out what is buffered and send the report: the transfer is over.
    Finish { event: DownloadEvent },
    /// Give up: the download is cancelled, and its run ends with `given_up`.
    GiveUp,
}

/// What a run ends with that has given up because it was cancelled. The queue
/// takes it for cancelled, not for failed.
pub fn given_up() -> (r: Result<(), String>)
    ensures
        r matches Err(msg) && msg@ == "Cancelled"@,
        end_status(r) is Cancelled,
{
    let msg = "Cancelled".to_string();
    proof {
        law_end_status(msg);
    }
    Err(msg)
}

/// A download in one stream.
#[derive(Debug, PartialEq, Eq)]
pub struct StreamTransfer {
    pub id: String,
    pub total: u64,
    pub downloaded: u64,
    /// Bytes since the last report.
    pub unreported: u64,
}

/// A report on a download.
pub open spec fn is_report(
    event: DownloadEvent,
    id: Seq<char>,
    downloaded: u64,
    total: u64,
    speed: u64,
    eta: u64,
) -> bool {
    event matches DownloadEvent::Progress { id: told, downloaded: d, total: t, speed: s, eta: e }
        && told@ == id && d == downloaded && t == total && s == speed && e == eta
}

impl StreamTransfer {
    /// The numbers leave room for what has happened.
    pub open spec fn fits(self, h: Happening) -> bool {
        h matches Happening::Written { len, cap } ==> self.downloaded + len <= u64::MAX
            && self.unreported + len <= u64::MAX && len * 1000 <= u64::MAX
    }

    /// The transfer after `h`.
    pub open spec fn after(self, h: Happening) -> StreamTransfer {
        match h {
            Happening::Written { len, cap } => StreamTransfer {
                downloaded: (self.downloaded + len) as u64,
                unreported: (self.unreported + len) as u64,
                ..self
            },
            Happening::Clock { elapsed_ms, speed } => if elapsed_ms >= REPORT_MS {
                StreamTransfer { unreported: 0, ..self }
            } else {
                self
            },
            _ => self,
        }
    }

    /// `step` is what to do next after `h`.
    pub open spec fn calls_for(self, h: Happening, step: Step) -> bool {
        match h {
            Happening::Chunk { cancelled } => step == if cancelled {
                Step::GiveUp
            } else {
                Step::LookAtPause
            },
            Happening::PauseFlag { paused } => step == if paused {
                Step::WaitPaused { ms: PAUSE_POLL_MS }
            } else {
                Step::Write
            },
            Happening::Written { len, cap } => {
                let ms = throttle_ms(len as int, cap as int);
                step == if ms > 0 {
                    Step::Sleep { ms: ms as u64 }
                } else {
                    Step::LookAtClock
                }
            },
            Happening::Slept => step == Step::LookAtClock,
            Happening::Clock { elapsed_ms, speed } => if elapsed_ms >= REPORT_MS {
                step matches Step::Report { event } && is_report(
                    event,
                    self.id@,
                    self.downloaded,
                    self.total,
                    speed,
                    eta_secs(self.total, self.downloaded, speed),
                )
            } else {
                step == Step::NextChunk
            },
            Happening::End => step matches Step::Finish { event } && is_report(
                event,
                self.id@,
                self.downloaded,
                self.total,
                0,
                0,
            ),
        }
    }

    /// A transfer that begins, of a file whose length the server may have
    /// told in a header.
    pub fn begin(id: &str, content_length: Option<&str>) -> (r: Self)
        ensures
            r.id@ == id@,
            r.total == match header_number(content_length) {
                Some(v) => v,
                None => 0,
            },
            r.downloaded == 0,
            r.unreported == 0,
    {
        let total: u64 = match parse_header_number(content_length) {
            Some(v) => v,
            None => 0,
        };
        StreamTransfer { id: id.to_string(), total, downloaded: 0, unreported: 0 }
    }

    /// Takes note of what has happened and says what to do next.
    pub fn step(&mut self, h: Happening) -> (r: Step)
        requires
            old(self).fits(h),
        ensures
            *final(self) == old(self).after(h),
            old(self).calls_for(h, r),
    {
        match h {
            Happening::Chunk { cancelled } => if cancelled {
                Step::GiveUp
            } else {
                Step::LookAtPause
            },
            Happening::PauseFlag { paused } => if paused {
                Step::WaitPaused { ms: PAUSE_POLL_MS }
            } else {
                Step::Write
            },
            Happening::Written { len, cap } => {
                self.downloaded += len;
                self.unreported += len;
                let ms = throttle(len, cap);
                if ms > 0 {
                    Step::Sleep { ms }
                } else {
                    Step::LookAtClock
                }
            },
            Happening::Slept => Step::LookAtClock,
            Happening::Clock { elapsed_ms, speed } => if elapsed_ms >= REPORT_MS {
                self.unreported = 0;
                Step::Report {
                    event: DownloadEvent::Progress {
                        id: self.id.clone(),
                        downloaded: self.downloaded,
                        total: self.total,
                        speed,
                        eta: eta(self.total, self.downloaded, speed),
                    },
                }
            } else {
                Step::NextChunk
            },
            Happening::End => Step::Finish {
                event: DownloadEvent::Progress {
                    id: self.id.clone(),
                    downloaded: self.downloaded,
                    total: self.total,
                    speed: 0,
                    eta: 0,
                },
            },
        }
    }

    /// The transfer after a number of happenings.
    pub open spec fn after_all(self, hs: Seq<Happening>) -> StreamTransfer
        decreases hs.len(),
    {
        if hs.len() == 0 {
            self
        } else {
            self.after_all(hs.drop_last()).after(hs.last())
        }
    }
}

/// The bytes written in a number of happenings.
pub open spec fn bytes_written(hs: Seq<Happening>) -> int
    decreases hs.len(),
{
    if hs.len() == 0 {
        0
    } else {
        bytes_written(hs.drop_last()) + match hs.last() {
            Happening::Written { len, cap } => len as int,
            _ => 0,
        }
    }
}

/// The bytes of a stream that count as arrived are those that were written.
pub proof fn law_stream_counts_what_is_written(t: StreamTransfer, hs: Seq<Happening>)
    requires
        t.downloaded + bytes_written(hs) <= u64::MAX,
    ensures
        t.after_all(hs).downloaded == t.downloaded + bytes_written(hs),
        t.after_all(hs).total == t.total,
        t.after_all(hs).id == t.id,
        0 <= bytes_written(hs),
    decreases hs.len(),
{
    if hs.len() > 0 {
        lemma_written_not_negative(hs.drop_last());
        law_stream_counts_what_is_written(t, hs.drop_last());
    }
}

/// No number of happenings writes less than nothing.
proof fn lemma_written_not_negative(hs: Seq<Happening>)
    ensures
        0 <= bytes_written(hs),
    decreases hs.len(),
{
    if hs.len() > 0 {
        lemma_written_not_negative(hs.drop_last());
    }
}

/// Nothing is written of a chunk that arrives after the download has been
/// cancelled, nor while it is paused.
pub proof fn law_no_write_when_cancelled_or_paused(t: StreamTransfer, h: Happening, step: Step)
    requires
        t.calls_for(h, step),
        step == Step::Write,
    ensures
        h == (Happening::PauseFlag { paused: false }),
{
}

/// Two reports on a stream are never less than the reporting time apart.
pub proof fn law_reports_are_spaced(t: StreamTransfer, h: Happening, step: Step)
    requires
        t.calls_for(h, step),
        step is Report,
    ensures
        h matches Happening::Clock { elapsed_ms, speed } && elapsed_ms >= REPORT_MS,
{
}

// ---------------------------------------------------------------------------
// One segment
// ---------------------------------------------------------------------------

/// What to do next in the transfer of a segment.
#[derive(Clone, Copy, Debug, PartialEq, Eq, Structural)]
pub enum SegmentStep {
    /// Wait for the next chunk.
    NextChunk,
    /// Look at the pause flag.
    LookAtPause,
    /// Sleep so many milliseconds, then look at the pause flag again.
    WaitPaused { ms: u64 },
    /// Write the chunk.
    Write,
    /// Count so many bytes as arrived, and sleep so many milliseconds.
    CountAndSleep { count: u64, ms: u64 },
    /// Count so many bytes as arrived, and look at the clock.
    CountAndLookAtClock { count: u64 },
    /// Look at the clock.
    LookAtClock,
    /// Count so many bytes towards the speed, then wait for the next chunk.
    Sample { bytes: u64 },
    /// Write out what is buffered: the segment is there.
    Finish,
    /// Write out what is buffered and give up: the download is cancelled, and
    /// the run ends with `given_up`.
    GiveUp,
}

/// The transfer of one segment.
#[derive(Clone, Copy, Debug, PartialEq, Eq, Structural)]
pub struct SegmentTransfer {
    /// Bytes since the last sample.
    pub unsampled: u64,
}

impl SegmentTransfer {
    /// The numbers leave room for what has happened.
    pub open spec fn fits(self, h: Happening) -> bool {
        h matches Happening::Written { len, cap } ==> self.unsampled + len <= u64::MAX && len * 1000
            <= u64::MAX
    }

    /// The transfer after `h`.
    pub open spec fn after(self, h: Happening) -> SegmentTransfer {
        match h {
            Happening::Written { len, cap } => SegmentTransfer {
                unsampled: (self.unsampled + len) as u64,
            },
            Happening::Clock { elapsed_ms, speed } => if elapsed_ms >= REPORT_MS {
                SegmentTransfer { unsampled: 0 }
            } else {
                self
            },
            _ => self,
        }
    }

    /// What to do next after `h`.
    pub open spec fn next(self, h: Happening) -> SegmentStep {
        match h {
            Happening::Chunk { cancelled } => if cancelled {
                SegmentStep::GiveUp
            } else {
                SegmentStep::LookAtPause
            },
            Happening::PauseFlag { paused } => if paused {
                SegmentStep::WaitPaused { ms: PAUSE_POLL_MS }
            } else {
                SegmentStep::Write
            },
            Happening::Written { len, cap } => {
                let ms = throttle_ms(len as int, cap as int);
                if ms > 0 {
                    SegmentStep::CountAndSleep { count: len, ms: ms as u64 }
                } else {
                    SegmentStep::CountAndLookAtClock { count: len }
                }
            },
            Happening::Slept => SegmentStep::LookAtClock,
            Happening::Clock { elapsed_ms, speed } => if elapsed_ms >= REPORT_MS {
                SegmentStep::Sample { bytes: self.unsampled }
            } else {
                SegmentStep::NextChunk
            },
            Happening::End => SegmentStep::Finish,
        }
    }

    /// A transfer that begins.
    pub fn begin() -> (r: Self)
        ensures
            r.unsampled == 0,
    {
        SegmentTransfer { unsampled: 0 }
    }

    /// Takes note of what has happened and says what to do next.
    pub fn step(&mut self, h: Happening) -> (r: SegmentStep)
        requires
            old(self).fits(h),
        ensures
            *final(self) == old(self).after(h),
            r == old(self).next(h),
    {
        match h {
            Happening::Chunk { cancelled } => if cancelled {
                SegmentStep::GiveUp
            } else {
                SegmentStep::LookAtPause
            },
            Happening::PauseFlag { paused } => if paused {
                SegmentStep::WaitPaused { ms: PAUSE_POLL_MS }
            } else {
                SegmentStep::Write
            },
            Happening::Written { len, cap } => {
                self.unsampled += len;
                let ms = throttle(len, cap);
                if ms > 0 {
                    SegmentStep::CountAndSleep { count: len, ms }
                } else {
                    SegmentStep::CountAndLookAtClock { count: len }
                }
            },
            Happening::Slept => SegmentStep::LookAtClock,
            Happening::Clock { elapsed_ms, speed } => if elapsed_ms >= REPORT_MS {
                let bytes = self.unsampled;
                self.unsampled = 0;
                SegmentStep::Sample { bytes }
            } else {
                SegmentStep::NextChunk
            },
            Happening::End => SegmentStep::Finish,
        }
    }

    /// The transfer after a number of happenings.
    pub open spec fn after_all(self, hs: Seq<Happening>) -> SegmentTransfer
        decreases hs.len(),
    {
        if hs.len() == 0 {
            self
        } else {
            self.after_all(hs.drop_last()).after(hs.last())
        }
    }

    /// The bytes counted as arrived in a number of happenings.
    pub open spec fn counted(self, hs: Seq<Happening>) -> int
        decreases hs.len(),
    {
        if hs.len() == 0 {
            0
        } else {
            self.counted(hs.drop_last()) + match self.after_all(hs.drop_last()).next(hs.last()) {
                SegmentStep::CountAndSleep { count, ms } => count as int,
                SegmentStep::CountAndLookAtClock { count } => count as int,
                _ => 0,
            }
        }
    }

    /// The bytes counted towards the speed in a number of happenings.
    pub open spec fn sampled(self, hs: Seq<Happening>) -> int
        decreases hs.len(),
    {
        if hs.len() == 0 {
            0
        } else {
            self.sampled(hs.drop_last()) + match self.after_all(hs.drop_last()).next(hs.last()) {
                SegmentStep::Sample { bytes } => bytes as int,
                _ => 0,
            }
        }
    }
}

/// Of a segment, exactly the bytes written count as arrived; towards the speed
/// they count once at most, when the next sample is due.
pub proof fn law_segment_counts_what_is_written(t: SegmentTransfer, hs: Seq<Happening>)
    requires
        t.unsampled + bytes_written(hs) <= u64::MAX,
    ensures
        t.counted(hs) == bytes_written(hs),
        t.sampled(hs) + t.after_all(hs).unsampled == t.unsampled + bytes_written(hs),
        0 <= t.sampled(hs),
    decreases hs.len(),
{
    if hs.len() > 0 {
        lemma_written_not_negative(hs.drop_last());
        law_segment_counts_what_is_written(t, hs.drop_last());
    }
}

// ---------------------------------------------------------------------------
// All segments together
// ---------------------------------------------------------------------------

/// What the reporter on a segmented download does.
#[derive(Debug, PartialEq, Eq)]
pub struct ReporterStep {
    /// The report to be sent.
    pub event: Option<DownloadEvent>,
    /// No further report will follow.
    pub stop: bool,
}

/// What the reporter does when it wakes: `sampled` bytes have been counted
/// towards the speed in a quarter of a second.
pub fn reporter_step(
    id: &str,
    cancelled: bool,
    downloaded: u64,
    sampled: u64,
    total: u64,
) -> (r: ReporterStep)
    requires
        sampled * 4 <= u64::MAX,
    ensures
        cancelled ==> r.event is None && r.stop,
        !cancelled ==> (r.event matches Some(event) && is_report(
            event,
            id@,
            downloaded,
            total,
            (sampled * 4) as u64,
            eta_secs(total, downloaded, (sampled * 4) as u64),
        )) && r.stop == (downloaded >= total),
{
    if cancelled {
        return ReporterStep { event: None, stop: true };
    }
    let speed: u64 = sampled * 4;
    let event = DownloadEvent::Progress {
        id: id.to_string(),
        downloaded,
        total,
        speed,
        eta: eta(total, downloaded, speed),
    };
    ReporterStep { event: Some(event), stop: downloaded >= total }
}

/// The first failure at or after `from`.
pub open spec fn first_failure(results: Seq<Result<(), String>>, from: int) -> Option<String>
    decreases results.len() - from,
{
    if from < 0 || from >= results.len() {
        None
    } else {
        match results[from] {
            Err(msg) => Some(msg),
            Ok(_) => first_failure(results, from + 1),
        }
    }
}

/// How a segmented download ends once every segment has: with the first
/// failure, or cancelled, or ready to be put together.
pub fn segments_outcome(results: Vec<Result<(), String>>, cancelled: bool) -> (r: Result<(), String>)
    ensures
        match first_failure(results@, 0) {
            Some(msg) => r == Err::<(), String>(msg),
            None => if cancelled {
                r matches Err(msg) && msg@ == "Cancelled"@
            } else {
                r is Ok
            },
        },
{
    let mut i: usize = 0;
    while i < results.len()
        invariant
            i <= results.len(),
            first_failure(results@, 0) == first_failure(results@, i as int),
        decreases results.len() - i,
    {
        match &results[i] {
            Err(msg) => {
                return Err(msg.clone());
            },
            Ok(_) => {},
        }
        i += 1;
    }
    if cancelled {
        given_up()
    } else {
        Ok(())
    }
}

/// A segmented download comes to be put together only if every segment has
/// arrived and nobody has cancelled it.
pub proof fn law_no_reassembly_after_failure(results: Seq<Result<(), String>>, k: int)
    requires
        first_failure(results, 0) is None,
        0 <= k < results.len(),
    ensures
        results[k] is Ok,
{
    lemma_no_failure_from(results, 0, k);
}

/// Where no failure follows, every result is good.
proof fn lemma_no_failure_from(results: Seq<Result<(), String>>, from: int, k: int)
    requires
        0 <= from <= k < results.len(),
        first_failure(results, from) is None,
    ensures
        results[k] is Ok,
    decreases k - from,
{
    if from < k {
        lemma_no_failure_from(results, from + 1, k);
    }
}

} // verus!
