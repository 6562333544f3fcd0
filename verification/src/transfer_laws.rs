//! What holds of fetching a file, whatever the file and the server.

use crate::downloader::disposition_name;
use crate::downloader::file_named;
use crate::downloader::first_name;
use crate::downloader::header_number;
use crate::downloader::names_file;
use crate::downloader::planned;
use crate::downloader::probe_line;
use crate::downloader::range_text;
use crate::downloader::segment_end;
use crate::downloader::segment_name;
use crate::downloader::segment_start;
use crate::downloader::strategy;
use crate::downloader::ProbeResult;
use crate::downloader::SegmentPlan;
use crate::downloader::SegmentRange;
use crate::downloader::Strategy;
use crate::downloader::MIN_SEGMENT_SIZE;
use crate::number::decimal;
use crate::number::decimal_padded;
use crate::number::law_padded_decimal_reads_back;
use crate::number::number;
use crate::text::begins;
use crate::text::ends;
use crate::text::lemma_one_piece;
use crate::text::lemma_pieces_joined;
use crate::text::lemma_pieces_nonempty;
use crate::text::pieces;
use crate::text::trimmed;
use crate::text::white;
use crate::text::without_prefixes;
use crate::text::without_suffixes;
use crate::text_laws::law_begins;
use crate::text_laws::law_decimal_is_plain;
use crate::text_laws::law_ends;
use crate::text_laws::law_padded_width;
use crate::text_laws::law_trimming_finds_the_text;
use crate::text_laws::law_without_prefixes;
use crate::text_laws::law_without_suffixes;
use crate::transfer::eta_secs;
use crate::transfer::first_failure;
use crate::transfer::throttle_ms;
use crate::transfer::Happening;
use crate::transfer::SegmentStep;
use crate::transfer::SegmentTransfer;
use crate::transfer::Step;
use crate::transfer::StreamTransfer;
use crate::types::DownloadEvent;
use vstd::prelude::*;

verus! {

// ---------------------------------------------------------------------------
// What the server says
// ---------------------------------------------------------------------------

/// A header that is a number in decimal is read as that number.
pub proof fn law_length_header_reads_back(value: &str, n: nat)
    requires
        value@ == decimal(n),
        n <= u64::MAX,
    ensures
        header_number(Some(value)) == Some(n),
        header_number(None) is None,
{
    law_decimal_is_plain(n);
}

/// A file name given in quotation marks or without is found behind whatever the
/// header says before it.
pub proof fn law_disposition_names_the_file(before: Seq<char>, name: Seq<char>)
    requires
        !before.contains(';'),
        !begins(trimmed(before), "filename="@),
        name.len() > 0,
        !name.contains(';'),
        !name.contains('"'),
        !white(name[0]),
        !white(name.last()),
        !begins(name, "filename="@),
    ensures
        disposition_name(before + "; filename=\""@ + name + "\""@) == Some(name),
        disposition_name(before + "; filename="@ + name) == Some(name),
{
    reveal_strlit("; filename=\"");
    reveal_strlit("; filename=");
    reveal_strlit("filename=");
    reveal_strlit("\"");
    let mark = "filename="@;
    let quote = "\""@;
    let quoted = quote + name + quote;
    assert(before + "; filename=\""@ + name + quote =~= before.push(';') + (seq![' '] + (mark
        + quoted)));
    assert(before + "; filename="@ + name =~= before.push(';') + (seq![' '] + (mark + name)));
    lemma_named(before, quoted);
    lemma_named(before, name);
    assert(name.contains(name[0]));
    assert(name.contains(name.last()));
    assert(!begins(quoted, mark)) by {
        if begins(quoted, mark) {
            assert(quoted.subrange(0, mark.len() as int)[0] == quoted[0]);
        }
    }
    law_without_prefixes(quoted, mark);
    law_without_prefixes(name, mark);
    assert(!begins(name + quote, quote)) by {
        if begins(name + quote, quote) {
            assert((name + quote).subrange(0, 1)[0] == name[0]);
        }
    }
    assert(!begins(name, quote)) by {
        if begins(name, quote) {
            assert(name.subrange(0, 1)[0] == name[0]);
        }
    }
    assert(quoted =~= quote + (name + quote));
    law_without_prefixes(name + quote, quote);
    law_without_prefixes(name, quote);
    assert(!crate::text::ends(name, quote)) by {
        if crate::text::ends(name, quote) {
            assert(name.subrange(name.len() - 1, name.len() as int)[0] == name.last());
        }
    }
    law_without_suffixes(name, quote);
}

/// What is found of a parameter that names a file, behind one that does not.
proof fn lemma_named(before: Seq<char>, value: Seq<char>)
    requires
        !before.contains(';'),
        !begins(trimmed(before), "filename="@),
        value.len() > 0,
        !value.contains(';'),
        !white(value.last()),
    ensures
        disposition_name(before.push(';') + (seq![' '] + ("filename="@ + value))) == Some(
            without_suffixes(
                without_prefixes(without_prefixes("filename="@ + value, "filename="@), "\""@),
                "\""@,
            ),
        ),
{
    reveal_strlit("filename=");
    let p = "filename="@ + value;
    let second = seq![' '] + p;
    assert forall|i: int| 0 <= i < before.len() implies #[trigger] before[i] != ';' by {
        assert(before.contains(before[i]));
    }
    assert forall|i: int| 0 <= i < second.len() implies #[trigger] second[i] != ';' by {
        if i >= 10 {
            assert(second[i] == value[i - 10]);
            assert(value.contains(value[i - 10]));
        }
    }
    lemma_one_piece(before, ';');
    lemma_one_piece(second, ';');
    lemma_pieces_joined(before, ';', second);
    let ps = seq![before, second];
    assert(pieces(before.push(';') + second, ';') =~= ps);
    assert(p.last() == value.last());
    law_trimming_finds_the_text(seq![' '], p, Seq::empty());
    assert(seq![' '] + p + Seq::<char>::empty() =~= second);
    law_begins(value, "filename="@);
    assert(!names_file(ps[0]));
    assert(names_file(ps[1]));
    reveal_with_fuel(first_name, 3);
    assert(first_name(ps, 0) == first_name(ps, 1));
}

/// A header names a file exactly when one of its parameters does.
pub proof fn law_disposition_without_name(value: Seq<char>)
    ensures
        disposition_name(value) is None <==> forall|k: int|
            0 <= k < pieces(value, ';').len() ==> !begins(
                trimmed(#[trigger] pieces(value, ';')[k]),
                "filename="@,
            ),
{
    lemma_first_name(pieces(value, ';'), 0);
}

/// The first parameter that names a file is the one whose name is taken.
proof fn lemma_first_name(ps: Seq<Seq<char>>, from: int)
    requires
        0 <= from <= ps.len(),
    ensures
        first_name(ps, from) is None <==> forall|k: int|
            from <= k < ps.len() ==> !begins(trimmed(#[trigger] ps[k]), "filename="@),
    decreases ps.len() - from,
{
    if from < ps.len() {
        lemma_first_name(ps, from + 1);
        if begins(trimmed(ps[from]), "filename="@) {
            assert(names_file(ps[from]));
            assert(first_name(ps, from) == Some(file_named(ps[from])));
        }
    }
}

// ---------------------------------------------------------------------------
// Segments
// ---------------------------------------------------------------------------

/// A file is fetched in segments exactly where the server takes ranges, more
/// than one segment is wanted and the file has room for two; then there are as
/// many as are wanted, or one more would be too small.
pub proof fn law_as_many_segments_as_fit(probe: ProbeResult, wanted: usize)
    ensures
        strategy(probe, wanted) is Segmented <==> probe.accept_ranges && wanted >= 2
            && (probe.content_length matches Some(total) && total >= 2 * MIN_SEGMENT_SIZE),
        strategy(probe, wanted) matches Strategy::Segmented { total, segments } ==> {
            &&& probe.content_length == Some(total)
            &&& 2 <= segments <= wanted
            &&& segments * MIN_SEGMENT_SIZE <= total
            &&& segments < wanted ==> (segments + 1) * MIN_SEGMENT_SIZE > total
        },
{
    if let Some(total) = probe.content_length {
        let most = total as int / MIN_SEGMENT_SIZE as int;
        assert(most * MIN_SEGMENT_SIZE <= total < (most + 1) * MIN_SEGMENT_SIZE);
    }
}

/// All segments but the last span the same number of bytes, the last at least
/// as many, and with a byte more each they would not fit into the file.
pub proof fn law_segments_are_even(total: int, n: int, i: int)
    requires
        1 <= n <= total,
        0 <= i < n,
    ensures
        ({
            let first = segment_end(total, n, 0) - segment_start(total, n, 0) + 1;
            let this = segment_end(total, n, i) - segment_start(total, n, i) + 1;
            &&& i < n - 1 ==> this == first
            &&& i == n - 1 ==> this >= first
            &&& n > 1 ==> n * first <= total < n * (first + 1)
        }),
{
    let size = total / n;
    assert(n * size <= total < n * (size + 1)) by (nonlinear_arith)
        requires
            1 <= n <= total,
            size == total / n,
    ;
    assert(0 * size == 0) by (nonlinear_arith);
    assert((n - 1) * size + size == n * size) by (nonlinear_arith);
    crate::downloader::law_segments_tile_the_file(total, n, i);
}

/// The name of a segment's file tells which segment it is, in four digits or
/// more.
pub proof fn law_segment_name_tells_the_segment(i: nat)
    ensures
        begins(segment_name(i), "seg_"@),
        number(segment_name(i).skip("seg_"@.len() as int)) == Some(i),
        segment_name(i).len() >= "seg_"@.len() + 4,
{
    let d = decimal_padded(i, 4);
    law_padded_decimal_reads_back(i, 4);
    law_padded_width(i, 4);
    law_begins(d, "seg_"@);
    assert(segment_name(i).skip("seg_"@.len() as int) =~= d);
}

/// The text of a `Range` header names the first and the last byte: behind
/// `bytes=` stand two numbers with a hyphen between them.
pub proof fn law_range_names_its_bytes(from: nat, end: nat)
    ensures
        begins(range_text(from, end), "bytes="@),
        ({
            let ps = pieces(range_text(from, end).skip("bytes="@.len() as int), '-');
            &&& ps.len() == 2
            &&& number(ps[0]) == Some(from)
            &&& number(ps[1]) == Some(end)
        }),
{
    let a = decimal(from);
    let b = decimal(end);
    law_decimal_is_plain(from);
    law_decimal_is_plain(end);
    let rest = a.push('-') + b;
    assert(range_text(from, end) == "bytes="@ + rest) by {
        reveal_strlit("-");
        assert("-"@ =~= seq!['-']);
        assert(range_text(from, end) =~= "bytes="@ + rest);
    }
    law_begins(rest, "bytes="@);
    assert(("bytes="@ + rest).skip("bytes="@.len() as int) =~= rest);
    lemma_two_pieces(a, b);
}

/// Two texts without a hyphen, a hyphen between them, are two pieces.
proof fn lemma_two_pieces(a: Seq<char>, b: Seq<char>)
    requires
        forall|i: int| 0 <= i < a.len() ==> #[trigger] a[i] != '-',
        forall|i: int| 0 <= i < b.len() ==> #[trigger] b[i] != '-',
    ensures
        pieces(a.push('-') + b, '-') == seq![a, b],
{
    lemma_one_piece(a, '-');
    lemma_one_piece(b, '-');
    lemma_pieces_joined(a, '-', b);
    assert(seq![a] + seq![b] =~= seq![a, b]);
}

/// Of a segment exactly the bytes that are not on disk are asked for, from the
/// first one missing to the segment's last; nothing is asked for exactly when
/// none is missing.
pub proof fn law_plan_asks_for_what_is_missing(
    range: SegmentRange,
    already: u64,
    plan: SegmentPlan,
)
    requires
        range.start <= range.end,
        range.end - range.start < u64::MAX,
        planned(range, already, plan),
    ensures
        plan is Complete <==> already >= range.end - range.start + 1,
        match plan {
            SegmentPlan::Complete { counted } => counted == range.end - range.start + 1,
            SegmentPlan::Fetch { counted, from, range: text, append } => {
                let ps = pieces(text@.skip("bytes="@.len() as int), '-');
                &&& counted == already
                &&& from - range.start == already
                &&& begins(text@, "bytes="@)
                &&& ps.len() == 2
                &&& number(ps[0]) == Some((range.start + already) as nat)
                &&& number(ps[1]) == Some(range.end as nat)
                &&& append <==> already != 0
            },
        },
{
    if let SegmentPlan::Fetch { counted, from, range: text, append } = plan {
        law_range_names_its_bytes(from as nat, range.end as nat);
    }
}

// ---------------------------------------------------------------------------
// Speed and time
// ---------------------------------------------------------------------------

/// The seconds told are the most in which the speed brings no more than what is
/// left; none are told where nothing moves or nothing is left.
pub proof fn law_eta_is_the_time_left(total: u64, downloaded: u64, speed: u64)
    ensures
        speed > 0 && total > downloaded ==> eta_secs(total, downloaded, speed) * speed <= total
            - downloaded < (eta_secs(total, downloaded, speed) + 1) * speed,
        speed == 0 || total <= downloaded ==> eta_secs(total, downloaded, speed) == 0,
{
    if speed > 0 && total > downloaded {
        let x = total - downloaded;
        let s = speed as int;
        let e = eta_secs(total, downloaded, speed) as int;
        assert(e == x / s);
        assert(e * s <= x < (e + 1) * s) by (nonlinear_arith)
            requires
                e == x / s,
                0 < s,
                0 <= x,
        ;
    }
}

/// Without a limit nothing is waited for.
pub proof fn law_no_limit_no_sleep(len: int)
    ensures
        throttle_ms(len, 0) == 0,
{
}

// ---------------------------------------------------------------------------
// The steps of a transfer
// ---------------------------------------------------------------------------

/// When a stream is written, given up, finished and left waiting.
pub proof fn law_stream_steps(t: StreamTransfer, h: Happening, step: Step)
    requires
        t.calls_for(h, step),
    ensures
        step is Write <==> h == (Happening::PauseFlag { paused: false }),
        step is WaitPaused <==> h == (Happening::PauseFlag { paused: true }),
        step is GiveUp <==> h == (Happening::Chunk { cancelled: true }),
        step is LookAtPause <==> h == (Happening::Chunk { cancelled: false }),
        step is Finish <==> h is End,
        step is Report <==> (h matches Happening::Clock { elapsed_ms, speed } && elapsed_ms
            >= 250),
        step is NextChunk <==> (h matches Happening::Clock { elapsed_ms, speed } && elapsed_ms
            < 250),
        step matches Step::WaitPaused { ms } ==> ms == 200,
{
}

/// After a chunk of `len` bytes a stream sleeps, if at all, the most whole
/// milliseconds in which the limit lets no more than the chunk through.
pub proof fn law_stream_keeps_to_the_limit(t: StreamTransfer, len: u64, cap: u64, step: Step)
    requires
        t.calls_for(Happening::Written { len, cap }, step),
        len * 1000 <= u64::MAX,
    ensures
        cap == 0 ==> step == Step::LookAtClock,
        cap > 0 && len * 1000 < cap ==> step == Step::LookAtClock,
        cap > 0 && len * 1000 >= cap ==> (step matches Step::Sleep { ms } && ms * cap <= len * 1000
            < (ms + 1) * cap),
{
    if cap > 0 {
        lemma_throttle(len, cap);
    }
}

/// The sleep is between nothing and the whole, and is none exactly for chunks
/// that pass within a millisecond.
proof fn lemma_throttle(len: u64, cap: u64)
    requires
        cap > 0,
        len * 1000 <= u64::MAX,
    ensures
        throttle_ms(len as int, cap as int) * cap <= len * 1000 < (throttle_ms(
            len as int,
            cap as int,
        ) + 1) * cap,
        0 <= throttle_ms(len as int, cap as int) <= u64::MAX,
        throttle_ms(len as int, cap as int) > 0 <==> len * 1000 >= cap,
{
    crate::transfer::law_throttle_keeps_the_limit(len as int, cap as int);
    let ms = throttle_ms(len as int, cap as int);
    let c = cap as int;
    let x = len * 1000;
    assert(ms <= x && (ms > 0 <==> x >= c) && 0 <= ms) by (nonlinear_arith)
        requires
            ms * c <= x < (ms + 1) * c,
            c > 0,
            x >= 0,
    ;
}

/// A report on a stream tells what has been written, the whole, the speed that
/// was measured and the time left at that speed; the last one tells no speed.
pub proof fn law_stream_reports(t: StreamTransfer, h: Happening, step: Step)
    requires
        t.calls_for(h, step),
    ensures
        step matches Step::Report { event } ==> (event matches DownloadEvent::Progress {
            id,
            downloaded,
            total,
            speed,
            eta,
        } && id@ == t.id@ && downloaded == t.downloaded && total == t.total && h
            == (Happening::Clock { elapsed_ms: h->elapsed_ms, speed }) && (speed > 0 && total
            > downloaded ==> eta * speed <= total - downloaded < (eta + 1) * speed) && (speed == 0
            || total <= downloaded ==> eta == 0)),
        step matches Step::Finish { event } ==> (event matches DownloadEvent::Progress {
            id,
            downloaded,
            total,
            speed,
            eta,
        } && id@ == t.id@ && downloaded == t.downloaded && total == t.total && speed == 0 && eta
            == 0),
{
    if let Step::Report { event } = step {
        if let Happening::Clock { elapsed_ms, speed } = h {
            law_eta_is_the_time_left(t.total, t.downloaded, speed);
        }
    }
}

/// What has happened fits exactly where the counts and the thousandfold of a
/// chunk stay within what their numbers can hold.
pub proof fn law_what_fits(t: StreamTransfer, u: SegmentTransfer, h: Happening)
    ensures
        !(h is Written) ==> t.fits(h) && u.fits(h),
        h matches Happening::Written { len, cap } ==> {
            &&& t.fits(h) <==> t.downloaded + len < 0x1_0000_0000_0000_0000 && t.unreported + len
                < 0x1_0000_0000_0000_0000 && 1000 * len < 0x1_0000_0000_0000_0000
            &&& u.fits(h) <==> u.unsampled + len < 0x1_0000_0000_0000_0000 && 1000 * len
                < 0x1_0000_0000_0000_0000
        },
{
}

/// What a stream remembers: what has been written in all and since the last
/// report, the rest stays.
pub proof fn law_stream_remembers(t: StreamTransfer, h: Happening)
    requires
        t.fits(h),
    ensures
        t.after(h).id == t.id,
        t.after(h).total == t.total,
        h matches Happening::Written { len, cap } ==> t.after(h).downloaded == t.downloaded + len
            && t.after(h).unreported == t.unreported + len,
        !(h is Written) ==> t.after(h).downloaded == t.downloaded,
        !(h is Written) && !(h is Clock) ==> t.after(h).unreported == t.unreported,
        h matches Happening::Clock { elapsed_ms, speed } ==> t.after(h).unreported == if elapsed_ms
            >= 250 {
            0
        } else {
            t.unreported
        },
{
}

/// When a segment is written, given up, finished, sampled and left waiting, and
/// what is counted and slept after a chunk.
pub proof fn law_segment_steps(t: SegmentTransfer, h: Happening)
    requires
        t.fits(h),
    ensures
        t.next(h) is Write <==> h == (Happening::PauseFlag { paused: false }),
        t.next(h) is WaitPaused <==> h == (Happening::PauseFlag { paused: true }),
        t.next(h) is GiveUp <==> h == (Happening::Chunk { cancelled: true }),
        t.next(h) is LookAtPause <==> h == (Happening::Chunk { cancelled: false }),
        t.next(h) is Finish <==> h is End,
        t.next(h) is Sample <==> (h matches Happening::Clock { elapsed_ms, speed } && elapsed_ms
            >= 250),
        t.next(h) is NextChunk <==> (h matches Happening::Clock { elapsed_ms, speed } && elapsed_ms
            < 250),
        t.next(h) matches SegmentStep::WaitPaused { ms } ==> ms == 200,
        t.next(h) matches SegmentStep::Sample { bytes } ==> bytes == t.unsampled
            && t.after(h).unsampled == 0,
        h matches Happening::Written { len, cap } ==> {
            &&& t.after(h).unsampled == t.unsampled + len
            &&& cap == 0 || len * 1000 < cap ==> t.next(h)
                == (SegmentStep::CountAndLookAtClock { count: len })
            &&& cap > 0 && len * 1000 >= cap ==> (t.next(h) matches SegmentStep::CountAndSleep {
                count,
                ms,
            } && count == len && ms * cap <= len * 1000 < (ms + 1) * cap)
        },
{
    if let Happening::Written { len, cap } = h {
        if cap > 0 {
            lemma_throttle(len, cap);
        }
    }
}

/// The failure that a segmented download ends with is that of the first segment
/// that failed.
pub proof fn law_first_failure_decides(results: Seq<Result<(), String>>)
    ensures
        first_failure(results, 0) is None <==> forall|k: int|
            0 <= k < results.len() ==> (#[trigger] results[k]) is Ok,
        first_failure(results, 0) matches Some(msg) ==> exists|k: int|
            {
                &&& 0 <= k < results.len()
                &&& #[trigger] results[k] == Err::<(), String>(msg)
                &&& forall|j: int| 0 <= j < k ==> (#[trigger] results[j]) is Ok
            },
{
    lemma_first_failure(results, 0);
}

/// The first failure at or after a place.
proof fn lemma_first_failure(results: Seq<Result<(), String>>, from: int)
    requires
        0 <= from <= results.len(),
    ensures
        first_failure(results, from) is None <==> forall|k: int|
            from <= k < results.len() ==> (#[trigger] results[k]) is Ok,
        first_failure(results, from) matches Some(msg) ==> exists|k: int|
            {
                &&& from <= k < results.len()
                &&& #[trigger] results[k] == Err::<(), String>(msg)
                &&& forall|j: int| from <= j < k ==> (#[trigger] results[j]) is Ok
            },
    decreases results.len() - from,
{
    if from < results.len() {
        match results[from] {
            Ok(_) => {
                lemma_first_failure(results, from + 1);
            },
            Err(msg) => {
                assert(results[from] == Err::<(), String>(msg));
            },
        }
    }
}

/// What is logged about a file are its bytes, none where the server tells no
/// length, and whether it can be had in parts.
pub proof fn law_probe_line(probe: ProbeResult)
    ensures
        begins(probe_line(probe), "Size: "@),
        ends(
            probe_line(probe),
            if probe.accept_ranges {
                "true"@
            } else {
                "false"@
            },
        ),
        number(pieces(probe_line(probe), ' ')[1]) == Some(
            match probe.content_length {
                Some(v) => v as nat,
                None => 0nat,
            },
        ),
        probe_line(probe) == "Size: "@ + pieces(probe_line(probe), ' ')[1] + " bytes, Ranges: "@
            + if probe.accept_ranges {
            "true"@
        } else {
            "false"@
        },
{
    reveal_strlit("Size: ");
    reveal_strlit("Size:");
    reveal_strlit(" bytes, Ranges: ");
    reveal_strlit("bytes, Ranges: ");
    let n: nat = match probe.content_length {
        Some(v) => v as nat,
        None => 0nat,
    };
    let last = if probe.accept_ranges {
        "true"@
    } else {
        "false"@
    };
    let d = decimal(n);
    let line = probe_line(probe);
    law_decimal_is_plain(n);
    law_begins(d + " bytes, Ranges: "@ + last, "Size: "@);
    assert(line =~= "Size: "@ + (d + " bytes, Ranges: "@ + last));
    law_ends("Size: "@ + d + " bytes, Ranges: "@, last);
    let tail = "bytes, Ranges: "@ + last;
    let rest = d.push(' ') + tail;
    assert(line =~= "Size:"@.push(' ') + rest);
    lemma_one_piece("Size:"@, ' ');
    lemma_one_piece(d, ' ');
    lemma_pieces_joined("Size:"@, ' ', rest);
    lemma_pieces_joined(d, ' ', tail);
    lemma_pieces_nonempty(tail, ' ');
    assert(pieces(line, ' ')[1] == d);
}

} // verus!
