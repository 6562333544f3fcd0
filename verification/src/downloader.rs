//! Plain HTTP downloads: what a server's answer means, how a file is cut into
//! segments, and what to do with each chunk that arrives.
//!
//! A file of which the server can send parts, and that is large enough, comes
//! in segments side by side, each into a file of its own, and is put together
//! in order. Any other file comes in one stream.

use crate::number::decimal;
use crate::number::decimal_padded;
use crate::number::law_padded_decimal_reads_back;
use crate::number::number_u64;
use crate::number::parse_u64;
use crate::number::to_decimal;
use crate::number::to_decimal_padded;
use crate::text::begins;
use crate::text::join2;
use crate::text::pieces;
use crate::text::same;
use crate::text::split_at_char;
use crate::text::starts_with;
use crate::text::strip_prefixes;
use crate::text::strip_suffixes;
use crate::text::trim;
use crate::text::trimmed;
use crate::text::views;
use crate::text::without_prefixes;
use crate::text::without_suffixes;
use crate::types::DownloadEvent;
use crate::types::DownloadStatus;
use vstd::prelude::*;

verus! {

/// The least bytes that a segment spans.
pub const MIN_SEGMENT_SIZE: u64 = 4194304;

/// Milliseconds between two looks at the pause flag.
pub const PAUSE_POLL_MS: u64 = 200;

/// Milliseconds between two reports.
pub const REPORT_MS: u64 = 250;

// ---------------------------------------------------------------------------
// What the server says of a file
// ---------------------------------------------------------------------------

/// What the server says of a file before it is fetched.
#[derive(Debug, PartialEq, Eq)]
pub struct ProbeResult {
    pub content_length: Option<u64>,
    pub accept_ranges: bool,
    pub filename_hint: Option<String>,
}

/// The number in a header, if the header is there and is a number.
pub open spec fn header_number(value: Option<&str>) -> Option<nat> {
    match value {
        Some(s) => number_u64(s@),
        None => None,
    }
}

/// `p` is a parameter that names a file.
pub open spec fn names_file(p: Seq<char>) -> bool {
    begins(trimmed(p), "filename="@)
}

/// The name in such a parameter, without its quotation marks.
pub open spec fn file_named(p: Seq<char>) -> Seq<char> {
    without_suffixes(
        without_prefixes(without_prefixes(trimmed(p), "filename="@), "\""@),
        "\""@,
    )
}

/// The name in the first parameter, from `from` on, that names a file.
pub open spec fn first_name(params: Seq<Seq<char>>, from: int) -> Option<Seq<char>>
    decreases params.len() - from,
{
    if from < 0 || from >= params.len() {
        None
    } else if names_file(params[from]) {
        Some(file_named(params[from]))
    } else {
        first_name(params, from + 1)
    }
}

/// The file name that a `Content-Disposition` header gives.
pub open spec fn disposition_name(value: Seq<char>) -> Option<Seq<char>> {
    first_name(pieces(value, ';'), 0)
}

/// The number in a header.
pub fn parse_header_number(value: Option<&str>) -> (r: Option<u64>)
    ensures
        match r {
            Some(v) => header_number(value) == Some(v as nat),
            None => header_number(value) is None,
        },
{
    match value {
        Some(s) => parse_u64(s),
        None => None,
    }
}

/// The file name that a `Content-Disposition` header gives.
pub fn parse_disposition(value: &str) -> (r: Option<String>)
    ensures
        match r {
            Some(n) => disposition_name(value@) == Some(n@),
            None => disposition_name(value@) is None,
        },
{
    let params = split_at_char(value, ';');
    let ghost ps = views(params@);
    let mut i: usize = 0;
    while i < params.len()
        invariant
            i <= params.len(),
            ps == views(params@),
            ps == pieces(value@, ';'),
            first_name(ps, 0) == first_name(ps, i as int),
        decreases params.len() - i,
    {
        assert(params@[i as int]@ == ps[i as int]);
        let p = trim(params[i].as_str());
        if starts_with(p.as_str(), "filename=") {
            let n = strip_prefixes(p.as_str(), "filename=");
            let n = strip_prefixes(n.as_str(), "\"");
            let n = strip_suffixes(n.as_str(), "\"");
            return Some(n);
        }
        i += 1;
    }
    None
}

/// What the headers of a server's answer say of a file.
pub fn read_probe(
    content_length: Option<&str>,
    accept_ranges: Option<&str>,
    content_disposition: Option<&str>,
) -> (r: ProbeResult)
    ensures
        match r.content_length {
            Some(v) => header_number(content_length) == Some(v as nat),
            None => header_number(content_length) is None,
        },
        r.accept_ranges == (accept_ranges matches Some(s) && s@ == "bytes"@),
        match r.filename_hint {
            Some(n) => content_disposition matches Some(s) && disposition_name(s@) == Some(n@),
            None => content_disposition matches Some(s) ==> disposition_name(s@) is None,
        },
{
    let length = parse_header_number(content_length);
    let ranges = match accept_ranges {
        Some(s) => same(s, "bytes"),
        None => false,
    };
    let hint = match content_disposition {
        Some(s) => parse_disposition(s),
        None => None,
    };
    ProbeResult { content_length: length, accept_ranges: ranges, filename_hint: hint }
}

/// The line logged about what the server said.
pub open spec fn probe_line(probe: ProbeResult) -> Seq<char> {
    "Size: "@ + decimal(
        match probe.content_length {
            Some(v) => v as nat,
            None => 0,
        },
    ) + " bytes, Ranges: "@ + if probe.accept_ranges {
        "true"@
    } else {
        "false"@
    }
}

/// The message logged about what the server said.
pub fn probe_event(id: &str, probe: &ProbeResult) -> (r: DownloadEvent)
    ensures
        r matches DownloadEvent::Log { id: told, msg } && told@ == id@ && msg@ == probe_line(
            *probe,
        ),
{
    let n: u64 = match probe.content_length {
        Some(v) => v,
        None => 0,
    };
    let mut msg = String::new();
    msg.append("Size: ");
    msg.append(to_decimal(n).as_str());
    msg.append(" bytes, Ranges: ");
    msg.append(
        if probe.accept_ranges {
            "true"
        } else {
            "false"
        },
    );
    DownloadEvent::Log { id: id.to_string(), msg }
}

/// How a file is fetched.
#[derive(Debug, PartialEq, Eq)]
pub enum Strategy {
    /// In one stream.
    Single,
    /// In so many segments of a file of so many bytes.
    Segmented { total: u64, segments: usize },
}

/// How many segments a file is cut into: as many as are wanted, as far as each
/// of them spans enough bytes.
pub open spec fn segments_of(total: u64, wanted: usize) -> int {
    let most = total as int / MIN_SEGMENT_SIZE as int;
    if wanted <= most {
        wanted as int
    } else {
        most
    }
}

/// How a file is fetched of which the server has said so much, when so many
/// segments are wanted.
pub open spec fn strategy(probe: ProbeResult, wanted: usize) -> Strategy {
    match probe.content_length {
        Some(total) => if probe.accept_ranges && segments_of(total, wanted) >= 2 {
            Strategy::Segmented { total, segments: segments_of(total, wanted) as usize }
        } else {
            Strategy::Single
        },
        None => Strategy::Single,
    }
}

/// Decides how a file is fetched.
pub fn choose_strategy(probe: &ProbeResult, wanted: usize) -> (r: Strategy)
    ensures
        r == strategy(*probe, wanted),
        r matches Strategy::Segmented { total, segments } ==> 2 <= segments <= total,
{
    match probe.content_length {
        Some(total) => {
            let most: u64 = total / MIN_SEGMENT_SIZE;
            let segments: usize = if wanted as u64 <= most {
                wanted
            } else {
                most as usize
            };
            if probe.accept_ranges && segments >= 2 {
                Strategy::Segmented { total, segments }
            } else {
                Strategy::Single
            }
        },
        None => Strategy::Single,
    }
}

// ---------------------------------------------------------------------------
// Segments
// ---------------------------------------------------------------------------

/// The bytes from `start` to `end`, both of them included.
#[derive(Clone, Copy, Debug, PartialEq, Eq, Structural)]
pub struct SegmentRange {
    pub start: u64,
    pub end: u64,
}

/// Where segment `i` of `n` begins in a file of `total` bytes.
pub open spec fn segment_start(total: int, n: int, i: int) -> int {
    i * (total / n)
}

/// Where segment `i` of `n` ends: before the next one, and the last with the
/// file.
pub open spec fn segment_end(total: int, n: int, i: int) -> int {
    if i == n - 1 {
        total - 1
    } else {
        segment_start(total, n, i) + total / n - 1
    }
}

/// Segments are within the file.
proof fn lemma_segment_bounds(total: int, n: int, i: int)
    requires
        1 <= n <= total,
        0 <= i < n,
    ensures
        1 <= total / n,
        0 <= segment_start(total, n, i),
        segment_start(total, n, i) + total / n <= total,
        segment_start(total, n, i) <= segment_end(total, n, i) < total,
        segment_start(total, n, i) + total / n == segment_start(total, n, i + 1),
        segment_start(total, n, 0) == 0,
{
    let size = total / n;
    assert(size >= 1 && n * size <= total) by (nonlinear_arith)
        requires
            1 <= n <= total,
            size == total / n,
    ;
    assert((i + 1) * size == i * size + size) by (nonlinear_arith);
    assert((i + 1) * size <= n * size) by (nonlinear_arith)
        requires
            0 <= i < n,
            size >= 1,
    ;
    assert(0 <= i * size) by (nonlinear_arith)
        requires
            0 <= i,
            size >= 1,
    ;
    assert(0 * size == 0) by (nonlinear_arith);
}

/// The ranges of the segments of a file.
pub fn segment_ranges(total: u64, segments: usize) -> (r: Vec<SegmentRange>)
    requires
        1 <= segments <= total,
    ensures
        r@.len() == segments,
        forall|i: int|
            0 <= i < segments ==> (#[trigger] r@[i]).start == segment_start(
                total as int,
                segments as int,
                i,
            ) && r@[i].end == segment_end(total as int, segments as int, i),
{
    let size: u64 = total / segments as u64;
    let mut out: Vec<SegmentRange> = Vec::new();
    let mut i: usize = 0;
    while i < segments
        invariant
            1 <= segments <= total,
            size == total as int / segments as int,
            i <= segments,
            out@.len() == i,
            forall|k: int|
                0 <= k < i ==> (#[trigger] out@[k]).start == segment_start(
                    total as int,
                    segments as int,
                    k,
                ) && out@[k].end == segment_end(total as int, segments as int, k),
        decreases segments - i,
    {
        proof {
            lemma_segment_bounds(total as int, segments as int, i as int);
        }
        let start: u64 = i as u64 * size;
        let end: u64 = if i == segments - 1 {
            total - 1
        } else {
            start + size - 1
        };
        out.push(SegmentRange { start, end });
        i += 1;
    }
    out
}

/// The segments of a file tile it: the first begins at its beginning, each of
/// the others where the one before it ends, the last ends with the file, and
/// none is empty.
pub proof fn law_segments_tile_the_file(total: int, n: int, i: int)
    requires
        1 <= n <= total,
        0 <= i < n,
    ensures
        segment_start(total, n, 0) == 0,
        segment_end(total, n, n - 1) == total - 1,
        segment_start(total, n, i) <= segment_end(total, n, i),
        i + 1 < n ==> segment_start(total, n, i + 1) == segment_end(total, n, i) + 1,
{
    lemma_segment_bounds(total, n, i);
}

/// No segment of a file that is fetched in segments spans fewer than the least
/// bytes.
pub proof fn law_segments_are_large_enough(probe: ProbeResult, wanted: usize, i: int)
    ensures
        strategy(probe, wanted) matches Strategy::Segmented { total, segments } ==> {
            &&& probe.content_length == Some(total)
            &&& 2 <= segments <= wanted
            &&& segments <= total
            &&& 0 <= i < segments ==> segment_end(total as int, segments as int, i)
                - segment_start(total as int, segments as int, i) + 1 >= MIN_SEGMENT_SIZE
        },
{
    if let Strategy::Segmented { total, segments } = strategy(probe, wanted) {
        let t = total as int;
        let n = segments as int;
        let least = MIN_SEGMENT_SIZE as int;
        assert(n * least <= t);
        assert(t / n >= least) by (nonlinear_arith)
            requires
                n >= 2,
                n * least <= t,
                least > 0,
        ;
        if 0 <= i < n {
            let size = t / n;
            assert(size * n <= t) by (nonlinear_arith)
                requires
                    n >= 2,
                    size == t / n,
            ;
            assert(i * size + size <= n * size) by (nonlinear_arith)
                requires
                    0 <= i < n,
                    size >= 0,
            ;
            assert(size * n == n * size) by (nonlinear_arith);
            assert((i + 1) * size == i * size + size) by (nonlinear_arith);
        }
    }
}

/// Every byte of a file is in one segment and no other.
pub proof fn law_each_byte_in_one_segment(total: int, n: int, byte: int)
    requires
        1 <= n <= total,
        0 <= byte < total,
    ensures
        exists|i: int|
            0 <= i < n && #[trigger] segment_start(total, n, i) <= byte <= segment_end(
                total,
                n,
                i,
            ),
        forall|i: int, j: int|
            0 <= i < j < n ==> !(#[trigger] segment_start(total, n, i) <= byte <= segment_end(
                total,
                n,
                i,
            ) && #[trigger] segment_start(total, n, j) <= byte <= segment_end(total, n, j)),
{
    lemma_byte_before(total, n, byte, n - 1);
    assert forall|i: int, j: int| 0 <= i < j < n implies !(#[trigger] segment_start(total, n, i)
        <= byte <= segment_end(total, n, i) && #[trigger] segment_start(total, n, j) <= byte
        <= segment_end(total, n, j)) by {
        lemma_segment_bounds(total, n, i);
        let size = total / n;
        assert((i + 1) * size <= j * size) by (nonlinear_arith)
            requires
                i < j,
                size >= 1,
        ;
    }
}

/// A byte up to the end of segment `k` is in one of the segments up to `k`.
proof fn lemma_byte_before(total: int, n: int, byte: int, k: int)
    requires
        1 <= n <= total,
        0 <= k < n,
        0 <= byte <= segment_end(total, n, k),
    ensures
        exists|i: int|
            0 <= i <= k && #[trigger] segment_start(total, n, i) <= byte <= segment_end(
                total,
                n,
                i,
            ),
    decreases k,
{
    lemma_segment_bounds(total, n, k);
    if byte >= segment_start(total, n, k) {
        assert(segment_start(total, n, k) <= byte <= segment_end(total, n, k));
    } else {
        lemma_segment_bounds(total, n, k - 1);
        lemma_byte_before(total, n, byte, k - 1);
    }
}

/// The bytes of segment `i` of a file.
pub open spec fn segment_bytes(file: Seq<u8>, n: int, i: int) -> Seq<u8> {
    file.subrange(
        segment_start(file.len() as int, n, i),
        segment_end(file.len() as int, n, i) + 1,
    )
}

/// The first `k` parts of a file, one after another.
pub open spec fn joined(parts: Seq<Seq<u8>>, k: int) -> Seq<u8>
    decreases k,
{
    if k <= 0 {
        Seq::empty()
    } else {
        joined(parts, k - 1) + parts[k - 1]
    }
}

/// Putting the segments together in order gives the file back.
pub proof fn law_joined_segments_are_the_file(file: Seq<u8>, n: int, parts: Seq<Seq<u8>>)
    requires
        1 <= n <= file.len(),
        parts.len() == n,
        forall|i: int| 0 <= i < n ==> #[trigger] parts[i] == segment_bytes(file, n, i),
    ensures
        joined(parts, n) == file,
{
    lemma_joined_prefix(file, n, parts, n);
    assert(file.take(file.len() as int) == file);
}

/// The first `k` segments are a prefix of the file.
proof fn lemma_joined_prefix(file: Seq<u8>, n: int, parts: Seq<Seq<u8>>, k: int)
    requires
        1 <= n <= file.len(),
        parts.len() == n,
        0 <= k <= n,
        forall|i: int| 0 <= i < n ==> #[trigger] parts[i] == segment_bytes(file, n, i),
    ensures
        joined(parts, k) == file.take(
            if k == 0 {
                0
            } else {
                segment_end(file.len() as int, n, k - 1) + 1
            },
        ),
    decreases k,
{
    let total = file.len() as int;
    if k > 0 {
        lemma_joined_prefix(file, n, parts, k - 1);
        lemma_segment_bounds(total, n, k - 1);
        if k > 1 {
            lemma_segment_bounds(total, n, k - 2);
        }
        assert(parts[k - 1] == segment_bytes(file, n, k - 1));
        assert(file.take(segment_start(total, n, k - 1)) + segment_bytes(file, n, k - 1)
            == file.take(segment_end(total, n, k - 1) + 1));
    }
}

/// The folder, beside the file, for the segments of the download `id`.
pub fn segment_folder(id: &str) -> (r: String)
    ensures
        r@ == ".ydm_"@ + id@,
{
    join2(".ydm_", id)
}

/// The name of the file for segment `i`.
pub open spec fn segment_name(i: nat) -> Seq<char> {
    "seg_"@ + decimal_padded(i, 4)
}

/// The name of the file for segment `i`.
pub fn segment_file(i: usize) -> (r: String)
    ensures
        r@ == segment_name(i as nat),
{
    join2("seg_", to_decimal_padded(i as u64, 4).as_str())
}

/// The names of the files for `segments` segments, in the order in which they
/// are put together.
pub fn segment_files(segments: usize) -> (r: Vec<String>)
    ensures
        r@.len() == segments,
        forall|i: int| 0 <= i < segments ==> (#[trigger] r@[i])@ == segment_name(i as nat),
{
    let mut out: Vec<String> = Vec::new();
    let mut i: usize = 0;
    while i < segments
        invariant
            i <= segments,
            out@.len() == i,
            forall|k: int| 0 <= k < i ==> (#[trigger] out@[k])@ == segment_name(k as nat),
        decreases segments - i,
    {
        out.push(segment_file(i));
        i += 1;
    }
    out
}

/// Two segments never share a file.
pub proof fn law_segment_files_differ(i: nat, j: nat)
    requires
        i != j,
    ensures
        segment_name(i) != segment_name(j),
{
    let a = decimal_padded(i, 4);
    let b = decimal_padded(j, 4);
    law_padded_decimal_reads_back(i, 4);
    law_padded_decimal_reads_back(j, 4);
    if segment_name(i) == segment_name(j) {
        let n = "seg_"@.len() as int;
        assert(segment_name(i).skip(n) == a);
        assert(segment_name(j).skip(n) == b);
    }
}

/// What is left to do for a segment.
#[derive(Debug, PartialEq, Eq)]
pub enum SegmentPlan {
    /// Nothing; so many bytes count as arrived.
    Complete { counted: u64 },
    /// The bytes from `from` on are to be fetched with the given `Range`
    /// header, and added to the file if `append`; so many count as arrived.
    Fetch { counted: u64, from: u64, range: String, append: bool },
}

/// The value of a `Range` header.
pub open spec fn range_text(from: nat, end: nat) -> Seq<char> {
    "bytes="@ + decimal(from) + "-"@ + decimal(end)
}

/// `plan` is what is left to do for a segment of which `already` bytes are on
/// disk.
pub open spec fn planned(range: SegmentRange, already: u64, plan: SegmentPlan) -> bool {
    if range.start + already > range.end {
        plan == (SegmentPlan::Complete { counted: (range.end - range.start + 1) as u64 })
    } else {
        plan matches SegmentPlan::Fetch { counted, from, range: text, append } && counted == already
            && from == range.start + already && text@ == range_text(from as nat, range.end as nat)
            && append == (already > 0)
    }
}

/// Decides what is left to do for a segment of which `already` bytes are on
/// disk.
pub fn plan_segment(range: SegmentRange, already: u64) -> (r: SegmentPlan)
    requires
        range.start <= range.end,
        range.end - range.start < u64::MAX,
        range.start + already <= u64::MAX,
    ensures
        planned(range, already, r),
{
    let from: u64 = range.start + already;
    if from > range.end {
        return SegmentPlan::Complete { counted: range.end - range.start + 1 };
    }
    let mut text = join2("bytes=", to_decimal(from).as_str());
    text.append("-");
    text.append(to_decimal(range.end).as_str());
    SegmentPlan::Fetch { counted: already, from, range: text, append: already > 0 }
}

/// The bytes of a segment that count as arrived and those still to be fetched
/// make up the segment, whatever of it is on disk.
pub proof fn law_plan_accounts_for_the_segment(
    range: SegmentRange,
    already: u64,
    plan: SegmentPlan,
)
    requires
        range.start <= range.end,
        range.end - range.start < u64::MAX,
        planned(range, already, plan),
    ensures
        match plan {
            SegmentPlan::Complete { counted } => counted == range.end - range.start + 1,
            SegmentPlan::Fetch { counted, from, range: text, append } => counted + (range.end - from
                + 1) == range.end - range.start + 1 && range.start <= from <= range.end,
        },
{
}

/// The lengths of the first `k` segments together.
pub open spec fn lengths(total: int, n: int, k: int) -> int
    decreases k,
{
    if k <= 0 {
        0
    } else {
        lengths(total, n, k - 1) + (segment_end(total, n, k - 1) - segment_start(total, n, k - 1)
            + 1)
    }
}

/// The lengths of the segments add up to the length of the file.
pub proof fn law_segment_lengths_add_up(total: int, n: int)
    requires
        1 <= n <= total,
    ensures
        lengths(total, n, n) == total,
{
    lemma_lengths(total, n, n - 1);
}

/// The first `k` segments reach to the beginning of the next.
proof fn lemma_lengths(total: int, n: int, k: int)
    requires
        1 <= n <= total,
        0 <= k < n,
    ensures
        lengths(total, n, k) == segment_start(total, n, k),
    decreases k,
{
    lemma_segment_bounds(total, n, k);
    if k > 0 {
        lemma_segment_bounds(total, n, k - 1);
        lemma_lengths(total, n, k - 1);
    }
}

/// What a segment's file held before and what is fetched then, put together,
/// are the bytes of the segment: none is missing and none comes twice.
pub proof fn law_resumed_segment_is_whole(
    file: Seq<u8>,
    range: SegmentRange,
    already: u64,
    plan: SegmentPlan,
)
    requires
        range.start <= range.end < file.len(),
        planned(range, already, plan),
    ensures
        plan matches SegmentPlan::Fetch { counted, from, range: text, append } ==> {
            &&& file.subrange(range.start as int, range.start + already) + file.subrange(
                from as int,
                range.end + 1,
            ) == file.subrange(range.start as int, range.end + 1)
            &&& text@ == range_text(from as nat, range.end as nat)
            &&& append == (already > 0)
        },
{
}

/// What a run says when it begins.
pub fn connecting_event(id: &str) -> (r: DownloadEvent)
    ensures
        r matches DownloadEvent::StatusChange { id: i, status } && i@ == id@
            && status is Connecting,
{
    DownloadEvent::StatusChange { id: id.to_string(), status: DownloadStatus::Connecting }
}

/// What a run says when its bytes begin to come.
pub fn downloading_event(id: &str) -> (r: DownloadEvent)
    ensures
        r matches DownloadEvent::StatusChange { id: i, status } && i@ == id@
            && status is Downloading,
{
    DownloadEvent::StatusChange { id: id.to_string(), status: DownloadStatus::Downloading }
}

/// The message logged before a file is put together.
pub fn reassembly_event(id: &str) -> (r: DownloadEvent)
    ensures
        r matches DownloadEvent::Log { id: told, msg } && told@ == id@ && msg@
            == "Reassembling segments…"@,
{
    DownloadEvent::Log { id: id.to_string(), msg: "Reassembling segments…".to_string() }
}

} // verus!
