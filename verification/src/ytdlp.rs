//! Downloads that go through yt-dlp: which addresses do, how the program is
//! called, and what its output means.

use crate::downloader::connecting_event;
use crate::downloader::downloading_event;
use crate::number::decimal_padded;
use crate::number::law_padded_decimal_reads_back;
use crate::number::number_u64;
use crate::number::parse_u64;
use crate::queue::end_status;
use crate::queue_laws::law_end_status;
use crate::text::contains;
use crate::text::ends;
use crate::text::ends_with;
use crate::text::holds;
use crate::text::join2;
use crate::text::lemma_one_piece;
use crate::text::lemma_pieces_joined;
use crate::text::lowercase;
use crate::text::lowered;
use crate::text::pieces;
use crate::text::second_of;
use crate::text::second_piece;
use crate::text::split_at_char;
use crate::text::split_words;
use crate::text::strip_suffixes;
use crate::text::trim;
use crate::text::trimmed;
use crate::text::views;
use crate::text::without_suffixes;
use crate::text::words;
use crate::types::DownloadEvent;
use crate::types::DownloadItem;
use crate::types::DownloadStatus;
use vstd::prelude::*;

verus! {

/// The streaming platforms.
pub const PLATFORMS: [&'static str; 22] = [
    "youtube.com",
    "youtu.be",
    "vimeo.com",
    "twitch.tv",
    "dailymotion.com",
    "tiktok.com",
    "instagram.com",
    "facebook.com",
    "fb.watch",
    "twitter.com",
    "x.com",
    "reddit.com",
    "soundcloud.com",
    "bandcamp.com",
    "bilibili.com",
    "nicovideo.jp",
    "rumble.com",
    "odysee.com",
    "bitchute.com",
    "streamable.com",
    "gfycat.com",
    "imgur.com",
];

/// An address in lower case names one of the streaming platforms exactly when
/// the name of one stands in it.
pub proof fn law_platforms(lower: Seq<char>)
    ensures
        on_platform(lower) <==> exists|i: int|
            0 <= i < PLATFORMS@.len() && holds(lower, #[trigger] PLATFORMS@[i]@),
{
    assert(PLATFORMS@[0]@ == "youtube.com"@);
    assert(PLATFORMS@[1]@ == "youtu.be"@);
    assert(PLATFORMS@[2]@ == "vimeo.com"@);
    assert(PLATFORMS@[3]@ == "twitch.tv"@);
    assert(PLATFORMS@[4]@ == "dailymotion.com"@);
    assert(PLATFORMS@[5]@ == "tiktok.com"@);
    assert(PLATFORMS@[6]@ == "instagram.com"@);
    assert(PLATFORMS@[7]@ == "facebook.com"@);
    assert(PLATFORMS@[8]@ == "fb.watch"@);
    assert(PLATFORMS@[9]@ == "twitter.com"@);
    assert(PLATFORMS@[10]@ == "x.com"@);
    assert(PLATFORMS@[11]@ == "reddit.com"@);
    assert(PLATFORMS@[12]@ == "soundcloud.com"@);
    assert(PLATFORMS@[13]@ == "bandcamp.com"@);
    assert(PLATFORMS@[14]@ == "bilibili.com"@);
    assert(PLATFORMS@[15]@ == "nicovideo.jp"@);
    assert(PLATFORMS@[16]@ == "rumble.com"@);
    assert(PLATFORMS@[17]@ == "odysee.com"@);
    assert(PLATFORMS@[18]@ == "bitchute.com"@);
    assert(PLATFORMS@[19]@ == "streamable.com"@);
    assert(PLATFORMS@[20]@ == "gfycat.com"@);
    assert(PLATFORMS@[21]@ == "imgur.com"@);
}

/// A lower-case address names one of the streaming platforms.
pub open spec fn on_platform(lower: Seq<char>) -> bool {
    ||| holds(lower, "youtube.com"@)
    ||| holds(lower, "youtu.be"@)
    ||| holds(lower, "vimeo.com"@)
    ||| holds(lower, "twitch.tv"@)
    ||| holds(lower, "dailymotion.com"@)
    ||| holds(lower, "tiktok.com"@)
    ||| holds(lower, "instagram.com"@)
    ||| holds(lower, "facebook.com"@)
    ||| holds(lower, "fb.watch"@)
    ||| holds(lower, "twitter.com"@)
    ||| holds(lower, "x.com"@)
    ||| holds(lower, "reddit.com"@)
    ||| holds(lower, "soundcloud.com"@)
    ||| holds(lower, "bandcamp.com"@)
    ||| holds(lower, "bilibili.com"@)
    ||| holds(lower, "nicovideo.jp"@)
    ||| holds(lower, "rumble.com"@)
    ||| holds(lower, "odysee.com"@)
    ||| holds(lower, "bitchute.com"@)
    ||| holds(lower, "streamable.com"@)
    ||| holds(lower, "gfycat.com"@)
    ||| holds(lower, "imgur.com"@)
}

/// Whether an address is one for yt-dlp.
pub fn needs_ytdlp(url: &str) -> (r: bool)
    ensures
        r == on_platform(lowered(url@)),
        r <==> exists|i: int|
            0 <= i < PLATFORMS@.len() && holds(lowered(url@), #[trigger] PLATFORMS@[i]@),
{
    let lower = lowercase(url);
    names_platform(lower.as_str())
}

/// Whether a lower-case address names one of the streaming platforms.
pub fn names_platform(lower: &str) -> (r: bool)
    ensures
        r == on_platform(lower@),
        r <==> exists|i: int|
            0 <= i < PLATFORMS@.len() && holds(lower@, #[trigger] PLATFORMS@[i]@),
{
    proof {
        law_platforms(lower@);
    }
    contains(lower, "youtube.com") || contains(lower, "youtu.be") || contains(lower, "vimeo.com")
        || contains(lower, "twitch.tv") || contains(lower, "dailymotion.com") || contains(
        lower,
        "tiktok.com",
    ) || contains(lower, "instagram.com") || contains(lower, "facebook.com") || contains(
        lower,
        "fb.watch",
    ) || contains(lower, "twitter.com") || contains(lower, "x.com") || contains(
        lower,
        "reddit.com",
    ) || contains(lower, "soundcloud.com") || contains(lower, "bandcamp.com") || contains(
        lower,
        "bilibili.com",
    ) || contains(lower, "nicovideo.jp") || contains(lower, "rumble.com") || contains(
        lower,
        "odysee.com",
    ) || contains(lower, "bitchute.com") || contains(lower, "streamable.com") || contains(
        lower,
        "gfycat.com",
    ) || contains(lower, "imgur.com")
}

// ---------------------------------------------------------------------------
// The programs
// ---------------------------------------------------------------------------

/// Where yt-dlp can be had.
pub fn ytdlp_address(windows: bool) -> (r: &'static str)
    ensures
        r@ == if windows {
            "https://github.com/yt-dlp/yt-dlp/releases/latest/download/yt-dlp.exe"@
        } else {
            "https://github.com/yt-dlp/yt-dlp/releases/latest/download/yt-dlp"@
        },
{
    if windows {
        "https://github.com/yt-dlp/yt-dlp/releases/latest/download/yt-dlp.exe"
    } else {
        "https://github.com/yt-dlp/yt-dlp/releases/latest/download/yt-dlp"
    }
}

/// Where ffmpeg can be had.
pub fn ffmpeg_address(windows: bool) -> (r: &'static str)
    ensures
        r@ == if windows {
            "https://github.com/BtbN/FFmpeg-Builds/releases/latest/download/ffmpeg-master-latest-win64-gpl.zip"@
        } else {
            "https://johnvansickle.com/ffmpeg/releases/ffmpeg-release-amd64-static.tar.xz"@
        },
{
    if windows {
        "https://github.com/BtbN/FFmpeg-Builds/releases/latest/download/ffmpeg-master-latest-win64-gpl.zip"
    } else {
        "https://johnvansickle.com/ffmpeg/releases/ffmpeg-release-amd64-static.tar.xz"
    }
}

/// What is to be done about the programs that are not there.
#[derive(Clone, Copy, Debug, PartialEq, Eq)]
pub struct MissingTools {
    /// Where to fetch yt-dlp from.
    pub fetch: Option<&'static str>,
    /// Where the user can get ffmpeg, which is not fetched.
    pub announce: Option<&'static str>,
}

/// What is to be done about the programs, by whether they are there.
pub fn ensure_tools(ytdlp_exists: bool, ffmpeg_exists: bool, windows: bool) -> (r: MissingTools)
    ensures
        match r.fetch {
            Some(url) => !ytdlp_exists && url@ == if windows {
                "https://github.com/yt-dlp/yt-dlp/releases/latest/download/yt-dlp.exe"@
            } else {
                "https://github.com/yt-dlp/yt-dlp/releases/latest/download/yt-dlp"@
            },
            None => ytdlp_exists,
        },
        match r.announce {
            Some(url) => !ffmpeg_exists && url@ == if windows {
                "https://github.com/BtbN/FFmpeg-Builds/releases/latest/download/ffmpeg-master-latest-win64-gpl.zip"@
            } else {
                "https://johnvansickle.com/ffmpeg/releases/ffmpeg-release-amd64-static.tar.xz"@
            },
            None => ffmpeg_exists,
        },
{
    MissingTools {
        fetch: if ytdlp_exists {
            None
        } else {
            Some(ytdlp_address(windows))
        },
        announce: if ffmpeg_exists {
            None
        } else {
            Some(ffmpeg_address(windows))
        },
    }
}

/// The format that a download asks yt-dlp for.
pub open spec fn wanted_format(item: DownloadItem) -> Seq<char> {
    match item.format {
        Some(f) => f@,
        None => "bestvideo+bestaudio/best"@,
    }
}

/// The arguments of yt-dlp for a download.
pub open spec fn arguments(item: DownloadItem) -> Seq<Seq<char>> {
    seq![
        "--no-playlist"@,
        "--format"@,
        wanted_format(item),
        "--merge-output-format"@,
        "mp4"@,
        "--output"@,
        item.save_path@ + "/%(title)s.%(ext)s"@,
        "--progress"@,
        "--newline"@,
        "--no-colors"@,
        "--ffmpeg-location"@,
        "."@,
        item.url@,
    ]
}

/// The arguments of yt-dlp for a download.
pub fn ytdlp_args(item: &DownloadItem) -> (r: Vec<String>)
    ensures
        views(r@) == arguments(*item),
{
    let format = match &item.format {
        Some(f) => f.clone(),
        None => "bestvideo+bestaudio/best".to_string(),
    };
    let mut out: Vec<String> = Vec::new();
    out.push("--no-playlist".to_string());
    out.push("--format".to_string());
    out.push(format);
    out.push("--merge-output-format".to_string());
    out.push("mp4".to_string());
    out.push("--output".to_string());
    out.push(join2(item.save_path.as_str(), "/%(title)s.%(ext)s"));
    out.push("--progress".to_string());
    out.push("--newline".to_string());
    out.push("--no-colors".to_string());
    out.push("--ffmpeg-location".to_string());
    out.push(".".to_string());
    out.push(item.url.clone());
    assert(views(out@) =~= arguments(*item));
    out
}

/// What a run says before the program is started: first that it connects, then
/// that it downloads.
pub fn opening_events(id: &str) -> (r: Vec<DownloadEvent>)
    ensures
        r@.len() == 2,
        r@[0] matches DownloadEvent::StatusChange { id: told, status } && told@ == id@
            && status is Connecting,
        r@[1] matches DownloadEvent::StatusChange { id: told, status } && told@ == id@
            && status is Downloading,
{
    let mut out: Vec<DownloadEvent> = Vec::new();
    out.push(connecting_event(id));
    out.push(downloading_event(id));
    out
}

/// How a run of yt-dlp stands.
#[derive(Debug, PartialEq, Eq)]
pub enum RunState {
    /// The program could not be started, for the given reason.
    NotStarted { error: String },
    /// The user has cancelled it.
    Cancelled,
    /// It is still running.
    Running,
    /// It has ended well.
    Succeeded,
    /// It has ended with the given status.
    Exited { status: String },
    /// Its state could not be learned, for the given reason.
    Unknown { error: String },
}

/// What to do about a run of yt-dlp.
#[derive(Debug, PartialEq, Eq)]
pub enum RunStep {
    /// Stop it and send the event: the run ends with the message.
    Kill { event: DownloadEvent, msg: String },
    /// Look again after so many milliseconds.
    Wait { ms: u64 },
    /// The download is complete.
    Done,
    /// The download has failed with the message.
    Fail { msg: String },
}

/// What to do about a run of yt-dlp that stands so.
pub fn run_step(id: &str, state: RunState) -> (r: RunStep)
    ensures
        match state {
            RunState::NotStarted { error } => r matches RunStep::Fail { msg } && msg@
                == "Failed to start yt-dlp: "@ + error@,
            RunState::Cancelled => r matches RunStep::Kill { event, msg }
                && (event matches DownloadEvent::StatusChange { id: told, status } && told@ == id@
                && status is Cancelled) && msg@ == "Cancelled"@ && end_status(
                Err::<(), String>(msg),
            ) is Cancelled,
            RunState::Running => r == (RunStep::Wait { ms: 100 }),
            RunState::Succeeded => r == RunStep::Done,
            RunState::Exited { status } => r matches RunStep::Fail { msg } && msg@
                == "yt-dlp exited with status: "@ + status@,
            RunState::Unknown { error } => r matches RunStep::Fail { msg } && msg@
                == "yt-dlp wait error: "@ + error@,
        },
{
    match state {
        RunState::NotStarted { error } => RunStep::Fail {
            msg: join2("Failed to start yt-dlp: ", error.as_str()),
        },
        RunState::Cancelled => {
            let msg = "Cancelled".to_string();
            proof {
                law_end_status(msg);
            }
            RunStep::Kill {
                event: DownloadEvent::StatusChange {
                    id: id.to_string(),
                    status: DownloadStatus::Cancelled,
                },
                msg,
            }
        },
        RunState::Running => RunStep::Wait { ms: 100 },
        RunState::Succeeded => RunStep::Done,
        RunState::Exited { status } => RunStep::Fail {
            msg: join2("yt-dlp exited with status: ", status.as_str()),
        },
        RunState::Unknown { error } => RunStep::Fail {
            msg: join2("yt-dlp wait error: ", error.as_str()),
        },
    }
}

/// What a line on the error output becomes: a line of the log, unless it is
/// empty.
pub fn stderr_event(id: &str, line: String) -> (r: Option<DownloadEvent>)
    ensures
        line@.len() == 0 ==> r is None,
        line@.len() > 0 ==> (r matches Some(DownloadEvent::Log { id: told, msg }) && told@ == id@
            && msg == line),
{
    if line.as_str().is_empty() {
        None
    } else {
        Some(DownloadEvent::Log { id: id.to_string(), msg: line })
    }
}

// ---------------------------------------------------------------------------
// What yt-dlp prints
// ---------------------------------------------------------------------------
//
// It prints lines such as
//   [download]   5.3% of   45.23MiB at    2.34MiB/s ETA 00:18
//   [download] 100% of   45.23MiB in 00:19

/// The first of a list of words, from `from` on, that ends in a percent sign.
pub open spec fn first_percent(ws: Seq<Seq<char>>, from: int) -> Option<Seq<char>>
    decreases ws.len() - from,
{
    if from < 0 || from >= ws.len() {
        None
    } else if ends(ws[from], "%"@) {
        Some(ws[from])
    } else {
        first_percent(ws, from + 1)
    }
}

/// The first word of a text.
pub open spec fn first_word(s: Seq<char>) -> Option<Seq<char>> {
    if words(s).len() > 0 {
        Some(words(s)[0])
    } else {
        None
    }
}

/// The percentage in a line, without its sign.
pub open spec fn percent_text(line: Seq<char>) -> Option<Seq<char>> {
    match first_percent(words(line), 0) {
        Some(w) => Some(without_suffixes(w, "%"@)),
        None => None,
    }
}

/// The first word between the first and the second `mark` in a line.
pub open spec fn word_after(line: Seq<char>, mark: Seq<char>) -> Option<Seq<char>> {
    match second_piece(line, mark) {
        Some(p) => first_word(p),
        None => None,
    }
}

/// The texts of the numbers in a progress line.
#[derive(Debug, PartialEq, Eq)]
pub struct ProgressTexts {
    /// The percentage, without its sign.
    pub percent: Option<String>,
    /// The speed, with its unit.
    pub speed: Option<String>,
    /// The time left.
    pub eta: Option<String>,
}

/// `found` is the text `wanted`, if there is one.
pub open spec fn is_text(found: Option<String>, wanted: Option<Seq<char>>) -> bool {
    match found {
        Some(s) => wanted == Some(s@),
        None => wanted is None,
    }
}

/// The first word between the first and the second `mark` in a line.
fn find_word_after(line: &str, mark: &str) -> (r: Option<String>)
    ensures
        is_text(r, word_after(line@, mark@)),
{
    match second_of(line, mark) {
        Some(p) => {
            let ws = split_words(p.as_str());
            if ws.len() > 0 {
                assert(ws@[0]@ == views(ws@)[0]);
                Some(ws[0].clone())
            } else {
                None
            }
        },
        None => None,
    }
}

/// The percentage in a line, without its sign.
fn find_percent(line: &str) -> (r: Option<String>)
    ensures
        is_text(r, percent_text(line@)),
{
    let ws = split_words(line);
    let ghost vs = views(ws@);
    let mut i: usize = 0;
    while i < ws.len()
        invariant
            i <= ws.len(),
            vs == views(ws@),
            vs == words(line@),
            first_percent(vs, 0) == first_percent(vs, i as int),
        decreases ws.len() - i,
    {
        assert(ws@[i as int]@ == vs[i as int]);
        if ends_with(ws[i].as_str(), "%") {
            return Some(strip_suffixes(ws[i].as_str(), "%"));
        }
        i += 1;
    }
    None
}

/// The texts of the numbers in a line, if it is a progress line.
pub fn scan_progress(line: &str) -> (r: Option<ProgressTexts>)
    ensures
        r is Some == holds(line@, "[download]"@),
        r matches Some(t) ==> is_text(t.percent, percent_text(line@)) && is_text(
            t.speed,
            word_after(line@, "at"@),
        ) && is_text(t.eta, word_after(line@, "ETA"@)),
{
    if !contains(line, "[download]") {
        return None;
    }
    let percent = find_percent(line);
    let speed = find_word_after(line, "at");
    let eta = find_word_after(line, "ETA");
    Some(ProgressTexts { percent, speed, eta })
}

/// A number and the bytes that its unit stands for.
#[derive(Debug, PartialEq, Eq)]
pub struct SpeedText {
    pub number: String,
    pub factor: u64,
}

/// The number in a speed and the bytes that its unit stands for.
pub open spec fn speed_parts(s: Seq<char>) -> Option<(Seq<char>, u64)> {
    let t = trimmed(s);
    if ends(t, "GiB/s"@) {
        Some((trimmed(without_suffixes(t, "GiB/s"@)), 1_073_741_824))
    } else if ends(t, "MiB/s"@) {
        Some((trimmed(without_suffixes(t, "MiB/s"@)), 1_048_576))
    } else if ends(t, "KiB/s"@) {
        Some((trimmed(without_suffixes(t, "KiB/s"@)), 1024))
    } else {
        None
    }
}

/// Takes a speed apart into its number and the bytes that its unit stands for.
pub fn parse_speed(s: &str) -> (r: Option<SpeedText>)
    ensures
        match r {
            Some(p) => speed_parts(s@) == Some((p.number@, p.factor)),
            None => speed_parts(s@) is None,
        },
{
    let t = trim(s);
    let t = t.as_str();
    if ends_with(t, "GiB/s") {
        let n = strip_suffixes(t, "GiB/s");
        return Some(SpeedText { number: trim(n.as_str()), factor: 1_073_741_824 });
    }
    if ends_with(t, "MiB/s") {
        let n = strip_suffixes(t, "MiB/s");
        return Some(SpeedText { number: trim(n.as_str()), factor: 1_048_576 });
    }
    if ends_with(t, "KiB/s") {
        let n = strip_suffixes(t, "KiB/s");
        return Some(SpeedText { number: trim(n.as_str()), factor: 1024 });
    }
    None
}

/// The numbers among a list of texts.
pub open spec fn numbers(ps: Seq<Seq<char>>) -> Seq<nat>
    decreases ps.len(),
{
    if ps.len() == 0 {
        Seq::empty()
    } else {
        match number_u64(ps.last()) {
            Some(v) => numbers(ps.drop_last()).push(v),
            None => numbers(ps.drop_last()),
        }
    }
}

/// The seconds that a time stands for: minutes and seconds, or hours, minutes
/// and seconds.
pub open spec fn clock_secs(ns: Seq<nat>) -> nat {
    if ns.len() == 2 {
        ns[0] * 60 + ns[1]
    } else if ns.len() == 3 {
        ns[0] * 3600 + ns[1] * 60 + ns[2]
    } else {
        0
    }
}

/// The seconds that the text of a time stands for.
pub open spec fn eta_value(s: Seq<char>) -> nat {
    clock_secs(numbers(pieces(s, ':')))
}

/// The numbers among the pieces of a time.
fn clock_numbers(s: &str) -> (r: Vec<u64>)
    ensures
        r@.map_values(|v: u64| v as nat) == numbers(pieces(s@, ':')),
{
    let parts = split_at_char(s, ':');
    let ghost ps = views(parts@);
    let mut out: Vec<u64> = Vec::new();
    let mut i: usize = 0;
    assert(ps.take(0) == Seq::<Seq<char>>::empty());
    assert(out@.map_values(|v: u64| v as nat) == numbers(ps.take(0)));
    while i < parts.len()
        invariant
            i <= parts.len(),
            ps == views(parts@),
            out@.map_values(|v: u64| v as nat) == numbers(ps.take(i as int)),
        decreases parts.len() - i,
    {
        assert(parts@[i as int]@ == ps[i as int]);
        assert(ps.take(i + 1).drop_last() == ps.take(i as int));
        assert(ps.take(i + 1).last() == ps[i as int]);
        if let Some(v) = parse_u64(parts[i].as_str()) {
            let ghost before = out@;
            out.push(v);
            assert(out@.map_values(|v: u64| v as nat) == before.map_values(
                |v: u64| v as nat,
            ).push(v as nat));
        }
        i += 1;
    }
    assert(ps.take(i as int) == ps);
    out
}

/// Two digits, or more where the number needs them.
pub open spec fn two_digits(n: nat) -> Seq<char> {
    decimal_padded(n, 2)
}

/// A number in two digits is one piece of a time, and reads back.
proof fn lemma_clock_part(n: nat)
    requires
        n <= u64::MAX,
    ensures
        pieces(two_digits(n), ':') == seq![two_digits(n)],
        number_u64(two_digits(n)) == Some(n),
{
    law_padded_decimal_reads_back(n, 2);
    lemma_one_piece(two_digits(n), ':');
}

/// A time written as minutes and seconds reads back.
pub proof fn law_minutes_and_seconds_read_back(m: nat, s: nat)
    requires
        m <= u64::MAX,
        s <= u64::MAX,
    ensures
        eta_value(two_digits(m).push(':') + two_digits(s)) == 60 * m + s,
{
    lemma_clock_part(m);
    lemma_clock_part(s);
    lemma_pieces_joined(two_digits(m), ':', two_digits(s));
    let ps = seq![two_digits(m), two_digits(s)];
    assert(pieces(two_digits(m).push(':') + two_digits(s), ':') =~= ps);
    reveal_with_fuel(numbers, 3);
    assert(ps.drop_last() =~= seq![two_digits(m)]);
    assert(ps.drop_last().drop_last() =~= Seq::empty());
    assert(numbers(ps) =~= seq![m, s]);
}

/// A time written as hours, minutes and seconds reads back.
pub proof fn law_hours_read_back(h: nat, m: nat, s: nat)
    requires
        h <= u64::MAX,
        m <= u64::MAX,
        s <= u64::MAX,
    ensures
        eta_value(two_digits(h).push(':') + (two_digits(m).push(':') + two_digits(s))) == 3600 * h
            + 60 * m + s,
{
    lemma_clock_part(h);
    lemma_clock_part(m);
    lemma_clock_part(s);
    let rest = two_digits(m).push(':') + two_digits(s);
    lemma_pieces_joined(two_digits(m), ':', two_digits(s));
    lemma_pieces_joined(two_digits(h), ':', rest);
    let ps = seq![two_digits(h), two_digits(m), two_digits(s)];
    assert(pieces(two_digits(h).push(':') + rest, ':') =~= ps);
    reveal_with_fuel(numbers, 4);
    assert(ps.drop_last() =~= seq![two_digits(h), two_digits(m)]);
    assert(ps.drop_last().drop_last() =~= seq![two_digits(h)]);
    assert(ps.drop_last().drop_last().drop_last() =~= Seq::empty());
    assert(numbers(ps) =~= seq![h, m, s]);
}

/// Whether a time is within what a `u64` of seconds can hold.
pub fn eta_fits(s: &str) -> (r: bool)
    ensures
        r == (eta_value(s@) <= u64::MAX),
{
    let ns = clock_numbers(s);
    let ghost vs = ns@.map_values(|v: u64| v as nat);
    assert(vs.len() == ns@.len());
    let total: u128 = if ns.len() == 2 {
        assert(vs[0] == ns@[0] && vs[1] == ns@[1]);
        ns[0] as u128 * 60 + ns[1] as u128
    } else if ns.len() == 3 {
        assert(vs[0] == ns@[0] && vs[1] == ns@[1] && vs[2] == ns@[2]);
        ns[0] as u128 * 3600 + ns[1] as u128 * 60 + ns[2] as u128
    } else {
        0
    };
    total <= u64::MAX as u128
}

/// The seconds that a time stands for.
pub fn parse_eta(s: &str) -> (r: u64)
    requires
        eta_value(s@) <= u64::MAX,
    ensures
        r == eta_value(s@),
{
    let ns = clock_numbers(s);
    let ghost vs = ns@.map_values(|v: u64| v as nat);
    assert(vs.len() == ns@.len());
    if ns.len() == 2 {
        assert(vs[0] == ns@[0] && vs[1] == ns@[1]);
        ns[0] * 60 + ns[1]
    } else if ns.len() == 3 {
        assert(vs[0] == ns@[0] && vs[1] == ns@[1] && vs[2] == ns@[2]);
        ns[0] * 3600 + ns[1] * 60 + ns[2]
    } else {
        0
    }
}

/// The whole of a yt-dlp download, of which its percentage is taken.
pub const VIRTUAL_TOTAL: u64 = 1_000_000;

/// The messages that a progress line becomes: a report, if it has a
/// percentage, and a line of the log. `downloaded` is the percentage as a
/// share of the whole.
pub fn progress_events(
    line: &str,
    id: &str,
    downloaded: Option<u64>,
    speed: u64,
    eta: u64,
) -> (r: Vec<DownloadEvent>)
    ensures
        r@.len() == if downloaded is Some {
            2int
        } else {
            1
        },
        downloaded matches Some(d) ==> (r@[0] matches DownloadEvent::Progress {
            id: told,
            downloaded: got,
            total,
            speed: s,
            eta: e,
        } && told@ == id@ && got == d && total == VIRTUAL_TOTAL && s == speed && e == eta),
        r@.last() matches DownloadEvent::Log { id: told, msg } && told@ == id@ && msg@ == line@,
{
    let mut out: Vec<DownloadEvent> = Vec::new();
    if let Some(d) = downloaded {
        out.push(
            DownloadEvent::Progress {
                id: id.to_string(),
                downloaded: d,
                total: VIRTUAL_TOTAL,
                speed,
                eta,
            },
        );
    }
    out.push(DownloadEvent::Log { id: id.to_string(), msg: line.to_string() });
    out
}

} // verus!
