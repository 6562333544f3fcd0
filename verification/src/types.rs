//! What a download is: its status, its kind, its numbers, the messages about
//! it, and the settings.

use crate::number::decimal;
use crate::number::to_decimal;
use crate::platform::binary_size;
use crate::platform::binary_size_text;
use crate::platform::download_dir;
use crate::platform::new_uuid;
use crate::platform::now;
use crate::platform::uuid_text;
use crate::platform::Timestamp;
use crate::text::join2;
use crate::text::lemma_pieces_joined;
use crate::text::lemma_pieces_nonempty;
use crate::text::lower_letter;
use crate::text::lowercase;
use crate::text::lowered;
use crate::text::pieces;
use crate::text::same;
use crate::text::split_at_char;
use crate::text::upper_letter;
use crate::text::views;
use std::sync::atomic::AtomicU64;
use std::sync::atomic::AtomicUsize;
use std::sync::Arc;
use vstd::prelude::*;
use vstd::utf8::is_ascii_chars;

verus! {

// ---------------------------------------------------------------------------
// Status
// ---------------------------------------------------------------------------

/// How far a download has come.
#[derive(Debug, PartialEq, Eq)]
pub enum DownloadStatus {
    Queued,
    Connecting,
    Downloading,
    /// The parts of a video are being joined.
    Merging,
    Paused,
    Completed,
    Failed(String),
    Cancelled,
}

/// A colour by its red, green and blue parts.
#[derive(Clone, Copy, Debug, PartialEq, Eq, Structural)]
pub struct Color {
    pub r: u8,
    pub g: u8,
    pub b: u8,
}

impl Clone for DownloadStatus {
    fn clone(&self) -> (res: Self)
        ensures
            res == *self,
    {
        match self {
            DownloadStatus::Queued => DownloadStatus::Queued,
            DownloadStatus::Connecting => DownloadStatus::Connecting,
            DownloadStatus::Downloading => DownloadStatus::Downloading,
            DownloadStatus::Merging => DownloadStatus::Merging,
            DownloadStatus::Paused => DownloadStatus::Paused,
            DownloadStatus::Completed => DownloadStatus::Completed,
            DownloadStatus::Failed(msg) => DownloadStatus::Failed(msg.clone()),
            DownloadStatus::Cancelled => DownloadStatus::Cancelled,
        }
    }
}

impl DownloadStatus {
    /// Work is under way.
    pub open spec fn active(self) -> bool {
        self is Connecting || self is Downloading || self is Merging
    }

    /// Nothing more will happen by itself.
    pub open spec fn done(self) -> bool {
        self is Completed || self is Failed || self is Cancelled
    }

    /// The word shown for the status.
    pub open spec fn word(self) -> Seq<char> {
        match self {
            DownloadStatus::Queued => "Queued"@,
            DownloadStatus::Connecting => "Connecting"@,
            DownloadStatus::Downloading => "Downloading"@,
            DownloadStatus::Merging => "Merging"@,
            DownloadStatus::Paused => "Paused"@,
            DownloadStatus::Completed => "Completed"@,
            DownloadStatus::Failed(_) => "Failed"@,
            DownloadStatus::Cancelled => "Cancelled"@,
        }
    }

    /// The colour shown for the status.
    pub open spec fn shade(self) -> Color {
        match self {
            DownloadStatus::Queued => (Color { r: 150, g: 150, b: 160 }),
            DownloadStatus::Connecting => (Color { r: 100, g: 160, b: 255 }),
            DownloadStatus::Downloading => (Color { r: 80, g: 200, b: 140 }),
            DownloadStatus::Merging => (Color { r: 200, g: 160, b: 80 }),
            DownloadStatus::Paused => (Color { r: 200, g: 180, b: 80 }),
            DownloadStatus::Completed => (Color { r: 60, g: 210, b: 120 }),
            DownloadStatus::Failed(_) => (Color { r: 220, g: 80, b: 80 }),
            DownloadStatus::Cancelled => (Color { r: 140, g: 140, b: 150 }),
        }
    }

    /// Whether work is under way.
    pub fn is_active(&self) -> (r: bool)
        ensures
            r == self.active(),
    {
        match self {
            DownloadStatus::Connecting => true,
            DownloadStatus::Downloading => true,
            DownloadStatus::Merging => true,
            _ => false,
        }
    }

    /// Whether nothing more will happen by itself.
    pub fn is_done(&self) -> (r: bool)
        ensures
            r == self.done(),
    {
        match self {
            DownloadStatus::Completed => true,
            DownloadStatus::Failed(_) => true,
            DownloadStatus::Cancelled => true,
            _ => false,
        }
    }

    /// Whether the download waits for its turn.
    pub fn is_queued(&self) -> (r: bool)
        ensures
            r == (self is Queued),
    {
        match self {
            DownloadStatus::Queued => true,
            _ => false,
        }
    }

    /// Whether the download has come to its end.
    pub fn is_completed(&self) -> (r: bool)
        ensures
            r == (self is Completed),
    {
        match self {
            DownloadStatus::Completed => true,
            _ => false,
        }
    }

    /// The word shown for the status.
    pub fn label(&self) -> (r: &str)
        ensures
            r@ == self.word(),
    {
        match self {
            DownloadStatus::Queued => "Queued",
            DownloadStatus::Connecting => "Connecting",
            DownloadStatus::Downloading => "Downloading",
            DownloadStatus::Merging => "Merging",
            DownloadStatus::Paused => "Paused",
            DownloadStatus::Completed => "Completed",
            DownloadStatus::Failed(_) => "Failed",
            DownloadStatus::Cancelled => "Cancelled",
        }
    }

    /// The colour shown for the status.
    pub fn color(&self) -> (r: Color)
        ensures
            r == self.shade(),
    {
        match self {
            DownloadStatus::Queued => Color { r: 150, g: 150, b: 160 },
            DownloadStatus::Connecting => Color { r: 100, g: 160, b: 255 },
            DownloadStatus::Downloading => Color { r: 80, g: 200, b: 140 },
            DownloadStatus::Merging => Color { r: 200, g: 160, b: 80 },
            DownloadStatus::Paused => Color { r: 200, g: 180, b: 80 },
            DownloadStatus::Completed => Color { r: 60, g: 210, b: 120 },
            DownloadStatus::Failed(_) => Color { r: 220, g: 80, b: 80 },
            DownloadStatus::Cancelled => Color { r: 140, g: 140, b: 150 },
        }
    }
}

/// A status is never active and done at once; one that is neither waits in
/// the queue or is paused.
pub proof fn law_active_or_done(status: DownloadStatus)
    ensures
        !(status.active() && status.done()),
        !status.active() && !status.done() <==> status is Queued || status is Paused,
        status.done() <==> status is Completed || status is Failed || status is Cancelled,
        status.active() <==> status is Connecting || status is Downloading || status is Merging,
{
}

// ---------------------------------------------------------------------------
// Category
// ---------------------------------------------------------------------------

/// The kind of file that an address promises.
#[derive(Clone, Copy, Debug, PartialEq, Eq, Structural)]
pub enum Category {
    Video,
    Audio,
    Document,
    Compressed,
    Other,
}

/// The extensions of video files.
pub const VIDEO_EXTENSIONS: [&'static str; 8] = ["mp4", "mkv", "avi", "mov", "webm", "flv", "wmv", "m4v"];

/// The extensions of audio files.
pub const AUDIO_EXTENSIONS: [&'static str; 7] = ["mp3", "aac", "flac", "wav", "ogg", "m4a", "opus"];

/// The extensions of documents.
pub const DOCUMENT_EXTENSIONS: [&'static str; 8] = ["pdf", "doc", "docx", "xls", "xlsx", "ppt", "pptx", "txt"];

/// The extensions of compressed files.
pub const COMPRESSED_EXTENSIONS: [&'static str; 7] = ["zip", "rar", "7z", "tar", "gz", "bz2", "xz"];

/// A text is one of a list.
pub open spec fn among(ext: Seq<char>, list: Seq<&'static str>) -> bool {
    exists|i: int| 0 <= i < list.len() && (#[trigger] list[i])@ == ext
}

/// An extension stands for the kind of file in whose list it is, and for no
/// kind where it is in none.
pub proof fn law_category_by_extension(ext: Seq<char>)
    ensures
        category_of(ext) is Video <==> among(ext, VIDEO_EXTENSIONS@),
        category_of(ext) is Audio <==> among(ext, AUDIO_EXTENSIONS@) && !among(
            ext,
            VIDEO_EXTENSIONS@,
        ),
        category_of(ext) is Document <==> among(ext, DOCUMENT_EXTENSIONS@) && !among(
            ext,
            VIDEO_EXTENSIONS@,
        ) && !among(ext, AUDIO_EXTENSIONS@),
        category_of(ext) is Other <==> !among(ext, VIDEO_EXTENSIONS@) && !among(
            ext,
            AUDIO_EXTENSIONS@,
        ) && !among(ext, DOCUMENT_EXTENSIONS@) && !among(ext, COMPRESSED_EXTENSIONS@),
{
    assert(VIDEO_EXTENSIONS@[0]@ == "mp4"@);
    assert(VIDEO_EXTENSIONS@[1]@ == "mkv"@);
    assert(VIDEO_EXTENSIONS@[2]@ == "avi"@);
    assert(VIDEO_EXTENSIONS@[3]@ == "mov"@);
    assert(VIDEO_EXTENSIONS@[4]@ == "webm"@);
    assert(VIDEO_EXTENSIONS@[5]@ == "flv"@);
    assert(VIDEO_EXTENSIONS@[6]@ == "wmv"@);
    assert(VIDEO_EXTENSIONS@[7]@ == "m4v"@);
    assert(AUDIO_EXTENSIONS@[0]@ == "mp3"@);
    assert(AUDIO_EXTENSIONS@[1]@ == "aac"@);
    assert(AUDIO_EXTENSIONS@[2]@ == "flac"@);
    assert(AUDIO_EXTENSIONS@[3]@ == "wav"@);
    assert(AUDIO_EXTENSIONS@[4]@ == "ogg"@);
    assert(AUDIO_EXTENSIONS@[5]@ == "m4a"@);
    assert(AUDIO_EXTENSIONS@[6]@ == "opus"@);
    assert(DOCUMENT_EXTENSIONS@[0]@ == "pdf"@);
    assert(DOCUMENT_EXTENSIONS@[1]@ == "doc"@);
    assert(DOCUMENT_EXTENSIONS@[2]@ == "docx"@);
    assert(DOCUMENT_EXTENSIONS@[3]@ == "xls"@);
    assert(DOCUMENT_EXTENSIONS@[4]@ == "xlsx"@);
    assert(DOCUMENT_EXTENSIONS@[5]@ == "ppt"@);
    assert(DOCUMENT_EXTENSIONS@[6]@ == "pptx"@);
    assert(DOCUMENT_EXTENSIONS@[7]@ == "txt"@);
    assert(COMPRESSED_EXTENSIONS@[0]@ == "zip"@);
    assert(COMPRESSED_EXTENSIONS@[1]@ == "rar"@);
    assert(COMPRESSED_EXTENSIONS@[2]@ == "7z"@);
    assert(COMPRESSED_EXTENSIONS@[3]@ == "tar"@);
    assert(COMPRESSED_EXTENSIONS@[4]@ == "gz"@);
    assert(COMPRESSED_EXTENSIONS@[5]@ == "bz2"@);
    assert(COMPRESSED_EXTENSIONS@[6]@ == "xz"@);
}

/// What stands after the last dot of an address, its query left out.
pub open spec fn extension(url: Seq<char>) -> Seq<char> {
    pieces(pieces(url, '?')[0], '.').last()
}

/// The kind of file that a lower-case extension stands for.
pub open spec fn category_of(ext: Seq<char>) -> Category {
    if ext == "mp4"@ || ext == "mkv"@ || ext == "avi"@ || ext == "mov"@ || ext == "webm"@ || ext
        == "flv"@ || ext == "wmv"@ || ext == "m4v"@ {
        Category::Video
    } else if ext == "mp3"@ || ext == "aac"@ || ext == "flac"@ || ext == "wav"@ || ext == "ogg"@
        || ext == "m4a"@ || ext == "opus"@ {
        Category::Audio
    } else if ext == "pdf"@ || ext == "doc"@ || ext == "docx"@ || ext == "xls"@ || ext == "xlsx"@
        || ext == "ppt"@ || ext == "pptx"@ || ext == "txt"@ {
        Category::Document
    } else if ext == "zip"@ || ext == "rar"@ || ext == "7z"@ || ext == "tar"@ || ext == "gz"@ || ext
        == "bz2"@ || ext == "xz"@ {
        Category::Compressed
    } else {
        Category::Other
    }
}

/// A query does not change the category of an address in lower case, whatever
/// it asks.
pub proof fn law_query_keeps_category(url: Seq<char>, query: Seq<char>)
    ensures
        category_of(extension(url.push('?') + query)) == category_of(extension(url)),
{
    lemma_pieces_joined(url, '?', query);
    lemma_pieces_nonempty(url, '?');
}

/// A query does not change the category of an ASCII address in any case.
pub proof fn law_query_keeps_category_of_ascii(url: Seq<char>, query: Seq<char>)
    requires
        is_ascii_chars(url),
        is_ascii_chars(query),
    ensures
        category_of(extension(lowered(url.push('?') + query))) == category_of(
            extension(lowered(url)),
        ),
{
    let whole = url.push('?') + query;
    assert(is_ascii_chars(whole)) by {
        assert forall|i: int| 0 <= i < whole.len() implies '\0' <= #[trigger] whole[i]
            <= '\u{7f}' by {
            if i > url.len() {
                assert(whole[i] == query[i - url.len() - 1]);
            }
        }
    }
    let a = lowered(url);
    let b = lowered(query);
    assert(lowered(whole) =~= a.push('?') + b);
    law_query_keeps_category(a, b);
}

/// The case of an ASCII address does not change its category.
pub proof fn law_case_keeps_category(url: Seq<char>)
    requires
        is_ascii_chars(url),
    ensures
        lowered(url.map_values(|c: char| upper_letter(c))) == lowered(url),
        category_of(extension(lowered(url.map_values(|c: char| upper_letter(c))))) == category_of(
            extension(lowered(url)),
        ),
{
    let up = url.map_values(|c: char| upper_letter(c));
    assert forall|i: int| 0 <= i < up.len() implies '\0' <= #[trigger] up[i] <= '\u{7f}' by {
        assert('\0' <= url[i] <= '\u{7f}');
    }
    assert forall|i: int| 0 <= i < up.len() implies lower_letter(up[i]) == lower_letter(
        url[i],
    ) by {
        assert('\0' <= url[i] <= '\u{7f}');
    }
    assert(lowered(up) =~= lowered(url));
}

impl Category {
    /// The kind of file that an address promises, by its extension in
    /// lower case.
    pub fn from_url(url: &str) -> (r: Self)
        ensures
            r == category_of(extension(lowered(url@))),
    {
        let lower = lowercase(url);
        Category::from_lower_url(lower.as_str())
    }

    /// The kind of file that a lower-case address promises.
    pub fn from_lower_url(lower: &str) -> (r: Self)
        ensures
            r == category_of(extension(lower@)),
    {
        let parts = split_at_char(lower, '?');
        assert(parts@[0]@ == views(parts@)[0]);
        let names = split_at_char(parts[0].as_str(), '.');
        let ext = names[names.len() - 1].as_str();
        assert(ext@ == views(names@).last());
        if same(ext, "mp4") || same(ext, "mkv") || same(ext, "avi") || same(ext, "mov") || same(
            ext,
            "webm",
        ) || same(ext, "flv") || same(ext, "wmv") || same(ext, "m4v") {
            Category::Video
        } else if same(ext, "mp3") || same(ext, "aac") || same(ext, "flac") || same(ext, "wav")
            || same(ext, "ogg") || same(ext, "m4a") || same(ext, "opus") {
            Category::Audio
        } else if same(ext, "pdf") || same(ext, "doc") || same(ext, "docx") || same(ext, "xls")
            || same(ext, "xlsx") || same(ext, "ppt") || same(ext, "pptx") || same(ext, "txt") {
            Category::Document
        } else if same(ext, "zip") || same(ext, "rar") || same(ext, "7z") || same(ext, "tar")
            || same(ext, "gz") || same(ext, "bz2") || same(ext, "xz") {
            Category::Compressed
        } else {
            Category::Other
        }
    }

    /// The word shown for the kind.
    pub open spec fn word(self) -> Seq<char> {
        match self {
            Category::Video => "Video"@,
            Category::Audio => "Audio"@,
            Category::Document => "Document"@,
            Category::Compressed => "Compressed"@,
            Category::Other => "Other"@,
        }
    }

    /// The picture shown for the kind.
    pub open spec fn picture(self) -> Seq<char> {
        match self {
            Category::Video => "🎬"@,
            Category::Audio => "🎵"@,
            Category::Document => "📄"@,
            Category::Compressed => "📦"@,
            Category::Other => "📁"@,
        }
    }

    /// The word shown for the kind.
    pub fn label(&self) -> (r: &str)
        ensures
            r@ == self.word(),
    {
        match self {
            Category::Video => "Video",
            Category::Audio => "Audio",
            Category::Document => "Document",
            Category::Compressed => "Compressed",
            Category::Other => "Other",
        }
    }

    /// The picture shown for the kind.
    pub fn icon(&self) -> (r: &str)
        ensures
            r@ == self.picture(),
    {
        match self {
            Category::Video => "🎬",
            Category::Audio => "🎵",
            Category::Document => "📄",
            Category::Compressed => "📦",
            Category::Other => "📁",
        }
    }
}

// ---------------------------------------------------------------------------
// Item
// ---------------------------------------------------------------------------

/// One download.
#[derive(Debug, PartialEq, Eq)]
pub struct DownloadItem {
    pub id: String,
    pub url: String,
    pub filename: String,
    pub save_path: String,
    pub category: Category,
    pub status: DownloadStatus,
    pub total_bytes: u64,
    pub downloaded: u64,
    /// Bytes per second, by the last sample.
    pub speed_bps: u64,
    pub eta_secs: u64,
    pub segments: usize,
    pub added_at: Timestamp,
    pub finished_at: Option<Timestamp>,
    pub error: Option<String>,
    /// The download goes through yt-dlp.
    pub is_ytdlp: bool,
    /// The yt-dlp format, such as `bestvideo+bestaudio`.
    pub format: Option<String>,
}

/// An optional text, copied.
pub fn copy_text(s: &Option<String>) -> (r: Option<String>)
    ensures
        r == *s,
{
    match s {
        Some(t) => Some(t.clone()),
        None => None,
    }
}

impl Clone for DownloadItem {
    fn clone(&self) -> (res: Self)
        ensures
            res == *self,
    {
        DownloadItem {
            id: self.id.clone(),
            url: self.url.clone(),
            filename: self.filename.clone(),
            save_path: self.save_path.clone(),
            category: self.category,
            status: self.status.clone(),
            total_bytes: self.total_bytes,
            downloaded: self.downloaded,
            speed_bps: self.speed_bps,
            eta_secs: self.eta_secs,
            segments: self.segments,
            added_at: self.added_at,
            finished_at: self.finished_at,
            error: copy_text(&self.error),
            is_ytdlp: self.is_ytdlp,
            format: copy_text(&self.format),
        }
    }
}

/// A download as it stands when it has just been asked for.
pub open spec fn fresh_item(
    id: String,
    added_at: Timestamp,
    url: String,
    filename: String,
    save_path: String,
) -> DownloadItem {
    DownloadItem {
        id,
        url,
        filename,
        save_path,
        category: category_of(extension(lowered(url@))),
        status: DownloadStatus::Queued,
        total_bytes: 0,
        downloaded: 0,
        speed_bps: 0,
        eta_secs: 0,
        segments: 16,
        added_at,
        finished_at: None,
        error: None,
        is_ytdlp: false,
        format: None,
    }
}

impl DownloadItem {
    /// A download that has just been asked for, under a new random identifier
    /// and the time of the call.
    pub fn new(url: String, filename: String, save_path: String) -> (r: Self)
        ensures
            uuid_text(r.id@),
            r.added_at.nanos < 1_000_000_000,
            r == fresh_item(r.id, r.added_at, url, filename, save_path),
    {
        DownloadItem::identified(new_uuid(), now(), url, filename, save_path)
    }

    /// A download that has just been asked for, under the given identifier
    /// and time.
    pub fn identified(
        id: String,
        added_at: Timestamp,
        url: String,
        filename: String,
        save_path: String,
    ) -> (r: Self)
        ensures
            r == fresh_item(id, added_at, url, filename, save_path),
    {
        let category = Category::from_url(url.as_str());
        DownloadItem {
            id,
            url,
            filename,
            save_path,
            category,
            status: DownloadStatus::Queued,
            total_bytes: 0,
            downloaded: 0,
            speed_bps: 0,
            eta_secs: 0,
            segments: 16,
            added_at,
            finished_at: None,
            error: None,
            is_ytdlp: false,
            format: None,
        }
    }

    /// The whole size in words, or a dash where it is not known.
    pub fn human_size(&self) -> (r: String)
        ensures
            r@ == if self.total_bytes == 0 {
                "—"@
            } else {
                binary_size_text(self.total_bytes)
            },
    {
        if self.total_bytes == 0 {
            return "—".to_string();
        }
        binary_size(self.total_bytes)
    }

    /// What has arrived, in words.
    pub fn human_downloaded(&self) -> (r: String)
        ensures
            r@ == binary_size_text(self.downloaded),
    {
        binary_size(self.downloaded)
    }

    /// The speed in words, or a dash where nothing moves.
    pub fn human_speed(&self) -> (r: String)
        ensures
            r@ == if self.speed_bps == 0 {
                "—"@
            } else {
                binary_size_text(self.speed_bps) + "/s"@
            },
    {
        if self.speed_bps == 0 {
            return "—".to_string();
        }
        join2(binary_size(self.speed_bps).as_str(), "/s")
    }

    /// The time left in words, or a dash where it is not known.
    pub fn human_eta(&self) -> (r: String)
        ensures
            r@ == eta_words(self.eta_secs as nat),
    {
        let t = self.eta_secs;
        if t == 0 {
            return "—".to_string();
        }
        if t < 60 {
            return join2(to_decimal(t).as_str(), "s");
        }
        if t < 3600 {
            return two_units(t / 60, "m ", t % 60, "s");
        }
        two_units(t / 3600, "h ", (t % 3600) / 60, "m")
    }
}

/// A stretch of time in words: seconds, minutes and seconds, or hours and
/// minutes.
pub open spec fn eta_words(secs: nat) -> Seq<char> {
    if secs == 0 {
        "—"@
    } else if secs < 60 {
        decimal(secs) + "s"@
    } else if secs < 3600 {
        decimal(secs / 60) + "m "@ + decimal(secs % 60) + "s"@
    } else {
        decimal(secs / 3600) + "h "@ + decimal((secs % 3600) / 60) + "m"@
    }
}

/// Two numbers, each with its unit.
fn two_units(a: u64, a_unit: &str, b: u64, b_unit: &str) -> (r: String)
    ensures
        r@ == decimal(a as nat) + a_unit@ + decimal(b as nat) + b_unit@,
{
    let mut out = to_decimal(a);
    out.append(a_unit);
    out.append(to_decimal(b).as_str());
    out.append(b_unit);
    out
}

// ---------------------------------------------------------------------------
// Progress, messages, requests
// ---------------------------------------------------------------------------

/// The numbers of a download that several threads may share.
#[derive(Debug, Default)]
pub struct AtomicProgress {
    pub downloaded: AtomicU64,
    pub total: AtomicU64,
    pub speed: AtomicU64,
    pub segments: AtomicUsize,
}

pub type SharedProgress = Arc<AtomicProgress>;

/// What a download task tells the queue.
#[derive(Debug, PartialEq, Eq)]
pub enum DownloadEvent {
    Progress { id: String, downloaded: u64, total: u64, speed: u64, eta: u64 },
    StatusChange { id: String, status: DownloadStatus },
    Log { id: String, msg: String },
}

/// A download that the browser extension asks for.
#[derive(Debug, PartialEq, Eq)]
pub struct ApiDownloadRequest {
    pub url: String,
    pub filename: Option<String>,
    pub referrer: Option<String>,
}

// ---------------------------------------------------------------------------
// Settings
// ---------------------------------------------------------------------------

/// The settings.
#[derive(Debug, PartialEq, Eq)]
pub struct Config {
    pub save_dir: String,
    pub max_concurrent: usize,
    pub segments: usize,
    /// 0 stands for no limit.
    pub speed_limit_kbps: u64,
    pub dark_mode: bool,
    pub minimize_to_tray: bool,
    pub run_at_startup: bool,
    pub api_port: u16,
    pub api_token: String,
    pub ytdlp_path: String,
    pub ffmpeg_path: String,
    pub ytdlp_format: String,
}

impl Clone for Config {
    fn clone(&self) -> (res: Self)
        ensures
            res == *self,
    {
        Config {
            save_dir: self.save_dir.clone(),
            max_concurrent: self.max_concurrent,
            segments: self.segments,
            speed_limit_kbps: self.speed_limit_kbps,
            dark_mode: self.dark_mode,
            minimize_to_tray: self.minimize_to_tray,
            run_at_startup: self.run_at_startup,
            api_port: self.api_port,
            api_token: self.api_token.clone(),
            ytdlp_path: self.ytdlp_path.clone(),
            ffmpeg_path: self.ffmpeg_path.clone(),
            ytdlp_format: self.ytdlp_format.clone(),
        }
    }
}

impl Config {
    /// Every setting that does not depend on the user or on chance has its
    /// first value.
    pub open spec fn has_defaults(self) -> bool {
        &&& self.max_concurrent == 3
        &&& self.segments == 16
        &&& self.speed_limit_kbps == 0
        &&& self.dark_mode
        &&& self.minimize_to_tray
        &&& !self.run_at_startup
        &&& self.api_port == 9876
        &&& self.ytdlp_path@ == "yt-dlp.exe"@
        &&& self.ffmpeg_path@ == "ffmpeg.exe"@
        &&& self.ytdlp_format@ == "bestvideo+bestaudio/best"@
    }

    /// The first settings of a user with the given download folder and token.
    pub fn first(folder: Option<String>, token: String) -> (r: Self)
        ensures
            r.has_defaults(),
            r.save_dir@ == match folder {
                Some(f) => f@,
                None => "."@,
            },
            r.api_token == token,
    {
        let save_dir = match folder {
            Some(f) => f,
            None => ".".to_string(),
        };
        Config {
            save_dir,
            max_concurrent: 3,
            segments: 16,
            speed_limit_kbps: 0,
            dark_mode: true,
            minimize_to_tray: true,
            run_at_startup: false,
            api_port: 9876,
            api_token: token,
            ytdlp_path: "yt-dlp.exe".to_string(),
            ffmpeg_path: "ffmpeg.exe".to_string(),
            ytdlp_format: "bestvideo+bestaudio/best".to_string(),
        }
    }
}

impl Default for Config {
    /// The first settings: the user's download folder and a new random token.
    fn default() -> (r: Self)
        ensures
            r.has_defaults(),
            uuid_text(r.api_token@),
    {
        Config::first(download_dir(), new_uuid())
    }
}

} // verus!
