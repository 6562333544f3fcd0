//! What comes from other crates: identifiers, the clock, the user's download
//! folder, the wording of sizes and times, JSON objects.
//!
//! Each function here makes one call and is believed, not proved.

use vstd::prelude::*;

verus! {

/// A moment: seconds since the beginning of 1970 (UTC) and nanoseconds.
#[derive(Clone, Copy, Debug, PartialEq, Eq, Structural)]
pub struct Timestamp {
    pub secs: i64,
    pub nanos: u32,
}

/// `c` is a lower-case hexadecimal digit.
pub open spec fn lower_hex(c: char) -> bool {
    '0' <= c <= '9' || 'a' <= c <= 'f'
}

/// The text form of a random UUID: five groups of lower-case hexadecimal
/// digits joined by hyphens, with the version and variant marks.
pub open spec fn uuid_text(s: Seq<char>) -> bool {
    &&& s.len() == 36
    &&& forall|i: int|
        0 <= i < 36 ==> if i == 8 || i == 13 || i == 18 || i == 23 {
            #[trigger] s[i] == '-'
        } else {
            lower_hex(s[i])
        }
    &&& s[14] == '4'
    &&& (s[19] == '8' || s[19] == '9' || s[19] == 'a' || s[19] == 'b')
}

/// `uuid::Uuid::new_v4` and the `Display` form of what it returns. The bytes
/// are random; claimed is only the shape that every such text has. It does not
/// return if the operating system gives no random bytes.
#[verifier::external_body]
pub(crate) fn new_uuid() -> (r: String)
    ensures
        uuid_text(r@),
{
    uuid::Uuid::new_v4().to_string()
}

/// What `chrono::DateTime::to_rfc3339` writes for a moment, if the moment is
/// one that chrono can hold.
pub uninterp spec fn rfc3339_text(secs: i64, nanos: u32) -> Option<Seq<char>>;

/// What `chrono::DateTime::format` writes for a moment under a format, if the
/// moment is one that chrono can hold.
pub uninterp spec fn time_text(secs: i64, nanos: u32, format: Seq<char>) -> Option<Seq<char>>;

/// `chrono::Utc::now`, as seconds and nanoseconds. The moment is the clock's;
/// claimed is that the nanoseconds are less than a second, and that chrono can
/// hold the moment again. It does not return if the clock stands before 1970.
#[verifier::external_body]
pub(crate) fn now() -> (r: Timestamp)
    ensures
        r.nanos < 1_000_000_000,
        rfc3339_text(r.secs, r.nanos) is Some,
{
    let t = chrono::Utc::now();
    Timestamp { secs: t.timestamp(), nanos: t.timestamp_subsec_nanos() }
}

/// `chrono::DateTime::from_timestamp` and `to_rfc3339`. The text is named; it
/// depends on the moment alone.
#[verifier::external_body]
pub(crate) fn rfc3339(t: Timestamp) -> (r: Option<String>)
    ensures
        match r {
            Some(s) => rfc3339_text(t.secs, t.nanos) == Some(s@),
            None => rfc3339_text(t.secs, t.nanos) is None,
        },
{
    chrono::DateTime::from_timestamp(t.secs, t.nanos).map(|d| d.to_rfc3339())
}

/// `chrono::DateTime::from_timestamp` and `format`. The text is named; it
/// depends on the moment and the format alone. A format that chrono does not
/// know is left out, since writing it would not succeed.
#[verifier::external_body]
pub(crate) fn format_time(t: Timestamp, format: &str) -> (r: Option<String>)
    requires
        format@ == "%Y-%m-%d %H:%M"@,
    ensures
        match r {
            Some(s) => time_text(t.secs, t.nanos, format@) == Some(s@),
            None => time_text(t.secs, t.nanos, format@) is None,
        },
{
    chrono::DateTime::from_timestamp(t.secs, t.nanos).map(|d| d.format(format).to_string())
}

/// What `humansize::format_size` writes for a number of bytes with the
/// options `humansize::BINARY`.
pub uninterp spec fn binary_size_text(bytes: u64) -> Seq<char>;

/// `humansize::format_size` with `humansize::BINARY`: powers of 1024 with the
/// units B, KiB, MiB and so on. The text is named; it depends on the number
/// alone.
#[verifier::external_body]
pub(crate) fn binary_size(bytes: u64) -> (r: String)
    ensures
        r@ == binary_size_text(bytes),
{
    humansize::format_size(bytes, humansize::BINARY)
}

/// `dirs::download_dir`, as text. It depends on the user and the machine;
/// nothing is claimed of it. It does not return if the user's file of folders
/// is malformed.
#[verifier::external_body]
pub(crate) fn download_dir() -> (r: Option<String>) {
    dirs::download_dir().map(|p| p.to_string_lossy().to_string())
}

/// The bytes that `serde_json::to_vec` writes for an object whose fields are
/// these names and texts.
pub uninterp spec fn json_object_bytes(fields: Seq<(Seq<char>, Seq<char>)>) -> Seq<u8>;

/// The views of a list of named texts.
pub open spec fn field_views(fields: Seq<(String, String)>) -> Seq<(Seq<char>, Seq<char>)> {
    fields.map_values(|f: (String, String)| (f.0@, f.1@))
}

/// `serde_json::to_vec` on an object of texts, which always succeeds: its keys
/// are texts. The bytes are named; they depend on the fields alone.
#[verifier::external_body]
pub(crate) fn json_object(fields: Vec<(String, String)>) -> (r: Vec<u8>)
    ensures
        r@ == json_object_bytes(field_views(fields@)),
{
    let map = fields.into_iter().map(|(k, v)| (k, serde_json::Value::String(v))).collect();
    serde_json::to_vec(&serde_json::Value::Object(map)).unwrap_or_default()
}

} // verus!
