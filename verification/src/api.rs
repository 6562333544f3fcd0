//! The HTTP interface for the browser extension.
//!
//!   GET  /ping          the program is there
//!   POST /download      adds a download
//!   GET  /status/{id}   one download
//!   GET  /queue         all downloads
//!
//! Requests other than the ping and a browser's pre-flight question carry the
//! token: `Authorization: Bearer {token}`.

use crate::number::decimal;
use crate::number::number_within;
use crate::number::parse_within;
use crate::number::to_decimal;
use crate::paths::in_config;
use crate::paths::FilePath;
use crate::platform::field_views;
use crate::platform::json_object;
use crate::platform::json_object_bytes;
use crate::platform::uuid_text;
use crate::platform::Timestamp;
use crate::filename::guessed;
use crate::queue::find_item;
use crate::queue::with_id;
use crate::queue::QueueManager;
use crate::text::begins;
use crate::text::halves;
use crate::text::join2;
use crate::text::lowercase;
use crate::text::lowered;
use crate::text::pieces;
use crate::text::same;
use crate::text::split_at_char;
use crate::text::split_once;
use crate::text::starts_with;
use crate::text::trim;
use crate::text::trimmed;
use crate::text::views;
use crate::types::ApiDownloadRequest;
use vstd::hash_map::StringHashMap;
use vstd::prelude::*;
use vstd::utf8::encode_utf8;

verus! {

/// Where the token is kept for the browser extension to read.
pub fn token_file_path() -> (r: FilePath)
    ensures
        r@ == in_config("token.txt"@),
{
    FilePath::config("token.txt")
}

/// The most bytes read of a request's body.
pub const BODY_LIMIT: usize = 65536;

// ---------------------------------------------------------------------------
// The head of a request
// ---------------------------------------------------------------------------

/// The head of a request, as far as it has been read.
pub struct RequestHead {
    pub request_line: String,
    pub headers: StringHashMap<String>,
    pub content_length: usize,
}

/// The head of a request as a mathematical value.
#[verifier::ext_equal]
pub ghost struct HeadState {
    pub request_line: Seq<char>,
    /// The value of each header, by its name in lower case.
    pub headers: Map<Seq<char>, Seq<char>>,
    pub content_length: usize,
}

impl View for RequestHead {
    type V = HeadState;

    open spec fn view(&self) -> HeadState {
        HeadState {
            request_line: self.request_line@,
            headers: self.headers@.map_values(|v: String| v@),
            content_length: self.content_length,
        }
    }
}

/// The name that stands for the length of the body.
pub open spec fn is_length_header(key: Seq<char>) -> bool {
    key == "content-length"@
}

impl HeadState {
    /// The head with one more header, its name and value as they stand on the
    /// line.
    pub open spec fn with_header(self, name: Seq<char>, value: Seq<char>) -> HeadState {
        let key = lowered(trimmed(name));
        HeadState {
            headers: self.headers.insert(key, trimmed(value)),
            content_length: if is_length_header(key) {
                match number_within(trimmed(value), usize::MAX as nat) {
                    Some(n) => n as usize,
                    None => 0,
                }
            } else {
                self.content_length
            },
            ..self
        }
    }

    /// The head after one more line. A line without a colon is passed over.
    pub open spec fn after_line(self, line: Seq<char>) -> HeadState {
        match halves(trimmed(line), ':') {
            Some(h) => self.with_header(h.0, h.1),
            None => self,
        }
    }

    /// The value of the `Authorization` header, empty where there is none.
    pub open spec fn authorization(self) -> Seq<char> {
        if self.headers.contains_key("authorization"@) {
            self.headers["authorization"@]
        } else {
            ""@
        }
    }

    /// The words of the request line: the method, the path and the rest.
    pub open spec fn parts(self) -> Seq<Seq<char>> {
        pieces(self.request_line, ' ')
    }
}

impl RequestHead {
    /// A head of which the first line has been read.
    pub fn begin(line: &str) -> (r: Self)
        ensures
            r@ == (HeadState {
                request_line: trimmed(line@),
                headers: Map::empty(),
                content_length: 0,
            }),
    {
        let r = RequestHead {
            request_line: trim(line),
            headers: StringHashMap::new(),
            content_length: 0,
        };
        assert(r@.headers =~= Map::empty());
        r
    }

    /// Takes a further line. Says whether more lines follow: a line of white
    /// space ends the head.
    pub fn line(&mut self, line: &str) -> (more: bool)
        ensures
            more == (trimmed(line@).len() > 0),
            final(self)@ == if more {
                old(self)@.after_line(line@)
            } else {
                old(self)@
            },
    {
        let text = trim(line);
        if text.as_str().is_empty() {
            return false;
        }
        if let Some((name, value)) = split_once(text.as_str(), ':') {
            let name = trim(name.as_str());
            let key = lowercase(name.as_str());
            let value = trim(value.as_str());
            if same(key.as_str(), "content-length") {
                self.content_length =
                match parse_within(value.as_str(), usize::MAX as u64) {
                    Some(n) => n as usize,
                    None => 0,
                };
            }
            let ghost before = self.headers@;
            self.headers.insert(key, value);
            assert(self.headers@.map_values(|v: String| v@) =~= before.map_values(
                |v: String| v@,
            ).insert(key@, value@));
        }
        true
    }

    /// How many bytes of the body are to be read.
    pub fn body_len(&self) -> (r: usize)
        ensures
            r == if self@.content_length < BODY_LIMIT {
                self@.content_length
            } else {
                BODY_LIMIT
            },
    {
        if self.content_length < BODY_LIMIT {
            self.content_length
        } else {
            BODY_LIMIT
        }
    }
}

// ---------------------------------------------------------------------------
// What a request asks for
// ---------------------------------------------------------------------------

/// What a request asks for.
#[derive(Debug, PartialEq, Eq)]
pub enum Route {
    /// It is no request.
    BadRequest,
    /// A browser asks whether it may ask.
    Preflight,
    /// The token is missing or wrong.
    Unauthorized,
    Ping,
    Queue,
    Download,
    Status { id: String },
    NotFound,
}

/// What a request asks for, as a mathematical value.
pub ghost enum RouteView {
    BadRequest,
    Preflight,
    Unauthorized,
    Ping,
    Queue,
    Download,
    Status { id: Seq<char> },
    NotFound,
}

impl View for Route {
    type V = RouteView;

    open spec fn view(&self) -> RouteView {
        match self {
            Route::BadRequest => RouteView::BadRequest,
            Route::Preflight => RouteView::Preflight,
            Route::Unauthorized => RouteView::Unauthorized,
            Route::Ping => RouteView::Ping,
            Route::Queue => RouteView::Queue,
            Route::Download => RouteView::Download,
            Route::Status { id } => RouteView::Status { id: id@ },
            Route::NotFound => RouteView::NotFound,
        }
    }
}

/// The `Authorization` header that a token asks for.
pub open spec fn bearer(token: Seq<char>) -> Seq<char> {
    "Bearer "@ + token
}

/// Where a request leads that may be answered.
pub open spec fn endpoint(method: Seq<char>, path: Seq<char>) -> RouteView {
    if method == "GET"@ && path == "/ping"@ {
        RouteView::Ping
    } else if method == "GET"@ && path == "/queue"@ {
        RouteView::Queue
    } else if method == "POST"@ && path == "/download"@ {
        RouteView::Download
    } else if method == "GET"@ && begins(path, "/status/"@) {
        RouteView::Status { id: path.skip("/status/"@.len() as int) }
    } else {
        RouteView::NotFound
    }
}

/// What a request with the given head asks for.
pub open spec fn route_of(head: HeadState, token: Seq<char>) -> RouteView {
    let parts = head.parts();
    if parts.len() < 2 {
        RouteView::BadRequest
    } else if parts[0] == "OPTIONS"@ {
        RouteView::Preflight
    } else if parts[1] != "/ping"@ && head.authorization() != bearer(token) {
        RouteView::Unauthorized
    } else {
        endpoint(parts[0], parts[1])
    }
}

/// Where a request leads that may be answered.
fn find_endpoint(method: &str, path: &str) -> (r: Route)
    ensures
        r@ == endpoint(method@, path@),
{
    let get = same(method, "GET");
    if get && same(path, "/ping") {
        Route::Ping
    } else if get && same(path, "/queue") {
        Route::Queue
    } else if same(method, "POST") && same(path, "/download") {
        Route::Download
    } else if get && starts_with(path, "/status/") {
        let n = path.unicode_len();
        let from = "/status/".unicode_len();
        let id = path.substring_char(from, n);
        Route::Status { id: id.to_string() }
    } else {
        Route::NotFound
    }
}

/// Decides what a request asks for.
pub fn route(head: &RequestHead, token: &str) -> (r: Route)
    ensures
        r@ == route_of(head@, token@),
{
    let parts = split_at_char(head.request_line.as_str(), ' ');
    let ghost ps = views(parts@);
    assert(ps == head@.parts());
    if parts.len() < 2 {
        return Route::BadRequest;
    }
    let method = parts[0].as_str();
    let path = parts[1].as_str();
    assert(method@ == ps[0]);
    assert(path@ == ps[1]);
    if same(method, "OPTIONS") {
        return Route::Preflight;
    }
    if !same(path, "/ping") {
        let expected = join2("Bearer ", token);
        let given = match head.headers.get("authorization") {
            Some(v) => v.as_str(),
            None => "",
        };
        assert(given@ == head@.authorization());
        if !same(given, expected.as_str()) {
            return Route::Unauthorized;
        }
    }
    find_endpoint(method, path)
}

/// Without the token a request reaches neither the queue nor a download: it is
/// refused, or it is a ping, a pre-flight question or no request at all.
pub proof fn law_token_guards_the_queue(head: HeadState, token: Seq<char>)
    requires
        head.authorization() != bearer(token),
    ensures
        ({
            let r = route_of(head, token);
            &&& !(r is Queue || r is Download || r is Status)
            &&& r is Ping || r is NotFound ==> head.parts()[1] == "/ping"@
            &&& r is Unauthorized <==> head.parts().len() >= 2 && head.parts()[0] != "OPTIONS"@
                && head.parts()[1] != "/ping"@
        }),
{
    reveal_strlit("/ping");
    reveal_strlit("/queue");
    reveal_strlit("/download");
    reveal_strlit("/status/");
    assert("/ping"@ != "/queue"@) by {
        assert("/ping"@.len() != "/queue"@.len());
    }
    assert("/ping"@ != "/download"@) by {
        assert("/ping"@.len() != "/download"@.len());
    }
    assert(!begins("/ping"@, "/status/"@));
}

/// With the token a well-formed request is never refused.
pub proof fn law_token_opens_the_queue(head: HeadState, token: Seq<char>)
    requires
        head.authorization() == bearer(token),
        head.parts().len() >= 2,
        head.parts()[0] != "OPTIONS"@,
    ensures
        route_of(head, token) == endpoint(head.parts()[0], head.parts()[1]),
        !(route_of(head, token) is Unauthorized),
{
}

/// The ping is answered to anyone.
pub proof fn law_ping_needs_no_token(head: HeadState, token: Seq<char>)
    requires
        head.parts().len() >= 2,
        head.parts()[0] == "GET"@,
        head.parts()[1] == "/ping"@,
    ensures
        route_of(head, token) is Ping,
{
    reveal_strlit("GET");
    reveal_strlit("OPTIONS");
    assert("GET"@.len() != "OPTIONS"@.len());
}

/// Of a header that comes twice the last counts, whatever the case of its
/// name.
pub proof fn law_last_header_counts(
    head: HeadState,
    a: Seq<char>,
    b: Seq<char>,
    x: Seq<char>,
    y: Seq<char>,
)
    requires
        lowered(trimmed(a)) == lowered(trimmed(b)),
    ensures
        head.with_header(a, x).with_header(b, y).headers == head.with_header(b, y).headers,
        head.with_header(a, x).with_header(b, y).headers[lowered(trimmed(a))] == trimmed(y),
{
    assert(head.with_header(a, x).with_header(b, y).headers =~= head.with_header(b, y).headers);
}

// ---------------------------------------------------------------------------
// Answers
// ---------------------------------------------------------------------------

/// The status line's code and words.
pub open spec fn status_words(code: u16) -> Seq<char> {
    if code == 200 {
        "200 OK"@
    } else if code == 400 {
        "400 Bad Request"@
    } else if code == 401 {
        "401 Unauthorized"@
    } else if code == 404 {
        "404 Not Found"@
    } else {
        "500 Internal Server Error"@
    }
}

/// The head of an answer with a body of `len` bytes.
pub open spec fn answer_head(code: u16, content_type: Seq<char>, len: nat) -> Seq<char> {
    "HTTP/1.1 "@ + status_words(code) + "\r\nContent-Type: "@ + content_type
        + "\r\nContent-Length: "@ + decimal(len)
        + "\r\nAccess-Control-Allow-Origin: *\r\nAccess-Control-Allow-Headers: Authorization, Content-Type\r\nConnection: close\r\n\r\n"@
}

/// The bytes of an answer.
pub open spec fn answer_bytes(code: u16, content_type: Seq<char>, body: Seq<u8>) -> Seq<u8> {
    encode_utf8(answer_head(code, content_type, body.len())) + body
}

/// The bytes of an answer whose body is text.
pub open spec fn text_answer(code: u16, content_type: Seq<char>, body: Seq<char>) -> Seq<u8> {
    answer_bytes(code, content_type, encode_utf8(body))
}

/// The answer to a pre-flight question.
pub open spec fn preflight_text() -> Seq<char> {
    "HTTP/1.1 204 No Content\r\nAccess-Control-Allow-Origin: *\r\nAccess-Control-Allow-Methods: GET, POST, OPTIONS\r\nAccess-Control-Allow-Headers: Authorization, Content-Type\r\nConnection: close\r\n\r\n"@
}

/// The bytes of an answer.
pub fn respond(code: u16, content_type: &str, body: &[u8]) -> (r: Vec<u8>)
    ensures
        r@ == answer_bytes(code, content_type@, body@),
{
    let status = if code == 200 {
        "200 OK"
    } else if code == 400 {
        "400 Bad Request"
    } else if code == 401 {
        "401 Unauthorized"
    } else if code == 404 {
        "404 Not Found"
    } else {
        "500 Internal Server Error"
    };
    let mut head = String::new();
    head.append("HTTP/1.1 ");
    head.append(status);
    head.append("\r\nContent-Type: ");
    head.append(content_type);
    head.append("\r\nContent-Length: ");
    head.append(to_decimal(body.len() as u64).as_str());
    head.append(
        "\r\nAccess-Control-Allow-Origin: *\r\nAccess-Control-Allow-Headers: Authorization, Content-Type\r\nConnection: close\r\n\r\n",
    );
    assert(head@ == answer_head(code, content_type@, body@.len()));
    let mut out = head.as_str().as_bytes_vec();
    let ghost before = out@;
    let mut i: usize = 0;
    while i < body.len()
        invariant
            i <= body@.len(),
            out@ == before + body@.take(i as int),
        decreases body@.len() - i,
    {
        out.push(body[i]);
        assert(body@.take(i + 1) == body@.take(i as int).push(body@[i as int]));
        i += 1;
    }
    assert(body@.take(i as int) == body@);
    out
}

/// The bytes of an answer whose body is JSON.
pub fn respond_json(code: u16, body: &[u8]) -> (r: Vec<u8>)
    ensures
        r@ == answer_bytes(code, "application/json"@, body@),
{
    respond(code, "application/json", body)
}

/// The answer to a pre-flight question.
pub fn respond_cors() -> (r: Vec<u8>)
    ensures
        r@ == encode_utf8(preflight_text()),
{
    "HTTP/1.1 204 No Content\r\nAccess-Control-Allow-Origin: *\r\nAccess-Control-Allow-Methods: GET, POST, OPTIONS\r\nAccess-Control-Allow-Headers: Authorization, Content-Type\r\nConnection: close\r\n\r\n".as_bytes_vec()
}

/// The bytes of a JSON answer with one named text.
pub open spec fn one_field(code: u16, name: Seq<char>, value: Seq<char>) -> Seq<u8> {
    answer_bytes(code, "application/json"@, json_object_bytes(seq![(name, value)]))
}

/// The bytes of a JSON answer with two named texts.
pub open spec fn two_fields(
    code: u16,
    name1: Seq<char>,
    value1: Seq<char>,
    name2: Seq<char>,
    value2: Seq<char>,
) -> Seq<u8> {
    answer_bytes(
        code,
        "application/json"@,
        json_object_bytes(seq![(name1, value1), (name2, value2)]),
    )
}

/// What becomes of a request.
#[derive(Debug, PartialEq, Eq)]
pub enum Reply {
    /// These bytes are sent.
    Bytes { bytes: Vec<u8> },
    /// The downloads in the queue are sent as JSON.
    Items,
    /// The download at `index` in the queue is sent as JSON.
    Item { index: usize },
    /// The connection is closed without an answer, for the given reason.
    Close { msg: String },
}

/// A reply of the bytes `bytes`.
pub open spec fn sends(r: Reply, bytes: Seq<u8>) -> bool {
    r matches Reply::Bytes { bytes: b } && b@ == bytes
}

/// The answer to a download that has been queued.
pub fn queued_answer(id: &str) -> (r: Vec<u8>)
    ensures
        r@ == two_fields(200, "id"@, id@, "status"@, "queued"@),
{
    let mut fields: Vec<(String, String)> = Vec::new();
    fields.push(("id".to_string(), id.to_string()));
    fields.push(("status".to_string(), "queued".to_string()));
    assert(field_views(fields@) =~= seq![("id"@, id@), ("status"@, "queued"@)]);
    let body = json_object(fields);
    respond_json(200, body.as_slice())
}

/// Answers a request. `request` is the body of a request to download, or what
/// its reader said where it could not be read; no other request looks at it.
pub fn answer(
    queue: &mut QueueManager,
    route: Route,
    request: Result<ApiDownloadRequest, String>,
) -> (r: Reply)
    ensures
        !(route is Download && request is Ok) ==> final(queue)@ == old(queue)@,
        match route {
            Route::BadRequest => sends(r, text_answer(400, "text/plain"@, "Bad Request"@)),
            Route::Preflight => sends(r, encode_utf8(preflight_text())),
            Route::Unauthorized => sends(
                r,
                text_answer(401, "application/json"@, "{\"error\":\"Unauthorized\"}"@),
            ),
            Route::Ping => sends(r, two_fields(200, "status"@, "ok"@, "app"@, "YDM"@)),
            Route::Queue => r == Reply::Items,
            Route::Download => match request {
                Ok(q) => exists|id: String, at: Timestamp, name: String|
                    {
                        &&& uuid_text(id@)
                        &&& at.nanos < 1_000_000_000
                        &&& match q.filename {
                            Some(f) => name == f,
                            None => guessed(q.url@, name@),
                        }
                        &&& final(queue)@ == #[trigger] old(queue)@.added(id, at, q.url, name)
                        &&& sends(r, two_fields(200, "id"@, id@, "status"@, "queued"@))
                    },
                Err(e) => r matches Reply::Close { msg } && msg@ == "Bad request body: "@ + e@,
            },
            Route::Status { id } => match with_id(old(queue)@.items, id@, 0) {
                Some(i) => r == (Reply::Item { index: i as usize }),
                None => sends(r, one_field(404, "error"@, "Not found"@)),
            },
            Route::NotFound => sends(r, text_answer(404, "text/plain"@, "Not Found"@)),
        },
{
    match route {
        Route::BadRequest => Reply::Bytes {
            bytes: respond(400, "text/plain", "Bad Request".as_bytes()),
        },
        Route::Preflight => Reply::Bytes { bytes: respond_cors() },
        Route::Unauthorized => Reply::Bytes {
            bytes: respond(401, "application/json", "{\"error\":\"Unauthorized\"}".as_bytes()),
        },
        Route::Ping => {
            let mut fields: Vec<(String, String)> = Vec::new();
            fields.push(("status".to_string(), "ok".to_string()));
            fields.push(("app".to_string(), "YDM".to_string()));
            assert(field_views(fields@) =~= seq![("status"@, "ok"@), ("app"@, "YDM"@)]);
            let body = json_object(fields);
            Reply::Bytes { bytes: respond_json(200, body.as_slice()) }
        },
        Route::Queue => Reply::Items,
        Route::Download => match request {
            Ok(q) => {
                let id = queue.add(q.url, q.filename, q.referrer);
                Reply::Bytes { bytes: queued_answer(id.as_str()) }
            },
            Err(e) => Reply::Close { msg: join2("Bad request body: ", e.as_str()) },
        },
        Route::Status { id } => match find_item(&queue.items, id.as_str()) {
            Some(i) => Reply::Item { index: i },
            None => {
                let mut fields: Vec<(String, String)> = Vec::new();
                fields.push(("error".to_string(), "Not found".to_string()));
                assert(field_views(fields@) =~= seq![("error"@, "Not found"@)]);
                let body = json_object(fields);
                Reply::Bytes { bytes: respond_json(404, body.as_slice()) }
            },
        },
        Route::NotFound => Reply::Bytes {
            bytes: respond(404, "text/plain", "Not Found".as_bytes()),
        },
    }
}

} // verus!
