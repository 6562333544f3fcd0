use ydm::api::answer;
use ydm::api::respond;
use ydm::api::respond_cors;
use ydm::api::respond_json;
use ydm::api::route;
use ydm::api::token_file_path;
use ydm::api::Reply;
use ydm::api::RequestHead;
use ydm::api::Route;
use ydm::paths::PathBase;
use ydm::queue::QueueManager;
use ydm::types::ApiDownloadRequest;
use ydm::types::Config;

fn head(line: &str, headers: &[&str]) -> RequestHead {
    let mut h = RequestHead::begin(line);
    for x in headers {
        assert!(h.line(x));
    }
    assert!(!h.line("\r\n"));
    h
}

fn routed(line: &str, auth: &str) -> Route {
    route(&head(line, &[&format!("Authorization: {}\r\n", auth)]), "SECRET")
}

fn queue() -> QueueManager {
    QueueManager::new(Config::first(None, "SECRET".to_string()), Vec::new())
}

fn sent(r: Reply) -> String {
    match r {
        Reply::Bytes { bytes } => String::from_utf8(bytes).unwrap(),
        _ => panic!("bytes were expected"),
    }
}

fn no_body() -> Result<ApiDownloadRequest, String> {
    Err("no body".to_string())
}

const TAIL: &str = "\r\nAccess-Control-Allow-Origin: *\r\nAccess-Control-Allow-Headers: Authorization, Content-Type\r\nConnection: close\r\n\r\n";

#[test]
fn the_token_file() {
    let p = token_file_path();
    assert_eq!(p.base, PathBase::ConfigDir);
    assert_eq!(p.parts, vec!["YDM", "token.txt"]);
}

#[test]
fn heads_hold_the_last_header_of_a_name() {
    let h = head(
        "POST /download HTTP/1.1\r\n",
        &["Content-Length: 12\r\n", "no header\r\n", "CONTENT-LENGTH : 15\r\n"],
    );
    assert_eq!(h.request_line, "POST /download HTTP/1.1");
    assert_eq!(h.content_length, 15);
    assert_eq!(h.body_len(), 15);
    assert_eq!(h.headers.get("content-length"), Some(&"15".to_string()));
}

#[test]
fn bodies_are_limited() {
    assert_eq!(head("GET / HTTP/1.1", &[]).body_len(), 0);
    assert_eq!(head("GET / HTTP/1.1", &["Content-Length: 70000"]).body_len(), 65536);
    assert_eq!(head("GET / HTTP/1.1", &["Content-Length: 5", "Content-Length: x"]).body_len(), 0);
}

#[test]
fn routes() {
    let ok = "Bearer SECRET";
    assert_eq!(routed("GET /ping HTTP/1.1", ok), Route::Ping);
    assert_eq!(routed("GET /queue HTTP/1.1", ok), Route::Queue);
    assert_eq!(routed("POST /download HTTP/1.1", ok), Route::Download);
    assert_eq!(
        routed("GET /status/abc HTTP/1.1", ok),
        Route::Status { id: "abc".to_string() }
    );
    assert_eq!(routed("GET /status/ HTTP/1.1", ok), Route::Status { id: String::new() });
    assert_eq!(routed("GET /download HTTP/1.1", ok), Route::NotFound);
    assert_eq!(routed("POST /status/abc HTTP/1.1", ok), Route::NotFound);
    assert_eq!(routed("get /queue HTTP/1.1", ok), Route::NotFound);
    assert_eq!(routed("GET", ok), Route::BadRequest);
    assert_eq!(routed("", ok), Route::BadRequest);
}

#[test]
fn the_token_guards_the_queue() {
    for auth in ["", "SECRET", "Bearer", "Bearer secret", "bearer SECRET", "Bearer SECRET2"] {
        assert_eq!(routed("GET /queue HTTP/1.1", auth), Route::Unauthorized);
        assert_eq!(routed("POST /download HTTP/1.1", auth), Route::Unauthorized);
        assert_eq!(routed("GET /status/abc HTTP/1.1", auth), Route::Unauthorized);
        assert_eq!(routed("GET /nowhere HTTP/1.1", auth), Route::Unauthorized);
    }
    assert_eq!(route(&head("GET /queue HTTP/1.1", &[]), "SECRET"), Route::Unauthorized);
}

#[test]
fn ping_and_preflight_need_no_token() {
    assert_eq!(route(&head("GET /ping HTTP/1.1", &[]), "SECRET"), Route::Ping);
    assert_eq!(route(&head("OPTIONS /queue HTTP/1.1", &[]), "SECRET"), Route::Preflight);
    assert_eq!(route(&head("POST /ping HTTP/1.1", &[]), "SECRET"), Route::NotFound);
}

#[test]
fn responses_as_bytes() {
    let text = String::from_utf8(respond(200, "text/plain", "hé".as_bytes())).unwrap();
    assert_eq!(
        text,
        format!("HTTP/1.1 200 OK\r\nContent-Type: text/plain\r\nContent-Length: 3{}hé", TAIL)
    );
    let text = String::from_utf8(respond(418, "x", b"")).unwrap();
    assert!(text.starts_with("HTTP/1.1 500 Internal Server Error\r\n"));
    let text = String::from_utf8(respond_json(404, b"{}")).unwrap();
    assert_eq!(
        text,
        format!(
            "HTTP/1.1 404 Not Found\r\nContent-Type: application/json\r\nContent-Length: 2{}{{}}",
            TAIL
        )
    );
}

#[test]
fn the_answer_to_a_preflight() {
    let text = String::from_utf8(respond_cors()).unwrap();
    assert_eq!(
        text,
        "HTTP/1.1 204 No Content\r\nAccess-Control-Allow-Origin: *\r\nAccess-Control-Allow-Methods: GET, POST, OPTIONS\r\nAccess-Control-Allow-Headers: Authorization, Content-Type\r\nConnection: close\r\n\r\n"
    );
    assert_eq!(sent(answer(&mut queue(), Route::Preflight, no_body())), text);
}

#[test]
fn plain_answers() {
    let mut q = queue();
    assert_eq!(
        sent(answer(&mut q, Route::BadRequest, no_body())),
        format!(
            "HTTP/1.1 400 Bad Request\r\nContent-Type: text/plain\r\nContent-Length: 11{}Bad Request",
            TAIL
        )
    );
    assert_eq!(
        sent(answer(&mut q, Route::Unauthorized, no_body())),
        format!(
            "HTTP/1.1 401 Unauthorized\r\nContent-Type: application/json\r\nContent-Length: 24{}{{\"error\":\"Unauthorized\"}}",
            TAIL
        )
    );
    assert_eq!(
        sent(answer(&mut q, Route::NotFound, no_body())),
        format!(
            "HTTP/1.1 404 Not Found\r\nContent-Type: text/plain\r\nContent-Length: 9{}Not Found",
            TAIL
        )
    );
}

#[test]
fn the_answer_to_a_ping() {
    let text = sent(answer(&mut queue(), Route::Ping, no_body()));
    let (start, body) = text.split_once("\r\n\r\n").unwrap();
    assert!(start.starts_with("HTTP/1.1 200 OK\r\nContent-Type: application/json\r\n"));
    let value: serde_json::Value = serde_json::from_str(body).unwrap();
    assert_eq!(value["status"], "ok");
    assert_eq!(value["app"], "YDM");
    assert_eq!(value.as_object().unwrap().len(), 2);
}

#[test]
fn a_download_is_added_and_answered() {
    let mut q = queue();
    let request = ApiDownloadRequest {
        url: "http://h/a.zip".to_string(),
        filename: None,
        referrer: None,
    };
    let text = sent(answer(&mut q, Route::Download, Ok(request)));
    let body = text.split_once("\r\n\r\n").unwrap().1;
    let value: serde_json::Value = serde_json::from_str(body).unwrap();
    assert_eq!(q.items.len(), 1);
    assert_eq!(value["id"], q.items[0].id.as_str());
    assert_eq!(value["status"], "queued");
    assert_eq!(q.items[0].filename, "a.zip");
}

#[test]
fn a_body_that_cannot_be_read_closes() {
    let mut q = queue();
    assert_eq!(
        answer(&mut q, Route::Download, Err("expected value".to_string())),
        Reply::Close { msg: "Bad request body: expected value".to_string() }
    );
    assert_eq!(q.items.len(), 0);
}

#[test]
fn items_by_identifier() {
    let mut q = queue();
    let id = q.add("http://h/a.zip".to_string(), None, None);
    let other = q.add("http://h/b.zip".to_string(), None, None);
    assert_eq!(answer(&mut q, Route::Queue, no_body()), Reply::Items);
    assert_eq!(answer(&mut q, Route::Status { id }, no_body()), Reply::Item { index: 0 });
    assert_eq!(answer(&mut q, Route::Status { id: other }, no_body()), Reply::Item { index: 1 });
    let text = sent(answer(&mut q, Route::Status { id: "none".to_string() }, no_body()));
    assert!(text.starts_with("HTTP/1.1 404 Not Found\r\nContent-Type: application/json\r\n"));
    assert!(text.ends_with("{\"error\":\"Not found\"}"));
}
