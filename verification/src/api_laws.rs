//! What holds of the HTTP interface, whatever is asked.

use crate::api::answer_bytes;
use crate::api::answer_head;
use crate::api::one_field;
use crate::api::preflight_text;
use crate::api::sends;
use crate::api::route_of;
use crate::api::status_words;
use crate::api::text_answer;
use crate::api::two_fields;
use crate::api::HeadState;
use crate::api::Reply;
use crate::api::RouteView;
use crate::number::decimal;
use crate::number::number;
use crate::platform::json_object_bytes;
use crate::text::begins;
use crate::text::ends;
use crate::text::halves;
use crate::text::holds;
use crate::text::lemma_one_piece;
use crate::text::lemma_pieces_joined;
use crate::text::lowered;
use crate::text::pieces;
use crate::text::trimmed;
use crate::text::white;
use crate::text_laws::law_begins;
use crate::text_laws::law_decimal_is_plain;
use crate::text_laws::law_ends;
use crate::text_laws::law_halves_of_joined;
use crate::text_laws::law_holds_middle;
use crate::text_laws::law_trimming_finds_the_text;
use vstd::prelude::*;
use vstd::utf8::encode_utf8;
use vstd::utf8::is_ascii_chars;

verus! {

// ---------------------------------------------------------------------------
// Reading a request
// ---------------------------------------------------------------------------

/// The request line is read as the method, the path and the rest, between
/// spaces.
pub proof fn law_request_line_reads_back(
    head: HeadState,
    method: Seq<char>,
    path: Seq<char>,
    rest: Seq<char>,
)
    requires
        !method.contains(' '),
        !path.contains(' '),
        head.request_line == method.push(' ') + (path.push(' ') + rest),
    ensures
        head.parts().len() >= 3,
        head.parts()[0] == method,
        head.parts()[1] == path,
{
    assert forall|i: int| 0 <= i < method.len() implies #[trigger] method[i] != ' ' by {
        assert(method.contains(method[i]));
    }
    assert forall|i: int| 0 <= i < path.len() implies #[trigger] path[i] != ' ' by {
        assert(path.contains(path[i]));
    }
    lemma_one_piece(method, ' ');
    lemma_one_piece(path, ' ');
    lemma_pieces_joined(path, ' ', rest);
    lemma_pieces_joined(method, ' ', path.push(' ') + rest);
    crate::text::lemma_pieces_nonempty(rest, ' ');
    assert(pieces(head.request_line, ' ') =~= seq![method] + (seq![path] + pieces(rest, ' ')));
}

/// A header line is kept under its name in lower case, with its value, and
/// changes nothing else but, for the length of the body, that length.
pub proof fn law_header_line_reads_back(head: HeadState, name: Seq<char>, value: Seq<char>)
    requires
        name.len() > 0,
        !name.contains(':'),
        !white(name[0]),
        !white(name.last()),
        value.len() > 0,
        !white(value[0]),
        !white(value.last()),
    ensures
        head.after_line(name + ": "@ + value).headers == head.headers.insert(lowered(name), value),
        head.after_line(name + ": "@ + value).request_line == head.request_line,
        lowered(name) != "content-length"@ ==> head.after_line(name + ": "@ + value).content_length
            == head.content_length,
{
    reveal_strlit(": ");
    let line = name + ": "@ + value;
    assert(line[0] == name[0]);
    assert(line.last() == value.last());
    law_trimming_finds_the_text(Seq::empty(), line, Seq::empty());
    assert(line =~= name.push(':') + (seq![' '] + value));
    law_halves_of_joined(name, ':', seq![' '] + value);
    law_trimming_finds_the_text(Seq::empty(), name, Seq::empty());
    law_trimming_finds_the_text(seq![' '], value, Seq::empty());
    assert(seq![' '] + value + Seq::<char>::empty() =~= seq![' '] + value);
}

/// A line without a colon changes nothing.
pub proof fn law_line_without_colon(head: HeadState, line: Seq<char>)
    requires
        !trimmed(line).contains(':'),
    ensures
        head.after_line(line) == head,
{
    crate::text_laws::law_halves(trimmed(line), ':');
    if let Some(h) = halves(trimmed(line), ':') {
        let t = h.0.push(':') + h.1;
        assert(t[h.0.len() as int] == ':');
        assert(trimmed(line).contains(':'));
    }
}

/// The length of the body is read from its header, whatever the case of the
/// header's name.
pub proof fn law_body_length_reads_back(head: HeadState, name: Seq<char>, n: nat)
    requires
        is_ascii_chars(name),
        lowered(name) == "content-length"@,
        n <= usize::MAX,
    ensures
        head.after_line(name + ": "@ + decimal(n)).content_length == n,
{
    reveal_strlit(": ");
    reveal_strlit("content-length");
    let value = decimal(n);
    law_decimal_is_plain(n);
    lemma_plain_name(name, "content-length"@);
    lemma_digits_are_not_white(value);
    let line = name + ": "@ + value;
    assert(line[0] == name[0]);
    assert(line.last() == value.last());
    law_trimming_finds_the_text(Seq::empty(), line, Seq::empty());
    assert(line =~= name.push(':') + (seq![' '] + value));
    law_halves_of_joined(name, ':', seq![' '] + value);
    law_trimming_finds_the_text(Seq::empty(), name, Seq::empty());
    law_trimming_finds_the_text(seq![' '], value, Seq::empty());
    assert(seq![' '] + value + Seq::<char>::empty() =~= seq![' '] + value);
}

/// A length that is no number, or is greater than a length can be, counts as
/// none; any other header leaves the length as it was.
pub proof fn law_unread_length(head: HeadState, name: Seq<char>, value: Seq<char>)
    ensures
        lowered(trimmed(name)) == "content-length"@ && number(trimmed(value)) is None
            ==> head.with_header(name, value).content_length == 0,
        lowered(trimmed(name)) == "content-length"@ && (number(trimmed(value)) matches Some(n) && n
            > usize::MAX) ==> head.with_header(name, value).content_length == 0,
        lowered(trimmed(name)) != "content-length"@ ==> head.with_header(name, value).content_length
            == head.content_length,
{
}

/// Digits are not white space.
proof fn lemma_digits_are_not_white(d: Seq<char>)
    requires
        d.len() > 0,
        forall|i: int| 0 <= i < d.len() ==> 48 <= #[trigger] d[i] as u32 <= 57,
        number(d) is Some,
    ensures
        !white(d[0]),
        !white(d.last()),
{
    crate::text_laws::law_number_form(d);
    assert(d.last() == d[d.len() - 1]);
}

/// A name that is letters and hyphens in lower case holds no colon and neither
/// begins nor ends with white space.
proof fn lemma_plain_name(name: Seq<char>, low: Seq<char>)
    requires
        is_ascii_chars(name),
        lowered(name) == low,
        low.len() > 0,
        forall|i: int| 0 <= i < low.len() ==> 'a' <= #[trigger] low[i] <= 'z' || low[i] == '-',
    ensures
        name.len() > 0,
        !name.contains(':'),
        !white(name[0]),
        !white(name.last()),
{
    crate::text_laws::law_lowered(name);
    assert forall|i: int| 0 <= i < name.len() implies #[trigger] name[i] != ':' && !white(
        name[i],
    ) by {
        assert('\0' <= name[i] <= '\u{7f}');
        assert('a' <= low[i] <= 'z' || low[i] == '-');
        assert(lowered(name)[i] == low[i]);
    }
    if name.contains(':') {
        let k = choose|k: int| 0 <= k < name.len() && name[k] == ':';
        assert(name[k] != ':');
    }
    assert(name[0] != ':');
    assert(name[name.len() - 1] != ':');
}

/// The token is read from its header, whatever the case of the header's name.
pub proof fn law_token_reads_back(head: HeadState, name: Seq<char>, token: Seq<char>)
    requires
        is_ascii_chars(name),
        lowered(name) == "authorization"@,
        token.len() > 0,
        !white(token.last()),
    ensures
        head.after_line(name + ": "@ + ("Bearer "@ + token)).authorization() == "Bearer "@ + token,
        head.after_line(name + ": "@ + ("Bearer "@ + token)).request_line == head.request_line,
{
    reveal_strlit("authorization");
    reveal_strlit("Bearer ");
    lemma_plain_name(name, "authorization"@);
    let value = "Bearer "@ + token;
    assert(value[0] == 'B');
    assert(value.last() == token.last());
    law_header_line_reads_back(head, name, value);
}

// ---------------------------------------------------------------------------
// What a request asks for
// ---------------------------------------------------------------------------

/// The status path reads back: with the token, asking for the status of an
/// identifier leads to the status of exactly that identifier.
pub proof fn law_status_path_reads_back(
    head: HeadState,
    token: Seq<char>,
    id: Seq<char>,
    rest: Seq<char>,
)
    requires
        !id.contains(' '),
        head.request_line == "GET /status/"@ + id + " "@ + rest,
        head.authorization() == "Bearer "@ + token,
    ensures
        route_of(head, token) == (RouteView::Status { id }),
{
    reveal_strlit("GET");
    reveal_strlit("POST");
    reveal_strlit("OPTIONS");
    reveal_strlit("/status/");
    reveal_strlit("/ping");
    reveal_strlit("/queue");
    reveal_strlit("/download");
    reveal_strlit("GET /status/");
    reveal_strlit(" ");
    let path = "/status/"@ + id;
    assert("GET /status/"@ + id + " "@ + rest =~= "GET"@.push(' ') + (path.push(' ') + rest));
    if path.contains(' ') {
        let k = choose|k: int| 0 <= k < path.len() && path[k] == ' ';
        assert(id[k - 8] == ' ');
        assert(id.contains(' '));
    }
    law_request_line_reads_back(head, "GET"@, path, rest);
    law_begins(id, "/status/"@);
    assert(path.skip(8) =~= id);
    assert(path[1] == 's');
    assert("/ping"@[1] == 'p');
    assert("/queue"@[1] == 'q');
    assert("GET"@.len() != "OPTIONS"@.len());
}

/// With the token the queue, a download and the ping are reached under their
/// method and path, and nothing else leads there.
pub proof fn law_routes(head: HeadState, token: Seq<char>)
    requires
        head.parts().len() >= 2,
        head.authorization() == "Bearer "@ + token,
    ensures
        route_of(head, token) is Preflight <==> head.parts()[0] == "OPTIONS"@,
        route_of(head, token) is Ping <==> head.parts()[0] == "GET"@ && head.parts()[1]
            == "/ping"@,
        route_of(head, token) is Queue <==> head.parts()[0] == "GET"@ && head.parts()[1]
            == "/queue"@,
        route_of(head, token) is Download <==> head.parts()[0] == "POST"@ && head.parts()[1]
            == "/download"@,
        route_of(head, token) is Status <==> head.parts()[0] == "GET"@ && begins(
            head.parts()[1],
            "/status/"@,
        ),
        !(route_of(head, token) is Unauthorized) && !(route_of(head, token) is BadRequest),
{
    reveal_strlit("GET");
    reveal_strlit("POST");
    reveal_strlit("OPTIONS");
    reveal_strlit("/status/");
    reveal_strlit("/ping");
    reveal_strlit("/queue");
    reveal_strlit("/download");
    assert("GET"@.len() != "OPTIONS"@.len());
    assert("GET"@.len() != "POST"@.len());
    assert("POST"@.len() != "OPTIONS"@.len());
    assert("/ping"@.len() != "/queue"@.len());
    assert(!begins("/ping"@, "/status/"@));
    assert(!begins("/queue"@, "/status/"@));
}

/// A request that does not carry exactly the token is refused, but for the ping
/// and a browser's pre-flight question; a line that is no request is no request
/// with any token.
pub proof fn law_only_the_token_opens(head: HeadState, token: Seq<char>)
    ensures
        route_of(head, token) is BadRequest <==> head.parts().len() < 2,
        head.parts().len() >= 2 && head.authorization() != "Bearer "@ + token ==> {
            &&& route_of(head, token) is Preflight <==> head.parts()[0] == "OPTIONS"@
            &&& route_of(head, token) is Unauthorized <==> head.parts()[0] != "OPTIONS"@
                && head.parts()[1] != "/ping"@
            &&& head.parts()[0] == "GET"@ && head.parts()[1] == "/ping"@ ==> route_of(
                head,
                token,
            ) is Ping
        },
{
    reveal_strlit("GET");
    reveal_strlit("OPTIONS");
    assert("GET"@.len() != "OPTIONS"@.len());
}

// ---------------------------------------------------------------------------
// Answers
// ---------------------------------------------------------------------------

/// The words of a status begin with its code; a code that is not known is told
/// as a failure of the server.
pub proof fn law_status_words(code: u16)
    ensures
        code == 200 || code == 400 || code == 401 || code == 404 ==> begins(
            status_words(code),
            decimal(code as nat) + " "@,
        ),
        !(code == 200 || code == 400 || code == 401 || code == 404) ==> begins(
            status_words(code),
            decimal(500) + " "@,
        ),
{
    reveal_strlit("200 OK");
    reveal_strlit("400 Bad Request");
    reveal_strlit("401 Unauthorized");
    reveal_strlit("404 Not Found");
    reveal_strlit("500 Internal Server Error");
    reveal_strlit(" ");
    reveal_with_fuel(decimal, 4);
    let shown: nat = if code == 200 || code == 400 || code == 401 || code == 404 {
        code as nat
    } else {
        500
    };
    let start = decimal(shown) + " "@;
    assert(start.len() == 4);
    assert(status_words(code).subrange(0, 4) =~= start);
}

/// The head of an answer tells its status first, the type and the length of the
/// body in lines of their own, that any page may read it, and ends with an empty
/// line.
pub proof fn law_answer_head(code: u16, content_type: Seq<char>, len: nat)
    ensures
        begins(answer_head(code, content_type, len), "HTTP/1.1 "@ + status_words(code) + "\r\n"@),
        holds(
            answer_head(code, content_type, len),
            "\r\nContent-Type: "@ + content_type + "\r\n"@,
        ),
        holds(answer_head(code, content_type, len), "\r\nContent-Length: "@ + decimal(len) + "\r\n"@),
        holds(answer_head(code, content_type, len), "\r\nAccess-Control-Allow-Origin: *\r\n"@),
        ends(answer_head(code, content_type, len), "\r\nConnection: close\r\n\r\n"@),
{
    reveal_strlit("\r\n");
    reveal_strlit("\r\nContent-Type: ");
    reveal_strlit("\r\nContent-Length: ");
    reveal_strlit("\r\nAccess-Control-Allow-Origin: *\r\n");
    reveal_strlit("\r\nConnection: close\r\n\r\n");
    reveal_strlit(
        "\r\nAccess-Control-Allow-Origin: *\r\nAccess-Control-Allow-Headers: Authorization, Content-Type\r\nConnection: close\r\n\r\n",
    );
    let tail = "\r\nAccess-Control-Allow-Origin: *\r\nAccess-Control-Allow-Headers: Authorization, Content-Type\r\nConnection: close\r\n\r\n"@;
    let start = "HTTP/1.1 "@ + status_words(code);
    let kind = "\r\nContent-Type: "@ + content_type;
    let size = "\r\nContent-Length: "@ + decimal(len);
    let head = answer_head(code, content_type, len);
    let nl = "\r\n"@;
    assert(head =~= start + kind + size + tail);
    // The status line.
    let after = kind.skip(2) + size + tail;
    assert(head =~= (start + nl) + after);
    law_begins(after, start + nl);
    // The type.
    let after_type = size.skip(2) + tail;
    assert(head =~= start + (kind + nl) + after_type);
    law_holds_middle(start, kind + nl, after_type);
    // The length.
    assert(head =~= (start + kind) + (size + nl) + tail.skip(2));
    law_holds_middle(start + kind, size + nl, tail.skip(2));
    // The permission.
    let allow = "\r\nAccess-Control-Allow-Origin: *\r\n"@;
    assert(tail.subrange(0, allow.len() as int) =~= allow);
    assert(head =~= (start + kind + size) + allow + tail.skip(allow.len() as int));
    law_holds_middle(start + kind + size, allow, tail.skip(allow.len() as int));
    // The end.
    let end = "\r\nConnection: close\r\n\r\n"@;
    let cut = tail.len() - end.len();
    assert(tail.skip(cut) =~= end);
    assert(head =~= (start + kind + size + tail.take(cut)) + end);
    law_ends(start + kind + size + tail.take(cut), end);
}

/// An answer is its head, which tells the length of the body, and then the body
/// as it was given.
pub proof fn law_answer_is_head_and_body(code: u16, content_type: Seq<char>, body: Seq<u8>)
    ensures
        ({
            let a = answer_bytes(code, content_type, body);
            let n = a.len() - body.len();
            &&& n >= 0
            &&& a.skip(n) == body
            &&& a.take(n) == encode_utf8(answer_head(code, content_type, body.len()))
        }),
{
    let a = answer_bytes(code, content_type, body);
    let n = a.len() - body.len();
    assert(a.skip(n) =~= body);
    assert(a.take(n) =~= encode_utf8(answer_head(code, content_type, body.len())));
}

/// Answers in text and in JSON are such answers: the text in UTF-8, the JSON an
/// object of the fields that were named, in their order.
pub proof fn law_kinds_of_answers(
    code: u16,
    content_type: Seq<char>,
    text: Seq<char>,
    name: Seq<char>,
    value: Seq<char>,
    name2: Seq<char>,
    value2: Seq<char>,
)
    ensures
        text_answer(code, content_type, text) == answer_bytes(
            code,
            content_type,
            encode_utf8(text),
        ),
        one_field(code, name, value) == answer_bytes(
            code,
            "application/json"@,
            json_object_bytes(seq![(name, value)]),
        ),
        two_fields(code, name, value, name2, value2) == answer_bytes(
            code,
            "application/json"@,
            json_object_bytes(seq![(name, value), (name2, value2)]),
        ),
{
}

/// The answer to a pre-flight question has no body, lets any page ask with the
/// methods and headers that the interface takes, and ends with an empty line.
pub proof fn law_preflight()
    ensures
        begins(preflight_text(), "HTTP/1.1 204 No Content\r\n"@),
        holds(preflight_text(), "\r\nAccess-Control-Allow-Origin: *\r\n"@),
        holds(preflight_text(), "\r\nAccess-Control-Allow-Methods: GET, POST, OPTIONS\r\n"@),
        holds(
            preflight_text(),
            "\r\nAccess-Control-Allow-Headers: Authorization, Content-Type\r\n"@,
        ),
        ends(preflight_text(), "\r\n\r\n"@),
{
    reveal_strlit(
        "HTTP/1.1 204 No Content\r\nAccess-Control-Allow-Origin: *\r\nAccess-Control-Allow-Methods: GET, POST, OPTIONS\r\nAccess-Control-Allow-Headers: Authorization, Content-Type\r\nConnection: close\r\n\r\n",
    );
    reveal_strlit("HTTP/1.1 204 No Content\r\n");
    reveal_strlit("\r\nAccess-Control-Allow-Origin: *\r\n");
    reveal_strlit("\r\nAccess-Control-Allow-Methods: GET, POST, OPTIONS\r\n");
    reveal_strlit("\r\nAccess-Control-Allow-Headers: Authorization, Content-Type\r\n");
    reveal_strlit("\r\n\r\n");
    let t = preflight_text();
    let a = "HTTP/1.1 204 No Content\r\n"@;
    let b = "\r\nAccess-Control-Allow-Origin: *\r\n"@;
    let c = "\r\nAccess-Control-Allow-Methods: GET, POST, OPTIONS\r\n"@;
    let d = "\r\nAccess-Control-Allow-Headers: Authorization, Content-Type\r\n"@;
    let e = "\r\n\r\n"@;
    assert(t.subrange(0, a.len() as int) =~= a);
    let i = a.len() - 2;
    assert(t.subrange(i, i + b.len()) =~= b);
    assert(crate::text::occurs_at(t, b, i));
    let j = i + b.len() - 2;
    assert(t.subrange(j, j + c.len()) =~= c);
    assert(crate::text::occurs_at(t, c, j));
    let k = j + c.len() - 2;
    assert(t.subrange(k, k + d.len()) =~= d);
    assert(crate::text::occurs_at(t, d, k));
    assert(t.subrange(t.len() - 4, t.len() as int) =~= e);
}

/// A reply that sends bytes sends those and no others.
pub proof fn law_reply_sends(r: Reply, bytes: Seq<u8>, others: Seq<u8>)
    requires
        sends(r, bytes),
    ensures
        r matches Reply::Bytes { bytes: b } && b@ == bytes,
        sends(r, others) ==> others == bytes,
{
}

} // verus!
