//! The HTTP messages that pass through the proxy.
use crate::json;
use crate::text;
use serde_json::Value;
use vstd::prelude::*;
use vstd::string::*;
use vstd::utf8::*;

verus! {

// ── The header block of a request ───────────────────────────────────────────

/// The bytes that end a header block: an empty line.
pub open spec fn terminator() -> Seq<u8> {
    seq![13u8, 10, 13, 10]
}

/// Where the header block of `buf` ends: at the first terminator, or with `buf` where there is
/// none.
pub open spec fn header_end(buf: Seq<u8>) -> nat
    decreases buf.len(),
{
    if buf.len() == 0 || text::stands_at(buf, terminator(), 0) {
        0
    } else {
        1 + header_end(buf.drop_first())
    }
}

/// What the proxy reads in the header block of a request.
pub struct RequestHead {
    pub method: String,
    pub path: String,
    pub content_length: usize,
}

/// What a `RequestHead` says.
pub struct HeadView {
    pub method: Seq<char>,
    pub path: Seq<char>,
    pub content_length: nat,
}

impl DeepView for RequestHead {
    type V = HeadView;

    open spec fn deep_view(&self) -> HeadView {
        HeadView {
            method: self.method@,
            path: self.path@,
            content_length: self.content_length as nat,
        }
    }
}

/// The length that a header line declares, where it is a `Content-Length` line with a number.
pub open spec fn length_field(line: Seq<char>) -> Option<nat> {
    if text::begins_with(line, "content-length:"@) {
        text::unsigned(text::trim(line.skip("content-length:"@.len() as int)), usize::MAX as nat)
    } else {
        None
    }
}

/// The length that the first line to declare one declares; 0 where none does.
pub open spec fn declared_length(lines: Seq<Seq<char>>) -> nat
    decreases lines.len(),
{
    if lines.len() == 0 {
        0
    } else {
        match length_field(lines[0]) {
            Some(n) => n,
            None => declared_length(lines.drop_first()),
        }
    }
}

/// What the lines of a header block say: the first two words of the first line are the method
/// and the path, and a later line may declare the length of the body.
pub open spec fn head_of_lines(lines: Seq<Seq<char>>) -> HeadView {
    let first = if lines.len() > 0 {
        text::words(lines[0])
    } else {
        seq![]
    };
    HeadView {
        method: if first.len() > 0 {
            first[0]
        } else {
            seq![]
        },
        path: if first.len() > 1 {
            first[1]
        } else {
            "/"@
        },
        content_length: if lines.len() > 0 {
            declared_length(lines.drop_first())
        } else {
            0
        },
    }
}

/// What a header block says.
pub open spec fn head_of(text: Seq<char>) -> HeadView {
    head_of_lines(text::text_lines(text))
}

/// What `header_end` gives is the first place at which a terminator stands.
pub proof fn lemma_header_end(buf: Seq<u8>, i: int)
    requires
        0 <= i <= buf.len(),
        forall|k: int| 0 <= k < i ==> !text::stands_at(buf, terminator(), k),
        i == buf.len() || text::stands_at(buf, terminator(), i),
    ensures
        header_end(buf) == i,
    decreases buf.len(),
{
    if i > 0 {
        let rest = buf.drop_first();
        assert(!text::stands_at(buf, terminator(), 0));
        assert forall|k: int| 0 <= k < i - 1 implies !text::stands_at(rest, terminator(), k) by {
            assert(!text::stands_at(buf, terminator(), k + 1));
            if k + 4 <= rest.len() {
                assert(rest.subrange(k, k + 4) == buf.subrange(k + 1, k + 5));
            }
        }
        if i < buf.len() {
            assert(rest.subrange(i - 1, i + 3) == buf.subrange(i, i + 4));
        }
        lemma_header_end(rest, i - 1);
    }
}

/// The header block ends within `buf`; a terminator stands there unless `buf` ends first.
pub proof fn lemma_header_end_found(buf: Seq<u8>)
    ensures
        header_end(buf) <= buf.len(),
        header_end(buf) < buf.len() ==> text::stands_at(buf, terminator(), header_end(buf) as int),
        text::contains_part(buf, terminator()) <==> header_end(buf) < buf.len(),
    decreases buf.len(),
{
    if buf.len() > 0 && !text::stands_at(buf, terminator(), 0) {
        let rest = buf.drop_first();
        lemma_header_end_found(rest);
        let e = header_end(rest) as int;
        if e < rest.len() {
            assert(rest.subrange(e, e + 4) == buf.subrange(e + 1, e + 5));
            assert(text::stands_at(buf, terminator(), e + 1));
        }
        if text::contains_part(buf, terminator()) {
            let i = choose|i: int| text::stands_at(buf, terminator(), i);
            assert(i > 0);
            assert(rest.subrange(i - 1, i + 3) == buf.subrange(i, i + 4));
            assert(text::stands_at(rest, terminator(), i - 1));
        }
    }
}

/// Where the header block of `buf` ends.
pub fn find_header_end(buf: &[u8]) -> (end: usize)
    ensures
        end == header_end(buf@),
{
    let mut i: usize = 0;
    while i < buf.len()
        invariant
            i <= buf.len(),
            forall|k: int| 0 <= k < i ==> !text::stands_at(buf@, terminator(), k),
        decreases buf.len() - i,
    {
        if buf.len() - i >= 4 && buf[i] == 13 && buf[i + 1] == 10 && buf[i + 2] == 13 && buf[i + 3]
            == 10 {
            assert(buf@.subrange(i as int, i + 4) == terminator());
            proof {
                lemma_header_end(buf@, i as int);
            }
            return i;
        }
        assert(!text::stands_at(buf@, terminator(), i as int)) by {
            if i + 4 <= buf@.len() {
                let s = buf@.subrange(i as int, i + 4);
                assert(s[0] == buf@[i as int] && s[1] == buf@[i + 1] && s[2] == buf@[i + 2] && s[3]
                    == buf@[i + 3]);
            }
        }
        i += 1;
    }
    proof {
        lemma_header_end(buf@, i as int);
    }
    i
}

/// The length that a header line declares.
fn parse_length_field(line: &[char]) -> (res: Option<usize>)
    ensures
        match length_field(line@) {
            Some(n) => res == Some(n as usize) && n <= usize::MAX,
            None => res is None,
        },
{
    if text::has_prefix(line, "content-length:") {
        let skipped: usize = text::chars_of("content-length:").len();
        let value = text::slice_of(line, skipped, line.len());
        assert(value@ == line@.skip(skipped as int));
        match text::parse_unsigned(text::trim_of(value.as_slice()).as_slice(), usize::MAX as u64) {
            Some(n) => Some(n as usize),
            None => None,
        }
    } else {
        None
    }
}

/// What the text of a header block says.
pub fn parse_head_text(head: &[char]) -> (res: RequestHead)
    ensures
        res.deep_view() == head_of(head@),
{
    let lines = text::lines_of(head);
    let ghost ls = text::text_lines(head@);
    assert(text::views(lines@) == ls);
    if lines.len() == 0 {
        return RequestHead {
            method: String::new(),
            path: "/".to_string(),
            content_length: 0,
        };
    }
    assert(lines@[0]@ == ls[0]);
    let first = text::words_of(lines[0].as_slice());
    assert(first@.len() == text::words(ls[0]).len());
    let method = if first.len() > 0 {
        assert(first@[0]@ == text::words(ls[0])[0]);
        text::string_of(first[0].as_slice())
    } else {
        String::new()
    };
    let path = if first.len() > 1 {
        assert(first@[1]@ == text::words(ls[0])[1]);
        text::string_of(first[1].as_slice())
    } else {
        "/".to_string()
    };
    let mut content_length: usize = 0;
    let mut i: usize = 1;
    assert(ls.skip(1) == ls.drop_first());
    while i < lines.len()
        invariant_except_break
            content_length == 0,
            declared_length(ls.drop_first()) == declared_length(ls.skip(i as int)),
        invariant
            1 <= i <= lines.len(),
            text::views(lines@) == ls,
        ensures
            content_length == declared_length(ls.drop_first()),
        decreases lines.len() - i,
    {
        let ghost rest = ls.skip(i as int);
        assert(rest[0] == lines@[i as int]@);
        assert(rest.drop_first() == ls.skip(i + 1));
        match parse_length_field(lines[i].as_slice()) {
            Some(n) => {
                content_length = n;
                break;
            },
            None => {},
        }
        i += 1;
    }
    RequestHead { method, path, content_length }
}

/// What the header block `head` says; bytes that are no UTF-8 are read as `utf8_lossy` has them.
pub fn parse_head(head: &[u8]) -> (res: RequestHead)
    ensures
        res.deep_view() == head_of(text::utf8_lossy(head@)),
        valid_utf8(head@) ==> res.deep_view() == head_of(decode_utf8(head@)),
        valid_utf8(head@) ==> text::utf8_lossy(head@) == decode_utf8(head@),
{
    let chars = text::lossy_text(head);
    parse_head_text(chars.as_slice())
}

// ── A request on its way to a model server ──────────────────────────────────

/// What becomes of one header line: a `Host` line names the model server, `Content-Length` and
/// `Connection` lines go, and every other line stays.
pub open spec fn forwarded_line(line: Seq<char>, port: u16) -> Seq<char> {
    if text::begins_with(line, "host:"@) {
        "Host: 127.0.0.1:"@ + text::decimal(port as nat) + "\r\n"@
    } else if text::begins_with(line, "content-length:"@) || text::begins_with(
        line,
        "connection:"@,
    ) {
        seq![]
    } else {
        line + "\r\n"@
    }
}

/// What becomes of the header lines, one after the other.
pub open spec fn forwarded_lines(lines: Seq<Seq<char>>, port: u16) -> Seq<char>
    decreases lines.len(),
{
    if lines.len() == 0 {
        seq![]
    } else {
        forwarded_lines(lines.drop_last(), port) + forwarded_line(lines.last(), port)
    }
}

/// The header block of a forwarded request with a body of `body_len` bytes.
pub open spec fn forwarded_head(head: Seq<char>, body_len: nat, port: u16) -> Seq<char> {
    forwarded_lines(text::text_lines(head), port) + "Content-Length: "@ + text::decimal(body_len)
        + "\r\nConnection: close\r\n\r\n"@
}

/// The forwarded form of a request whose header block says `head` and whose body is `body`.
pub open spec fn forwarded(head: Seq<char>, body: Seq<u8>, port: u16) -> Seq<u8> {
    encode_utf8(forwarded_head(head, body.len(), port)) + body
}

/// Puts `chars` behind `s`.
fn push_chars(s: &mut String, chars: &[char])
    ensures
        final(s)@ == old(s)@ + chars@,
{
    let mut i: usize = 0;
    let ghost before = s@;
    assert(before + chars@.take(0) == before);
    while i < chars.len()
        invariant
            i <= chars.len(),
            s@ == before + chars@.take(i as int),
        decreases chars.len() - i,
    {
        s.push(chars[i]);
        assert(before + chars@.take(i + 1) == (before + chars@.take(i as int)).push(
            chars@[i as int],
        ));
        i += 1;
    }
    assert(chars@.take(chars@.len() as int) == chars@);
}

/// Puts `bytes` behind `buf`.
pub fn push_bytes(buf: &mut Vec<u8>, bytes: &[u8])
    ensures
        final(buf)@ == old(buf)@ + bytes@,
{
    let ghost before = buf@;
    buf.extend_from_slice(bytes);
    assert(buf@ == before + bytes@);
}

/// The forwarded form of a request whose header block says `head` and whose body is `body`: with
/// its own `Host`, `Content-Length` and `Connection` lines.
pub fn forward_text(head: &[char], body: &[u8], target_port: u16) -> (res: Vec<u8>)
    ensures
        res@ == forwarded(head@, body@, target_port),
{
    let lines = text::lines_of(head);
    let ghost ls = text::text_lines(head@);
    let port = text::decimal_string(target_port as u64);
    let mut out = String::new();
    let mut i: usize = 0;
    assert(ls.take(0).len() == 0);
    while i < lines.len()
        invariant
            i <= lines.len(),
            text::views(lines@) == ls,
            port@ == text::decimal(target_port as nat),
            out@ == forwarded_lines(ls.take(i as int), target_port),
        decreases lines.len() - i,
    {
        let line = lines[i].as_slice();
        assert(line@ == ls[i as int]);
        assert(ls.take(i + 1).drop_last() == ls.take(i as int));
        if text::has_prefix(line, "host:") {
            let ghost before = out@;
            out.append("Host: 127.0.0.1:");
            out.append(port.as_str());
            out.append("\r\n");
            assert(out@ == before + ("Host: 127.0.0.1:"@ + port@ + "\r\n"@));
        } else if text::has_prefix(line, "content-length:") || text::has_prefix(
            line,
            "connection:",
        ) {
            assert(out@ + Seq::<char>::empty() == out@);
        } else {
            let ghost before = out@;
            push_chars(&mut out, line);
            out.append("\r\n");
            assert(out@ == before + (line@ + "\r\n"@));
        }
        i += 1;
    }
    assert(ls.take(ls.len() as int) == ls);
    out.append("Content-Length: ");
    out.append(text::decimal_string(body.len() as u64).as_str());
    out.append("\r\nConnection: close\r\n\r\n");
    let mut res = out.as_str().as_bytes_vec();
    push_bytes(&mut res, body);
    res
}

/// The request `req_buf`, whose header block ends at `header_end`, as it is sent to the model
/// server on `target_port`.
pub fn rebuild_request(req_buf: &[u8], header_end: usize, target_port: u16) -> (res: Vec<u8>)
    requires
        header_end + 4 <= req_buf.len(),
    ensures
        res@ == forwarded(
            text::utf8_lossy(req_buf@.take(header_end as int)),
            req_buf@.skip(header_end + 4),
            target_port,
        ),
        valid_utf8(req_buf@.take(header_end as int)) ==> res@ == forwarded(
            decode_utf8(req_buf@.take(header_end as int)),
            req_buf@.skip(header_end + 4),
            target_port,
        ),
{
    let header_bytes = vstd::slice::slice_subrange(req_buf, 0, header_end);
    let body = vstd::slice::slice_subrange(req_buf, header_end + 4, req_buf.len());
    assert(header_bytes@ == req_buf@.take(header_end as int));
    assert(body@ == req_buf@.skip(header_end + 4));
    let head = text::lossy_text(header_bytes);
    forward_text(head.as_slice(), body, target_port)
}

// ── Answers ─────────────────────────────────────────────────────────────────

/// The status of an answer, as it stands in its first line.
pub open spec fn status_text(status: u16) -> Seq<char> {
    if status == 200 {
        "200 OK"@
    } else if status == 400 {
        "400 Bad Request"@
    } else if status == 404 {
        "404 Not Found"@
    } else if status == 502 {
        "502 Bad Gateway"@
    } else if status == 503 {
        "503 Service Unavailable"@
    } else {
        "500 Internal Server Error"@
    }
}

/// The header block of an answer with a JSON text of `len` bytes.
pub open spec fn answer_head(status: u16, len: nat) -> Seq<char> {
    "HTTP/1.1 "@ + status_text(status) + "\r\nContent-Type: application/json\r\nContent-Length: "@
        + text::decimal(len) + "\r\nConnection: close\r\n\r\n"@
}

/// An answer with a JSON text.
pub open spec fn answer(status: u16, body: Seq<char>) -> Seq<u8> {
    encode_utf8(answer_head(status, encode_utf8(body).len()) + body)
}

/// The answer with the given status and JSON text.
pub fn text_answer(status: u16, body: &str) -> (res: Vec<u8>)
    ensures
        res@ == answer(status, body@),
{
    let line = match status {
        200 => "200 OK",
        400 => "400 Bad Request",
        404 => "404 Not Found",
        502 => "502 Bad Gateway",
        503 => "503 Service Unavailable",
        _ => "500 Internal Server Error",
    };
    let mut out = String::new();
    out.append("HTTP/1.1 ");
    out.append(line);
    out.append("\r\nContent-Type: application/json\r\nContent-Length: ");
    out.append(text::decimal_string(body.as_bytes().len() as u64).as_str());
    out.append("\r\nConnection: close\r\n\r\n");
    out.append(body);
    assert(out@ == answer_head(status, encode_utf8(body@).len()) + body@);
    out.as_str().as_bytes_vec()
}

/// The answer with the given status and JSON document.
pub fn json_answer(status: u16, body: &Value) -> (res: Vec<u8>)
    ensures
        res@ == answer(status, json::compact_text(json::json_of(*body))),
{
    let printed = json::print_text(body);
    text_answer(status, printed.as_str())
}

/// Whether the answer of a model server to the question for its health says that it is ready, by
/// the first bytes of it.
pub fn says_ready(answer: &[u8]) -> (ready: bool)
    ensures
        ready == text::contains_part(text::utf8_lossy(answer@), "200 OK"@),
        valid_utf8(answer@) ==> ready == text::contains_part(decode_utf8(answer@), "200 OK"@),
{
    let chars = text::lossy_text(answer);
    text::has_part(chars.as_slice(), "200 OK")
}

/// The request that asks a model server for its health.
pub fn health_request() -> (res: Vec<u8>)
    ensures
        res@ == encode_utf8("GET /health HTTP/1.0\r\n\r\n"@),
{
    "GET /health HTTP/1.0\r\n\r\n".as_bytes_vec()
}

// ── Addresses ───────────────────────────────────────────────────────────────

/// The address of the model server on `port`.
pub fn server_addr(port: u16) -> (addr: String)
    ensures
        addr@ == "127.0.0.1:"@ + text::decimal(port as nat),
{
    "127.0.0.1:".to_string().concat(text::decimal_string(port as u64).as_str())
}

/// The address that the proxy listens on.
pub fn listen_addr(out_port: u16) -> (addr: String)
    ensures
        addr@ == "0.0.0.0:"@ + text::decimal(out_port as nat),
{
    "0.0.0.0:".to_string().concat(text::decimal_string(out_port as u64).as_str())
}

} // verus!
