use wakeupllm::http;

fn text(bytes: &[u8]) -> String {
    String::from_utf8(bytes.to_vec()).unwrap()
}

#[test]
fn header_block_ends_at_the_first_empty_line() {
    assert_eq!(http::find_header_end(b""), 0);
    assert_eq!(http::find_header_end(b"abc"), 3);
    assert_eq!(http::find_header_end(b"\r\n\r\n"), 0);
    assert_eq!(http::find_header_end(b"ab\r\n\r\ncd\r\n\r\n"), 2);
    assert_eq!(http::find_header_end(b"ab\r\n\r"), 5);
    assert_eq!(http::find_header_end(b"\r\r\n\r\n"), 1);
}

#[test]
fn head_tells_method_path_and_length() {
    let head = http::parse_head(b"POST /v1/chat HTTP/1.1\r\nHost: x\r\nCONTENT-length:  42 \r\n");
    assert_eq!(head.method, "POST");
    assert_eq!(head.path, "/v1/chat");
    assert_eq!(head.content_length, 42);
}

#[test]
fn head_without_words_has_defaults() {
    let head = http::parse_head(b"");
    assert_eq!((head.method.as_str(), head.path.as_str(), head.content_length), ("", "/", 0));
    let head = http::parse_head(b"GET");
    assert_eq!((head.method.as_str(), head.path.as_str(), head.content_length), ("GET", "/", 0));
    let head = http::parse_head(b"\r\nGET /x HTTP/1.1");
    assert_eq!((head.method.as_str(), head.path.as_str()), ("", "/"));
}

#[test]
fn first_length_that_is_a_number_counts() {
    let head = http::parse_head(
        b"GET / HTTP/1.1\r\nContent-Length: many\r\nContent-Length: 3\r\nContent-Length: 9\r\n",
    );
    assert_eq!(head.content_length, 3);
    let head = http::parse_head(b"Content-Length: 5\r\n");
    assert_eq!(head.content_length, 0);
    let head = http::parse_head(b"GET / HTTP/1.1\r\nContent-Length: -1\r\n");
    assert_eq!(head.content_length, 0);
    let head = http::parse_head(b"GET / HTTP/1.1\r\nContent-Length: 99999999999999999999999\r\n");
    assert_eq!(head.content_length, 0);
}

#[test]
fn forwarded_request_has_its_own_lines() {
    let req = b"POST /v1/chat HTTP/1.1\r\nhost: example.com\r\nX-A: 1\r\nContent-Length: 2\r\nConnection: keep-alive\r\n\r\nhello";
    let end = http::find_header_end(req);
    let out = http::rebuild_request(req, end, 8003);
    assert_eq!(
        text(&out),
        "POST /v1/chat HTTP/1.1\r\nHost: 127.0.0.1:8003\r\nX-A: 1\r\nContent-Length: 5\r\nConnection: close\r\n\r\nhello"
    );
}

#[test]
fn forwarded_request_reads_back_and_forwards_alike() {
    let req = b"POST /p HTTP/1.1\r\nHost: a\r\nAccept: */*\r\n\r\n{\"model\":\"m\"}";
    let out = http::rebuild_request(req, http::find_header_end(req), 9000);
    let end = http::find_header_end(&out);
    assert_eq!(&out[end + 4..], b"{\"model\":\"m\"}");
    let head = http::parse_head(&out[..end]);
    assert_eq!(head.method, "POST");
    assert_eq!(head.path, "/p");
    assert_eq!(head.content_length, 13);
    assert_eq!(http::rebuild_request(&out, end, 9000), out);
}

#[test]
fn odd_header_blocks_forward_alike_too() {
    for head in ["", "GET /\n\nX: 1", "\n\n", "host: a\r\nContent-Length: 9", "a\r\r\nb\r", "é"] {
        let body = b"\r\n\r\nbody";
        let mut req = head.as_bytes().to_vec();
        req.extend_from_slice(b"\r\n\r\n");
        req.extend_from_slice(body);
        let out = http::rebuild_request(&req, head.len(), 9000);
        let end = out.len() - body.len() - 4;
        assert_eq!(&out[end + 4..], body);
        assert_eq!(http::rebuild_request(&out, end, 9000), out, "{:?}", head);
    }
}

#[test]
fn forwarded_body_need_not_be_text() {
    let mut req = b"POST / HTTP/1.1\r\nA: \xff\r\n\r\n".to_vec();
    req.extend_from_slice(&[0, 255, 13, 10, 13, 10, 7]);
    let end = http::find_header_end(&req);
    let out = http::rebuild_request(&req, end, 1);
    let want = "POST / HTTP/1.1\r\nA: \u{fffd}\r\nContent-Length: 7\r\nConnection: close\r\n\r\n";
    assert_eq!(&out[..want.len()], want.as_bytes());
    assert_eq!(&out[want.len()..], &[0, 255, 13, 10, 13, 10, 7]);
}

#[test]
fn answer_has_status_and_length_in_bytes() {
    assert_eq!(
        text(&http::text_answer(200, "{\"é\":1}")),
        "HTTP/1.1 200 OK\r\nContent-Type: application/json\r\nContent-Length: 8\r\nConnection: close\r\n\r\n{\"é\":1}"
    );
    for (status, line) in [
        (200, "200 OK"),
        (400, "400 Bad Request"),
        (404, "404 Not Found"),
        (502, "502 Bad Gateway"),
        (503, "503 Service Unavailable"),
        (500, "500 Internal Server Error"),
        (418, "500 Internal Server Error"),
    ] {
        let want = format!("HTTP/1.1 {line}\r\n");
        assert!(text(&http::text_answer(status, "")).starts_with(&want));
    }
}

#[test]
fn answer_reads_back() {
    let out = http::text_answer(404, "{\"error\":\"Unknown model: ü\"}");
    let end = http::find_header_end(&out);
    assert_eq!(text(&out[end + 4..]), "{\"error\":\"Unknown model: ü\"}");
    assert_eq!(http::parse_head(&out[..end]).content_length, out.len() - end - 4);
}

#[test]
fn ready_server_says_so() {
    assert!(http::says_ready(b"HTTP/1.1 200 OK\r\n\r\n{\"status\":\"ok\"}"));
    assert!(!http::says_ready(b"HTTP/1.1 503 Service Unavailable\r\n\r\n"));
    assert!(!http::says_ready(b""));
    assert!(http::says_ready(b"\xff\xfe 200 OK"));
    assert_eq!(text(&http::health_request()), "GET /health HTTP/1.0\r\n\r\n");
}

#[test]
fn addresses_name_the_port() {
    assert_eq!(http::server_addr(8003), "127.0.0.1:8003");
    assert_eq!(http::listen_addr(8000), "0.0.0.0:8000");
}

#[test]
fn json_answer_prints_the_document() {
    let doc: serde_json::Value = serde_json::from_str("{\"b\": [1, null], \"a\": \"x\"}").unwrap();
    let out = http::json_answer(200, &doc);
    let end = http::find_header_end(&out);
    assert_eq!(text(&out[end + 4..]), "{\"a\":\"x\",\"b\":[1,null]}");
}
