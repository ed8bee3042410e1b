use serde_json::Value;
use wakeupllm::config::{FloatParam, ModelEntry, ModelProfile};
use wakeupllm::http;
use wakeupllm::proxy::{
    body_to_send, dispatch_request, find_target, route, ConnAction, ConnEvent, ConnState, Route,
    Target, CHUNK, READY_TRIES,
};

fn model(id: &str, port: u16) -> ModelEntry {
    ModelEntry {
        id: id.to_string(),
        port,
        executable: "s".to_string(),
        name: None,
        alias: None,
        arguments: Vec::new(),
        profiles: vec![ModelProfile {
            name: "hot".to_string(),
            temperature: Some(FloatParam { json: Value::from(1.5f32), shown: "1.5".to_string() }),
            top_p: None,
            top_k: None,
            presence_penalty: None,
        }],
    }
}

fn models() -> Vec<ModelEntry> {
    vec![model("m", 8003), model("org/m", 8004)]
}

fn request(method: &str, path: &str, body: &str) -> Vec<u8> {
    format!(
        "{method} {path} HTTP/1.1\r\nHost: localhost\r\nContent-Length: {}\r\n\r\n{body}",
        body.len()
    )
    .into_bytes()
}

fn send(pieces: &[&[u8]]) -> (ConnState, ConnAction) {
    let models = models();
    let mut step = (ConnState::new(), ConnAction::Read);
    for piece in pieces {
        assert!(matches!(step.1, ConnAction::Read));
        step = step.0.next(&models, ConnEvent::Data(piece.to_vec()));
    }
    step
}

fn answer(step: (ConnState, ConnAction)) -> (String, String) {
    assert!(matches!(step.0, ConnState::Done));
    match step.1 {
        ConnAction::Reply(bytes) => {
            let end = http::find_header_end(&bytes);
            let head = String::from_utf8(bytes[..end].to_vec()).unwrap();
            let status = head.lines().next().unwrap()["HTTP/1.1 ".len()..].to_string();
            (status, String::from_utf8(bytes[end + 4..].to_vec()).unwrap())
        }
        _ => panic!("no answer"),
    }
}

fn is_closed(step: (ConnState, ConnAction)) -> bool {
    matches!(step, (ConnState::Done, ConnAction::Close))
}

fn forwarded(step: (ConnState, ConnAction)) -> (u16, String) {
    let models = models();
    let (state, action) = step;
    let port = match action {
        ConnAction::CheckRunning(port) => port,
        _ => panic!("not for a model"),
    };
    let (state, action) = state.next(&models, ConnEvent::Checked(true));
    assert!(matches!(action, ConnAction::Connect(p) if p == port));
    let (state, action) = state.next(&models, ConnEvent::Connected(Ok(())));
    let sent = match action {
        ConnAction::Forward(bytes) => String::from_utf8(bytes).unwrap(),
        _ => panic!("not forwarded"),
    };
    let (state, action) = state.next(&models, ConnEvent::Forwarded(true));
    assert!(matches!(action, ConnAction::Touch(p) if p == port));
    assert!(matches!(state, ConnState::Done));
    (port, sent)
}

#[test]
fn paths_are_routed() {
    assert!(matches!(route("GET", "/health"), Route::Health));
    assert!(matches!(route("POST", "/health"), Route::Health));
    assert!(matches!(route("GET", "/v1/models"), Route::Models));
    assert!(matches!(route("POST", "/v1/models"), Route::Model));
    assert!(matches!(route("get", "/v1/models"), Route::Model));
    assert!(matches!(route("GET", "/unload/8003"), Route::Unload(Some(8003))));
    assert!(matches!(route("DELETE", "/unload/+1"), Route::Unload(Some(1))));
    assert!(matches!(route("GET", "/unload/65535"), Route::Unload(Some(65535))));
    assert!(matches!(route("GET", "/unload/65536"), Route::Unload(None)));
    assert!(matches!(route("GET", "/unload/0"), Route::Unload(None)));
    assert!(matches!(route("GET", "/unload/"), Route::Unload(None)));
    assert!(matches!(route("GET", "/unload/x"), Route::Unload(None)));
    assert!(matches!(route("GET", "/unload"), Route::Model));
    assert!(matches!(route("GET", "/health/"), Route::Model));
    assert!(matches!(route("", "/"), Route::Model));
}

#[test]
fn targets_are_found() {
    let models = models();
    let find = |name: Option<&str>| find_target(&models, name.map(|s| s.to_string()));
    assert!(matches!(find(None), Target::Missing));
    assert!(matches!(find(Some("x")), Target::Unknown(id) if id == "x"));
    assert!(matches!(find(Some("x/hot")), Target::Unknown(id) if id == "x"));
    assert!(matches!(
        find(Some("m")),
        Target::Found { model, profile: None } if model.port == 8003
    ));
    assert!(matches!(
        find(Some("m/hot")),
        Target::Found { model, profile: Some(p) } if model.port == 8003 && p.name == "hot"
    ));
    assert!(matches!(
        find(Some("m/cold")),
        Target::Found { model, profile: None } if model.port == 8003
    ));
    assert!(matches!(
        find(Some("org/m/hot")),
        Target::Found { model, profile: Some(_) } if model.port == 8004
    ));
    assert!(matches!(
        find(Some("org/m")),
        Target::Found { model, profile: None } if model.port == 8004
    ));
    assert!(matches!(find(Some("org/x")), Target::Unknown(id) if id == "org"));
}

#[test]
fn whole_name_is_looked_up_first() {
    let models = vec![model("m", 1), model("m/hot", 2)];
    let find = |name: &str| find_target(&models, Some(name.to_string()));
    assert!(matches!(
        find("m/hot"),
        Target::Found { model, profile: None } if model.port == 2
    ));
    assert!(matches!(
        find("m/hot/hot"),
        Target::Found { model, profile: Some(_) } if model.port == 2
    ));
    assert!(matches!(find("m/cold"), Target::Found { model, profile: None } if model.port == 1));
}

#[test]
fn id_with_a_slash_selects_its_model() {
    let body = "{\"model\":\"org/m\"}";
    let (port, sent) = forwarded(send(&[&request("POST", "/v1/chat/completions", body)]));
    assert_eq!(port, 8004);
    assert!(sent.contains("Host: 127.0.0.1:8004\r\n"));
    assert!(sent.ends_with("\r\n\r\n{\"model\":\"org/m\"}"));
}

#[test]
fn body_is_sent_with_its_profile() {
    let m = model("m", 1);
    assert_eq!(body_to_send(b"{ }", None), b"{ }");
    assert_eq!(body_to_send(b"{ }", Some(&m.profiles[0])), b"{\"temperature\":1.5}");
}

#[test]
fn health_is_answered() {
    let (state, action) = send(&[b"GET /health HTTP/1.1\r\n\r\n"]);
    assert!(matches!(action, ConnAction::ListRunning));
    let (status, body) = answer(state.next(&models(), ConnEvent::Running(vec![8004])));
    assert_eq!(status, "200 OK");
    assert_eq!(body, "{\"models\":{\"m\":false,\"org/m\":true},\"status\":\"ok\"}");
}

#[test]
fn models_are_listed() {
    let (status, body) = answer(send(&[b"GET /v1/models HTTP/1.1\r\n\r\n"]));
    assert_eq!(status, "200 OK");
    let doc: Value = serde_json::from_str(&body).unwrap();
    assert_eq!(doc["data"][1]["id"], Value::from("org/m"));
}

#[test]
fn unload_is_ordered() {
    let (state, action) = send(&[b"GET /unload/8003 HTTP/1.1\r\n\r\n"]);
    assert!(matches!(action, ConnAction::Unload(8003)));
    let event = ConnEvent::Unloaded(Ok("Stopped port 8003".to_string()));
    let (status, body) = answer(state.next(&models(), event));
    assert_eq!(status, "200 OK");
    assert_eq!(body, "{\"message\":\"Stopped port 8003\",\"status\":\"ok\"}");
    let (state, _) = send(&[b"GET /unload/8003 HTTP/1.1\r\n\r\n"]);
    let event = ConnEvent::Unloaded(Err("Port 8003 not running".to_string()));
    assert_eq!(answer(state.next(&models(), event)).0, "404 Not Found");
    let (status, body) = answer(send(&[b"GET /unload/x HTTP/1.1\r\n\r\n"]));
    assert_eq!(status, "400 Bad Request");
    assert_eq!(body, "{\"message\":\"Invalid port\",\"status\":\"error\"}");
}

#[test]
fn request_without_model_is_refused() {
    for body in ["", "{}", "{\"model\":3}", "nonsense"] {
        let (status, text) = answer(send(&[&request("POST", "/v1/chat/completions", body)]));
        assert_eq!(status, "400 Bad Request");
        assert_eq!(text, "{\"error\":\"Missing model field in request body\"}");
    }
}

#[test]
fn unknown_model_is_refused() {
    let body = "{\"model\":\"x/hot\"}";
    let (status, text) = answer(send(&[&request("POST", "/v1/chat/completions", body)]));
    assert_eq!(status, "404 Not Found");
    assert_eq!(text, "{\"error\":\"Unknown model: x\"}");
}

#[test]
fn request_goes_to_the_server_of_its_model() {
    let body = "{\"model\":\"m\", \"n\":1}";
    let (port, sent) = forwarded(send(&[&request("POST", "/v1/chat/completions", body)]));
    assert_eq!(port, 8003);
    assert_eq!(
        sent,
        "POST /v1/chat/completions HTTP/1.1\r\nHost: 127.0.0.1:8003\r\nContent-Length: 20\r\nConnection: close\r\n\r\n{\"model\":\"m\", \"n\":1}"
    );
}

#[test]
fn request_goes_out_with_its_profile() {
    let body = "{\"model\":\"m/hot\"}";
    let (port, sent) = forwarded(send(&[&request("POST", "/v1/completions", body)]));
    assert_eq!(port, 8003);
    assert_eq!(
        sent,
        "POST /v1/completions HTTP/1.1\r\nHost: 127.0.0.1:8003\r\nContent-Length: 35\r\nConnection: close\r\n\r\n{\"model\":\"m/hot\",\"temperature\":1.5}"
    );
}

#[test]
fn request_is_read_in_pieces() {
    let body = format!("{{\"model\":\"m\",\"pad\":\"{}\"}}", "x".repeat(30000));
    let whole = request("POST", "/v1/completions", &body);
    let (_, want) = forwarded(send(&[&whole]));
    for first in [120, 1000, CHUNK] {
        let mut pieces: Vec<&[u8]> = vec![&whole[..first]];
        pieces.extend(whole[first..].chunks(CHUNK));
        let (port, sent) = forwarded(send(&pieces));
        assert_eq!(port, 8003);
        assert_eq!(sent, want);
        assert!(sent.ends_with(&body));
    }
}

#[test]
fn long_header_block_is_read_in_full_pieces() {
    let body = "{\"model\":\"m\"}";
    let whole = format!(
        "POST /x HTTP/1.1\r\nX-Long: {}\r\nContent-Length: {}\r\n\r\n{body}",
        "y".repeat(20000),
        body.len()
    )
    .into_bytes();
    let pieces: Vec<&[u8]> = whole.chunks(CHUNK).collect();
    let (port, sent) = forwarded(send(&pieces));
    assert_eq!(port, 8003);
    assert!(sent.contains("Content-Length: 13\r\n"));
}

#[test]
fn body_is_cut_to_its_length() {
    let head = b"POST /x HTTP/1.1\r\nContent-Length: 13\r\n\r\n{\"mod";
    let rest = b"el\":\"m\"}and more";
    let (_, sent) = forwarded(send(&[head, rest]));
    assert!(sent.ends_with("\r\n\r\n{\"model\":\"m\"}"));
}

#[test]
fn body_that_ends_early_is_taken_as_it_is() {
    let (state, action) = send(&[b"POST /x HTTP/1.1\r\nContent-Length: 99\r\n\r\n{\"model\":\"m\"}"]);
    assert!(matches!(action, ConnAction::Read));
    let (_, sent) = forwarded(state.next(&models(), ConnEvent::NoData));
    assert!(sent.contains("Content-Length: 13\r\n"));
    let (state, _) = send(&[b"POST /x HTTP/1.1\r\nContent-Length: 99\r\n\r\n{\"model\":\"m\"}"]);
    let _ = forwarded(state.next(&models(), ConnEvent::Data(Vec::new())));
}

#[test]
fn silent_client_is_not_answered() {
    assert!(is_closed(ConnState::new().next(&models(), ConnEvent::NoData)));
    assert!(is_closed(ConnState::new().next(&models(), ConnEvent::Data(Vec::new()))));
    let full = vec![b'a'; CHUNK];
    let (state, action) = send(&[&full]);
    assert!(matches!(action, ConnAction::Read));
    assert!(is_closed(state.next(&models(), ConnEvent::NoData)));
}

#[test]
fn request_without_end_of_header_is_not_forwarded() {
    assert!(is_closed(send(&[b"POST /x HTTP/1.1\r\nHost: a\r\n"])));
    let (_, action) = send(&[b"GET /health HTTP/1.1"]);
    assert!(matches!(action, ConnAction::ListRunning));
    let buf = b"POST /x HTTP/1.1".to_vec();
    assert!(is_closed(dispatch_request(&models(), &buf, buf.len())));
}

#[test]
fn cold_server_is_started_and_awaited() {
    let models = models();
    let (state, action) = send(&[&request("POST", "/x", "{\"model\":\"m\"}")]);
    assert!(matches!(action, ConnAction::CheckRunning(8003)));
    let (state, action) = state.next(&models, ConnEvent::Checked(false));
    assert!(matches!(action, ConnAction::Start(8003)));
    let (state, action) = state.next(&models, ConnEvent::Started(Ok(())));
    assert!(matches!(action, ConnAction::ProbeReady(8003)));
    let (state, action) = state.next(&models, ConnEvent::Probed(false));
    assert!(matches!(action, ConnAction::Pause));
    let (state, action) = state.next(&models, ConnEvent::Paused);
    assert!(matches!(action, ConnAction::ProbeReady(8003)));
    let (state, action) = state.next(&models, ConnEvent::Probed(true));
    assert!(matches!(action, ConnAction::Connect(8003)));
    let (_, action) = state.next(&models, ConnEvent::Connected(Ok(())));
    assert!(matches!(action, ConnAction::Forward(_)));
}

#[test]
fn server_that_does_not_start_is_told() {
    let models = models();
    let (state, _) = send(&[&request("POST", "/x", "{\"model\":\"m\"}")]);
    let (state, _) = state.next(&models, ConnEvent::Checked(false));
    let event = ConnEvent::Started(Err("Spawn 8003: no file".to_string()));
    let (status, body) = answer(state.next(&models, event));
    assert_eq!(status, "503 Service Unavailable");
    assert_eq!(body, "{\"error\":\"Failed to start model: Spawn 8003: no file\"}");
}

#[test]
fn server_that_is_never_ready_is_told() {
    let models = models();
    let (state, _) = send(&[&request("POST", "/x", "{\"model\":\"m\"}")]);
    let (state, _) = state.next(&models, ConnEvent::Checked(false));
    let mut step = state.next(&models, ConnEvent::Started(Ok(())));
    let mut probes = 0;
    while !matches!(step.1, ConnAction::Reply(_)) {
        let event = match step.1 {
            ConnAction::ProbeReady(8003) => {
                probes += 1;
                ConnEvent::Probed(false)
            }
            ConnAction::Pause => ConnEvent::Paused,
            _ => panic!("unexpected"),
        };
        step = step.0.next(&models, event);
    }
    assert_eq!(probes, READY_TRIES);
    assert_eq!(probes, 120);
    let (status, body) = answer(step);
    assert_eq!(status, "503 Service Unavailable");
    assert_eq!(body, "{\"error\":\"Model loading timeout after 120s\"}");
}

#[test]
fn server_that_refuses_is_told() {
    let models = models();
    let (state, _) = send(&[&request("POST", "/x", "{\"model\":\"m\"}")]);
    let (state, _) = state.next(&models, ConnEvent::Checked(true));
    let event = ConnEvent::Connected(Err("refused".to_string()));
    let (status, body) = answer(state.next(&models, event));
    assert_eq!(status, "502 Bad Gateway");
    assert_eq!(body, "{\"error\":\"Cannot connect to upstream: refused\"}");
}

#[test]
fn answer_that_cannot_be_passed_on_uses_nothing() {
    let state = ConnState::Forward { port: 8003 };
    assert!(is_closed(state.next(&models(), ConnEvent::Forwarded(false))));
}

#[test]
fn unexpected_event_closes_the_connection() {
    assert!(is_closed(ConnState::new().next(&models(), ConnEvent::Paused)));
    assert!(is_closed(ConnState::Done.next(&models(), ConnEvent::NoData)));
    assert!(is_closed(ConnState::Health.next(&models(), ConnEvent::Probed(true))));
}
