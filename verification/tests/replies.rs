use serde_json::Value;
use wakeupllm::config::ModelEntry;
use wakeupllm::http;
use wakeupllm::replies;

fn model(id: &str, port: u16) -> ModelEntry {
    ModelEntry {
        id: id.to_string(),
        port,
        executable: "s".to_string(),
        name: None,
        alias: None,
        arguments: Vec::new(),
        profiles: Vec::new(),
    }
}

fn parts(answer: &[u8]) -> (String, String) {
    let end = http::find_header_end(answer);
    let head = String::from_utf8(answer[..end].to_vec()).unwrap();
    let status = head.lines().next().unwrap()["HTTP/1.1 ".len()..].to_string();
    (status, String::from_utf8(answer[end + 4..].to_vec()).unwrap())
}

#[test]
fn health_tells_which_models_run() {
    let models = vec![model("b", 2), model("a", 1)];
    let (status, body) = parts(&replies::health_reply(&models, &vec![2, 7]));
    assert_eq!(status, "200 OK");
    assert_eq!(body, "{\"models\":{\"a\":false,\"b\":true},\"status\":\"ok\"}");
    let (_, body) = parts(&replies::health_reply(&Vec::new(), &Vec::new()));
    assert_eq!(body, "{\"models\":{},\"status\":\"ok\"}");
}

#[test]
fn health_of_one_id_twice_is_that_of_the_later() {
    let models = vec![model("a", 1), model("a", 2)];
    let (_, body) = parts(&replies::health_reply(&models, &vec![1]));
    assert_eq!(body, "{\"models\":{\"a\":false},\"status\":\"ok\"}");
}

#[test]
fn list_names_every_model() {
    let models = vec![model("b", 2), model("a\"", 1)];
    let (status, body) = parts(&replies::models_reply(&models));
    assert_eq!(status, "200 OK");
    let doc: Value = serde_json::from_str(&body).unwrap();
    assert_eq!(doc["object"], Value::from("list"));
    assert_eq!(doc["data"].as_array().unwrap().len(), 2);
    assert_eq!(doc["data"][0]["id"], Value::from("b"));
    assert_eq!(doc["data"][1]["id"], Value::from("a\""));
    assert_eq!(doc["data"][0]["object"], Value::from("model"));
    assert_eq!(doc["data"][0]["created"], Value::from(0));
    assert_eq!(doc["data"][0]["owned_by"], Value::from("local"));
    assert_eq!(doc["data"][0].as_object().unwrap().len(), 4);
    let (_, body) = parts(&replies::models_reply(&vec![model("m", 1)]));
    assert_eq!(
        body,
        "{\"data\":[{\"created\":0,\"id\":\"m\",\"object\":\"model\",\"owned_by\":\"local\"}],\"object\":\"list\"}"
    );
}

#[test]
fn unload_tells_how_it_went() {
    let (status, body) = parts(&replies::unload_reply(Ok("Stopped port 1".to_string())));
    assert_eq!(status, "200 OK");
    assert_eq!(body, "{\"message\":\"Stopped port 1\",\"status\":\"ok\"}");
    let (status, body) = parts(&replies::unload_reply(Err("Port 1 not running".to_string())));
    assert_eq!(status, "404 Not Found");
    assert_eq!(body, "{\"message\":\"Port 1 not running\",\"status\":\"error\"}");
    let (status, body) = parts(&replies::invalid_port_reply());
    assert_eq!(status, "400 Bad Request");
    assert_eq!(body, "{\"message\":\"Invalid port\",\"status\":\"error\"}");
}

#[test]
fn failures_are_told() {
    let (status, body) = parts(&replies::error_reply(400, "no \"model\"".to_string()));
    assert_eq!(status, "400 Bad Request");
    assert_eq!(body, "{\"error\":\"no \\\"model\\\"\"}");
    let (status, body) = parts(&replies::labelled_error_reply(502, "Cannot: ", "refused"));
    assert_eq!(status, "502 Bad Gateway");
    assert_eq!(body, "{\"error\":\"Cannot: refused\"}");
}

#[test]
fn ports_are_looked_up() {
    assert!(replies::has_port(&vec![1, 2, 3], 3));
    assert!(!replies::has_port(&vec![1, 2, 3], 4));
    assert!(!replies::has_port(&Vec::new(), 4));
}
