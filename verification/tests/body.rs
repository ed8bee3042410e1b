use serde_json::Value;
use wakeupllm::body::{
    apply_profile, apply_profile_to_body, model_of_value, requested_model, split_model_name,
};
use wakeupllm::config::{FloatParam, ModelProfile};

fn float(f: f32) -> Option<FloatParam> {
    Some(FloatParam { json: Value::from(f), shown: f.to_string() })
}

fn profile() -> ModelProfile {
    ModelProfile {
        name: "precise".to_string(),
        temperature: float(0.5),
        top_p: float(0.75),
        top_k: Some(40),
        presence_penalty: float(1.5),
    }
}

fn empty_profile() -> ModelProfile {
    ModelProfile {
        name: "none".to_string(),
        temperature: None,
        top_p: None,
        top_k: None,
        presence_penalty: None,
    }
}

fn text(bytes: Vec<u8>) -> String {
    String::from_utf8(bytes).unwrap()
}

#[test]
fn body_names_its_model() {
    assert_eq!(requested_model(b"{\"model\":\"m/x\",\"n\":1}"), Some("m/x".to_string()));
    assert_eq!(requested_model(b"{\"model\":\"\"}"), Some(String::new()));
    assert_eq!(requested_model(b"{\"model\":1}"), None);
    assert_eq!(requested_model(b"{\"models\":\"m\"}"), None);
    assert_eq!(requested_model(b"[\"model\"]"), None);
    assert_eq!(requested_model(b"{\"model\":\"m\""), None);
    assert_eq!(requested_model(b""), None);
    assert_eq!(requested_model(b"\xff"), None);
    assert_eq!(requested_model(b"{\"model\":\"m\"} x"), None);
}

#[test]
fn parsed_body_names_its_model() {
    let doc: Value = serde_json::from_str("{\"model\":\"\\u00e9\"}").unwrap();
    assert_eq!(model_of_value(&doc), Some("é".to_string()));
    assert_eq!(model_of_value(&Value::Null), None);
}

#[test]
fn name_splits_at_its_last_slash() {
    let split = |s: &str| split_model_name(s);
    assert_eq!(split("m"), ("m".to_string(), None));
    assert_eq!(split("m/p"), ("m".to_string(), Some("p".to_string())));
    assert_eq!(split("org/m/p"), ("org/m".to_string(), Some("p".to_string())));
    assert_eq!(split("m/"), ("m".to_string(), Some(String::new())));
    assert_eq!(split("/p"), (String::new(), Some("p".to_string())));
    assert_eq!(split(""), (String::new(), None));
}

#[test]
fn profile_sets_what_the_body_leaves_open() {
    let out = text(apply_profile_to_body(b"{\"model\":\"m\"}", &profile()));
    assert_eq!(
        out,
        "{\"model\":\"m\",\"presence_penalty\":1.5,\"temperature\":0.5,\"top_k\":40,\"top_p\":0.75}"
    );
}

#[test]
fn profile_keeps_what_the_body_sets() {
    let body = b"{\"temperature\": 2, \"top_k\": null, \"model\": \"m\"}";
    let out = text(apply_profile_to_body(body, &profile()));
    assert_eq!(
        out,
        "{\"model\":\"m\",\"presence_penalty\":1.5,\"temperature\":2,\"top_k\":null,\"top_p\":0.75}"
    );
    assert_eq!(requested_model(out.as_bytes()), Some("m".to_string()));
}

#[test]
fn profile_applied_again_changes_nothing() {
    let once = apply_profile_to_body(b"{\"model\":\"m\",\"stream\":true}", &profile());
    assert_eq!(apply_profile_to_body(&once, &profile()), once);
}

#[test]
fn profile_leaves_other_bodies_alone() {
    assert_eq!(text(apply_profile_to_body(b"[1, 2]", &profile())), "[1,2]");
    assert_eq!(text(apply_profile_to_body(b"not json", &profile())), "not json");
    assert_eq!(text(apply_profile_to_body(b"", &profile())), "");
    assert_eq!(text(apply_profile_to_body(b"{ \"a\" : 1 }", &empty_profile())), "{\"a\":1}");
}

#[test]
fn profile_changes_a_parsed_body_in_place() {
    let mut doc: Value = serde_json::from_str("{\"top_p\":1}").unwrap();
    apply_profile(&mut doc, &profile());
    assert_eq!(doc["top_p"], Value::from(1));
    assert_eq!(doc["top_k"], Value::from(40));
    let mut list = Value::Array(Vec::new());
    apply_profile(&mut list, &profile());
    assert_eq!(list, Value::Array(Vec::new()));
}

#[test]
fn profiled_body_reads_back() {
    let body = "{\"model\":\"m\",\"big\":18446744073709551615,\"small\":-9223372036854775808,\
        \"zero\":0,\"deep\":{\"list\":[1,[\"\\u0000\\ud83d\\ude00\",{\"\":null}],true],\"t\":{}},\
        \"f\":0.25}";
    let mut want: Value = serde_json::from_str(body).unwrap();
    let out = apply_profile_to_body(body.as_bytes(), &profile());
    let back: Value = serde_json::from_slice(&out).unwrap();
    apply_profile(&mut want, &profile());
    assert_eq!(back, want);
    assert_eq!(back["big"], Value::from(u64::MAX));
    assert_eq!(back["small"], Value::from(i64::MIN));
    assert_eq!(model_of_value(&back), Some("m".to_string()));
}

#[test]
fn deepest_body_reads_back_with_its_profile() {
    let nested = |depth: usize| {
        format!("{{\"model\":\"m\",\"a\":{}{}}}", "[".repeat(depth), "]".repeat(depth))
    };
    let body = nested(126);
    assert_eq!(requested_model(body.as_bytes()), Some("m".to_string()));
    let out = apply_profile_to_body(body.as_bytes(), &profile());
    assert_ne!(out, body.as_bytes());
    assert_eq!(requested_model(&out), Some("m".to_string()));
    let body = nested(127);
    assert_eq!(requested_model(body.as_bytes()), None);
    assert_eq!(apply_profile_to_body(body.as_bytes(), &profile()), body.as_bytes());
}
