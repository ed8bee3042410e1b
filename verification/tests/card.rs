use serde_json::Value;
use wakeupllm::card::{float_args, model_card, picked_profile, ArgTexts, Tone};
use wakeupllm::config::{FloatParam, ModelEntry, ModelProfile};
use wakeupllm::dashboard::ModelDisplay;

fn strings(items: &[&str]) -> Vec<String> {
    items.iter().map(|s| s.to_string()).collect()
}

fn display() -> ModelDisplay {
    ModelDisplay {
        id: "m".to_string(),
        port: 8003,
        display_name: "Model".to_string(),
        alias: String::new(),
        owned: false,
        external: false,
        warming: false,
        profiles: Vec::new(),
        selected_profile: None,
        ctx_size: 0,
        vision: false,
        flash_attn: false,
        is_moe: false,
    }
}

fn float(f: f32) -> Option<FloatParam> {
    Some(FloatParam { json: Value::from(f), shown: f.to_string() })
}

fn entry(args: &[&str]) -> ModelEntry {
    ModelEntry {
        id: "m".to_string(),
        port: 8003,
        executable: "s".to_string(),
        name: None,
        alias: None,
        arguments: strings(args),
        profiles: vec![
            ModelProfile {
                name: "hot".to_string(),
                temperature: float(1.2),
                top_p: float(0.95),
                top_k: Some(40),
                presence_penalty: float(0.5),
            },
            ModelProfile {
                name: "cold".to_string(),
                temperature: None,
                top_p: None,
                top_k: Some(7),
                presence_penalty: None,
            },
            ModelProfile {
                name: "plain".to_string(),
                temperature: None,
                top_p: None,
                top_k: None,
                presence_penalty: None,
            },
        ],
    }
}

fn no_texts() -> ArgTexts {
    ArgTexts { temp: None, top_p: None, presence_penalty: None }
}

#[test]
fn offline_model_can_be_started() {
    let card = model_card(&display(), &Vec::new(), &no_texts());
    assert_eq!(card.dot, "○");
    assert_eq!(card.tone, Tone::Gray);
    assert_eq!(card.title, "Model");
    assert_eq!(card.alias, None);
    assert!(!card.camera);
    assert_eq!(card.status, " Offline");
    assert_eq!(card.port, ":8003");
    assert!(card.badges.is_empty());
    assert!(card.can_warmup);
    assert!(!card.can_unload);
    assert_eq!(card.unload_label, "Unload");
    assert!(card.selector.is_none());
    assert_eq!(card.params, None);
}

#[test]
fn running_model_can_be_unloaded() {
    let mut d = display();
    d.owned = true;
    let card = model_card(&d, &Vec::new(), &no_texts());
    assert_eq!((card.dot.as_str(), card.status.as_str()), ("●", " Ready"));
    assert_eq!(card.tone, Tone::Green);
    assert!(!card.can_warmup && card.can_unload);
    assert_eq!(card.unload_label, "Unload");
}

#[test]
fn external_model_can_be_unloaded() {
    let mut d = display();
    d.external = true;
    let card = model_card(&d, &Vec::new(), &no_texts());
    assert_eq!((card.dot.as_str(), card.status.as_str()), ("●", " External"));
    assert_eq!(card.tone, Tone::Yellow);
    assert!(!card.can_warmup && card.can_unload);
    assert_eq!(card.unload_label, "Unload external");
}

#[test]
fn warming_model_has_no_button() {
    let mut d = display();
    d.warming = true;
    let card = model_card(&d, &Vec::new(), &no_texts());
    assert_eq!((card.dot.as_str(), card.status.as_str()), ("◐", " Warming"));
    assert_eq!(card.tone, Tone::Yellow);
    assert!(!card.can_warmup && !card.can_unload);
}

#[test]
fn badges_tell_what_a_model_can_do() {
    let mut d = display();
    d.alias = "mm".to_string();
    d.ctx_size = 33000;
    d.vision = true;
    d.flash_attn = true;
    d.is_moe = true;
    let card = model_card(&d, &Vec::new(), &no_texts());
    assert_eq!(card.alias, Some("(mm)".to_string()));
    assert!(card.camera);
    let badges: Vec<(&str, (u8, u8, u8), &str)> =
        card.badges.iter().map(|b| (b.text.as_str(), b.rgb, b.tooltip.as_str())).collect();
    assert_eq!(
        badges,
        vec![
            ("32K ctx", (70, 130, 180), "Context window size"),
            ("Vision", (60, 140, 80), "Multimodal / vision support"),
            ("FlashAttn", (180, 130, 50), "Flash attention enabled"),
            ("MoE", (130, 100, 180), "Mixture of Experts"),
        ]
    );
    d.ctx_size = 1023;
    d.vision = false;
    d.flash_attn = false;
    let card = model_card(&d, &Vec::new(), &no_texts());
    let texts: Vec<&str> = card.badges.iter().map(|b| b.text.as_str()).collect();
    assert_eq!(texts, vec!["0K ctx", "MoE"]);
}

#[test]
fn selector_shows_the_chosen_profile() {
    let mut d = display();
    d.profiles = strings(&["hot", "cold", "plain"]);
    let models = vec![entry(&[])];
    let card = model_card(&d, &models, &no_texts());
    let selector = card.selector.unwrap();
    assert_eq!(selector.id, "profile_8003");
    assert_eq!(selector.current, "hot");
    assert_eq!(selector.choices, d.profiles);
    assert_eq!(card.params, Some("temp=1.2 · top_p=0.95 · top_k=40 · pp=0.5".to_string()));
    d.selected_profile = Some("cold".to_string());
    let card = model_card(&d, &models, &no_texts());
    assert_eq!(card.selector.unwrap().current, "cold");
    assert_eq!(card.params, Some("top_k=7".to_string()));
    d.selected_profile = Some("plain".to_string());
    assert_eq!(model_card(&d, &models, &no_texts()).params, None);
    d.selected_profile = Some("gone".to_string());
    let card = model_card(&d, &models, &no_texts());
    assert_eq!(card.selector.unwrap().current, "gone");
    assert_eq!(card.params, None);
}

#[test]
fn arguments_are_shown_without_profiles() {
    let models = vec![entry(&[
        "--temp", "0.70", "--top-p", "x", "--top-k", "20", "--presence-penalty", "1e1",
    ])];
    let raw = float_args(&models[0]);
    assert_eq!(raw.temp, Some("0.70".to_string()));
    assert_eq!(raw.top_p, Some("x".to_string()));
    assert_eq!(raw.presence_penalty, Some("1e1".to_string()));
    let texts = ArgTexts {
        temp: Some("0.7".to_string()),
        top_p: None,
        presence_penalty: Some("10".to_string()),
    };
    let card = model_card(&display(), &models, &texts);
    assert_eq!(card.params, Some("temp=0.7 · top_k=20 · pp=10".to_string()));
    let models = vec![entry(&["--top-k", "-1"])];
    assert_eq!(model_card(&display(), &models, &no_texts()).params, None);
    assert_eq!(model_card(&display(), &Vec::new(), &texts).params, None);
}

#[test]
fn profile_is_picked_when_it_changes() {
    assert_eq!(picked_profile(true, "a", "b".to_string()), Some("b".to_string()));
    assert_eq!(picked_profile(true, "a", "a".to_string()), None);
    assert_eq!(picked_profile(false, "a", "b".to_string()), None);
}
