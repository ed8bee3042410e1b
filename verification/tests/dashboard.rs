use std::collections::HashSet;
use wakeupllm::config::{AppConfig, ExeLookup, ModelEntry, ModelProfile};
use wakeupllm::dashboard::{whole_arg, WakeupApp};
use wakeupllm::manager::{ProcessManager, StartEvent};
use wakeupllm::selections::{load_profile_selections, ProfileSelections};
use wakeupllm::tray::{tray_effect, TrayAction, TrayEffect};

fn strings(items: &[&str]) -> Vec<String> {
    items.iter().map(|s| s.to_string()).collect()
}

fn model(id: &str, port: u16, args: &[&str]) -> ModelEntry {
    ModelEntry {
        id: id.to_string(),
        port,
        executable: "s".to_string(),
        name: None,
        alias: None,
        arguments: strings(args),
        profiles: Vec::new(),
    }
}

fn models() -> Vec<ModelEntry> {
    let mut c = model("c", 3, &["--ctx-size", "big"]);
    c.name = Some("The C".to_string());
    c.alias = Some("cc".to_string());
    c.profiles = ["hot", "cold"]
        .iter()
        .map(|name| ModelProfile {
            name: name.to_string(),
            temperature: None,
            top_p: None,
            top_k: None,
            presence_penalty: None,
        })
        .collect();
    vec![
        model("org/a", 1, &["--ctx-size", "32768", "--flash-attn", "on", "--mmproj", "p"]),
        model("b", 2, &["--n-cpu-moe", "4"]),
        c,
    ]
}

fn app() -> WakeupApp {
    let cfg = AppConfig { out_port: Some(9000), idle_timeout_seconds: 330, models: models() };
    WakeupApp::new(cfg, ProfileSelections::new())
}

fn manager() -> ProcessManager {
    let lookups = (0..3).map(|_| ExeLookup { usable: true, local: None }).collect();
    ProcessManager::new(330, &models(), &lookups)
}

#[test]
fn new_window_tells_its_port() {
    let app = app();
    assert_eq!(app.message, "Proxy on :9000");
    assert_eq!(app.proxy_port, 9000);
    assert_eq!(app.idle_timeout_mins, 5);
    assert!(app.models.is_empty());
    assert_eq!(app.models_cfg.len(), 3);
}

#[test]
fn refresh_shows_every_model() {
    let mut app = app();
    let mut pm = manager();
    let _ = pm.start(1, StartEvent::Spawned, 0);
    assert_eq!(app.ports_to_probe(&pm), vec![2, 3]);
    let mut warming: HashSet<u16> = [1, 3, 7].into_iter().collect();
    let ids = app.refresh(&pm, &mut warming, &vec![1, 2]);
    assert!(warming.is_empty());
    assert_eq!(ids, strings(&["org/a"]));
    assert_eq!(app.message, "1 running | Proxy :9000 | Idle: 5m");
    let shown: Vec<(&str, u16, &str, &str)> = app
        .models
        .iter()
        .map(|m| (m.id.as_str(), m.port, m.display_name.as_str(), m.alias.as_str()))
        .collect();
    assert_eq!(
        shown,
        vec![("org/a", 1, "a", ""), ("b", 2, "b", ""), ("c", 3, "The C", "cc")]
    );
    let states: Vec<(bool, bool, bool)> =
        app.models.iter().map(|m| (m.owned, m.external, m.warming)).collect();
    assert_eq!(states, vec![(true, false, false), (false, true, false), (false, false, false)]);
    let abilities: Vec<(u32, bool, bool, bool)> =
        app.models.iter().map(|m| (m.ctx_size, m.vision, m.flash_attn, m.is_moe)).collect();
    assert_eq!(
        abilities,
        vec![(32768, true, true, false), (0, false, false, true), (0, false, false, false)]
    );
    assert_eq!(app.models[2].profiles, strings(&["hot", "cold"]));
}

#[test]
fn chosen_profile_is_shown_and_saved() {
    let mut app = app();
    let pm = manager();
    let data = app.choose_profile("c", Some("cold")).unwrap();
    assert_eq!(load_profile_selections(Some(&data)).get("c"), Some("cold".to_string()));
    let _ = app.refresh(&pm, &mut HashSet::new(), &Vec::new());
    assert_eq!(app.models[2].selected_profile, Some("cold".to_string()));
    assert_eq!(app.models[0].selected_profile, None);
    let data = app.choose_profile("c", None).unwrap();
    assert_eq!(data, "{}");
    let _ = app.refresh(&pm, &mut HashSet::new(), &Vec::new());
    assert_eq!(app.models[2].selected_profile, None);
    assert_eq!(app.message, "0 running | Proxy :9000 | Idle: 5m");
}

#[test]
fn warmup_starts_a_configured_model() {
    let app = app();
    let mut warming = HashSet::new();
    assert_eq!(app.warmup_model("b", &mut warming), Some(2));
    assert!(warming.contains(&2));
    assert_eq!(app.warmup_model("x", &mut warming), None);
    assert_eq!(warming.len(), 1);
}

#[test]
fn models_that_ran_are_started_unless_they_run() {
    let mut app = app();
    let mut pm = manager();
    let ran = strings(&["org/a", "b", "c", "gone"]);
    assert_eq!(app.models_to_warm(&ran), ran);
    let _ = pm.start(1, StartEvent::Spawned, 0);
    let _ = app.refresh(&pm, &mut HashSet::new(), &vec![2]);
    assert_eq!(app.models_to_warm(&ran), strings(&["c", "gone"]));
}

#[test]
fn tray_choices_have_effects() {
    let mut app = app();
    let mut pm = manager();
    assert!(matches!(tray_effect(TrayAction::UnloadAll, &app), TrayEffect::Nothing));
    let _ = pm.start(1, StartEvent::Spawned, 0);
    let _ = pm.start(3, StartEvent::Spawned, 0);
    let _ = app.refresh(&pm, &mut HashSet::new(), &vec![2]);
    assert_eq!(app.ports_to_unload(), vec![1, 3]);
    assert!(matches!(
        tray_effect(TrayAction::UnloadAll, &app),
        TrayEffect::Unload(ports) if ports == vec![1, 3]
    ));
    assert!(matches!(tray_effect(TrayAction::Minimize, &app), TrayEffect::Minimize));
    assert!(matches!(tray_effect(TrayAction::Refresh, &app), TrayEffect::Refresh));
    assert!(matches!(tray_effect(TrayAction::Quit, &app), TrayEffect::Quit));
}

#[test]
fn whole_arguments_are_numbers() {
    let args = strings(&["--top-k", "40", "--n", "-1", "--m"]);
    assert_eq!(whole_arg(&args, "--top-k", 100), Some(40));
    assert_eq!(whole_arg(&args, "--top-k", 39), None);
    assert_eq!(whole_arg(&args, "--n", 100), None);
    assert_eq!(whole_arg(&args, "--m", 100), None);
}
