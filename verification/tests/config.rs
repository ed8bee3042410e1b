use wakeupllm::config::{
    arguments_of_line, config_dirs, default_idle, find_model, find_profile, get_arg_value, has_arg,
    macos_config_dirs, resolve_exe, AppConfig, ExeLookup, FloatParam, ModelEntry, ModelProfile,
};

fn profile(name: &str, temperature: f32) -> ModelProfile {
    ModelProfile {
        name: name.to_string(),
        temperature: Some(FloatParam {
            json: serde_json::Value::from(temperature),
            shown: temperature.to_string(),
        }),
        top_p: None,
        top_k: None,
        presence_penalty: None,
    }
}

fn model(id: &str, port: u16) -> ModelEntry {
    ModelEntry {
        id: id.to_string(),
        port,
        executable: "llama-server".to_string(),
        name: None,
        alias: None,
        arguments: Vec::new(),
        profiles: Vec::new(),
    }
}

fn config(out_port: Option<u16>, idle: u64) -> AppConfig {
    AppConfig { out_port, idle_timeout_seconds: idle, models: Vec::new() }
}

fn strings(items: &[&str]) -> Vec<String> {
    items.iter().map(|s| s.to_string()).collect()
}

#[test]
fn defaults_are_port_8000_and_no_timeout() {
    assert_eq!(default_idle(), 0);
    assert_eq!(config(None, 0).proxy_port(), 8000);
    assert_eq!(config(Some(9000), 0).proxy_port(), 9000);
}

#[test]
fn timeout_is_shown_in_whole_minutes() {
    assert_eq!(config(None, 59).idle_timeout_mins(), 0);
    assert_eq!(config(None, 60).idle_timeout_mins(), 1);
    assert_eq!(config(None, 3599).idle_timeout_mins(), 59);
}

#[test]
fn directories_are_searched_in_order() {
    assert_eq!(config_dirs(Some("exe"), Some("cwd"), Some("build")), vec!["exe", "cwd", "build"]);
    assert_eq!(config_dirs(None, Some("cwd"), Some("build")), vec!["cwd", "build"]);
    assert_eq!(config_dirs(Some("exe"), None, None), vec!["exe"]);
    assert_eq!(
        macos_config_dirs(Some("support"), None, Some("cwd")),
        vec!["support", "cwd"]
    );
}

#[test]
fn first_readable_configuration_is_used() {
    let loaded = AppConfig::load(vec![None, Some(config(Some(1), 0)), Some(config(Some(2), 0))]);
    assert_eq!(loaded.unwrap().out_port, Some(1));
    assert!(AppConfig::load(vec![None, None]).is_none());
    assert!(AppConfig::load(Vec::new()).is_none());
}

#[test]
fn executable_is_taken_where_it_is_found() {
    let lookup = |usable: bool, local: Option<&str>| ExeLookup {
        usable,
        local: local.map(|s| s.to_string()),
    };
    assert_eq!(resolve_exe("/bin/s", &lookup(true, Some("/app/s"))), "/bin/s");
    assert_eq!(resolve_exe("s", &lookup(false, Some("/app/s"))), "/app/s");
    assert_eq!(resolve_exe("s", &lookup(false, None)), "s");
}

#[test]
fn models_and_profiles_are_found_by_name() {
    let mut first = model("a", 1);
    first.profiles = vec![profile("hot", 1.0), profile("cold", 0.5), profile("hot", 2.0)];
    let models = vec![first, model("b", 2), model("b", 3)];
    assert_eq!(find_model(&models, "b").unwrap().port, 2);
    assert!(find_model(&models, "c").is_none());
    assert!(find_model(&models, "").is_none());
    let hot = find_profile(&models[0], "hot").unwrap();
    assert_eq!(hot.temperature.as_ref().unwrap().shown, "1");
    assert!(find_profile(&models[0], "warm").is_none());
    assert!(find_profile(&models[1], "hot").is_none());
}

#[test]
fn argument_values_follow_their_names() {
    let args = strings(&["--model", "m.gguf", "--ctx-size", "4096", "--ctx-size", "1", "--last"]);
    assert_eq!(get_arg_value(&args, "--ctx-size"), Some("4096".to_string()));
    assert_eq!(get_arg_value(&args, "--model"), Some("m.gguf".to_string()));
    assert_eq!(get_arg_value(&args, "m.gguf"), Some("--ctx-size".to_string()));
    assert_eq!(get_arg_value(&args, "--last"), None);
    assert_eq!(get_arg_value(&args, "--none"), None);
    assert_eq!(get_arg_value(&[], "--none"), None);
}

#[test]
fn arguments_may_stand_in_one_line() {
    assert_eq!(
        arguments_of_line("-m model.gguf  -ngl 99 -fa --port {port}", 8003),
        strings(&["-m", "model.gguf", "-ngl", "99", "-fa", "--port", "8003"])
    );
    assert_eq!(arguments_of_line("{port}x", 1), strings(&["{port}x"]));
    assert!(arguments_of_line("  ", 1).is_empty());
}

#[test]
fn arguments_are_found_anywhere() {
    let args = strings(&["--flash-attn", "on", "--mmproj"]);
    assert!(has_arg(&args, "--flash-attn"));
    assert!(has_arg(&args, "on"));
    assert!(has_arg(&args, "--mmproj"));
    assert!(!has_arg(&args, "--flash"));
    assert!(!has_arg(&[], "--flash-attn"));
}
