use wakeupllm::selections::{
    load_profile_selections, load_running_models, save_profile_selection, save_running_models,
    ProfileSelections,
};

fn strings(items: &[&str]) -> Vec<String> {
    items.iter().map(|s| s.to_string()).collect()
}

#[test]
fn choices_are_kept_and_taken_back() {
    let mut chosen = ProfileSelections::new();
    assert_eq!(chosen.get("m"), None);
    chosen.insert("m", "hot");
    chosen.insert("n", "cold");
    chosen.insert("m", "warm");
    assert_eq!(chosen.get("m"), Some("warm".to_string()));
    assert_eq!(chosen.get("n"), Some("cold".to_string()));
    chosen.remove("m");
    chosen.remove("x");
    assert_eq!(chosen.get("m"), None);
    assert_eq!(chosen.get("n"), Some("cold".to_string()));
}

#[test]
fn saved_choices_are_loaded_again() {
    let mut chosen = ProfileSelections::new();
    let _ = save_profile_selection("m \"1\"", Some("hé"), &mut chosen);
    let _ = save_profile_selection("n", Some("b"), &mut chosen);
    let _ = save_profile_selection("o", Some("c"), &mut chosen);
    let data = save_profile_selection("n", None, &mut chosen).unwrap();
    assert_eq!(chosen.get("n"), None);
    let loaded = load_profile_selections(Some(&data));
    assert_eq!(loaded.get("m \"1\""), Some("hé".to_string()));
    assert_eq!(loaded.get("o"), Some("c".to_string()));
    assert_eq!(loaded.get("n"), None);
}

#[test]
fn one_choice_is_printed_for_people() {
    let mut chosen = ProfileSelections::new();
    let data = save_profile_selection("m", Some("hot"), &mut chosen).unwrap();
    assert_eq!(data, "{\n  \"m\": \"hot\"\n}");
}

#[test]
fn unreadable_choices_are_none() {
    for data in [None, Some(""), Some("[]"), Some("{\"m\":1}"), Some("{\"m\":\"x\"")] {
        assert_eq!(load_profile_selections(data).get("m"), None);
    }
    let twice = load_profile_selections(Some("{\"m\":\"a\",\"m\":\"b\"}"));
    assert_eq!(twice.get("m"), Some("b".to_string()));
}

#[test]
fn saved_models_are_loaded_again() {
    for ids in [strings(&[]), strings(&["m"]), strings(&["b", "a", "b", "é\n"])] {
        let data = save_running_models(&ids).unwrap();
        assert_eq!(load_running_models(Some(&data)), ids);
    }
    assert_eq!(save_running_models(&strings(&["a", "b"])).unwrap(), "[\n  \"a\",\n  \"b\"\n]");
    assert_eq!(save_running_models(&strings(&[])).unwrap(), "[]");
}

#[test]
fn unreadable_models_are_none() {
    for data in [None, Some(""), Some("{}"), Some("[1]"), Some("[\"a\"")] {
        assert!(load_running_models(data).is_empty());
    }
}
