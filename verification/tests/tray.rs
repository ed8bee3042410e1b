use wakeupllm::tray::{
    to_wide, tray_command, tray_menu, tray_message, MessageAction, MessageCodes, TrayAction,
};

#[test]
fn menu_has_its_entries() {
    let menu: Vec<(u32, Option<String>)> =
        tray_menu().into_iter().map(|e| (e.id, e.label)).collect();
    let entry = |id: u32, label: &str| (id, Some(label.to_string()));
    assert_eq!(
        menu,
        vec![
            entry(1001, "Minimize Window"),
            entry(1002, "Unload All"),
            (0, None),
            entry(1003, "Refresh"),
            (0, None),
            entry(1004, "Quit"),
        ]
    );
}

#[test]
fn every_entry_has_its_action() {
    let actions: Vec<Option<TrayAction>> =
        tray_menu().iter().map(|e| tray_command(e.id)).collect();
    assert_eq!(
        actions,
        vec![
            Some(TrayAction::Minimize),
            Some(TrayAction::UnloadAll),
            None,
            Some(TrayAction::Refresh),
            None,
            Some(TrayAction::Quit),
        ]
    );
    assert_eq!(tray_command(1000), None);
    assert_eq!(tray_command(1005), None);
}

#[test]
fn right_click_shows_the_menu() {
    let codes = MessageCodes { icon: 1025, right_down: 516, right_up: 517, destroy: 2 };
    assert_eq!(tray_message(&codes, 1025, 516), MessageAction::ShowMenu);
    assert_eq!(tray_message(&codes, 1025, 517), MessageAction::ShowMenu);
    assert_eq!(tray_message(&codes, 1025, 512), MessageAction::Ignore);
    assert_eq!(tray_message(&codes, 2, 0), MessageAction::EndLoop);
    assert_eq!(tray_message(&codes, 516, 516), MessageAction::Default);
}

#[test]
fn wide_text_is_utf16_with_a_zero() {
    for s in ["", "wakeupLLM", "é", "日本", "\u{1F600}x\u{10ffff}", "\u{ffff}\u{10000}"] {
        let mut want: Vec<u16> = s.encode_utf16().collect();
        want.push(0);
        assert_eq!(to_wide(s), want, "{:?}", s);
    }
}
