//! The icon in the system tray: its menu, and what its messages ask for.
use crate::dashboard;
use crate::dashboard::WakeupApp;
use crate::text;
use vstd::prelude::*;

verus! {

// ── The menu ────────────────────────────────────────────────────────────────

/// What the user asks for in the menu.
#[derive(Debug, Clone, Copy, PartialEq, Eq, Structural)]
pub enum TrayAction {
    Minimize,
    UnloadAll,
    Refresh,
    Quit,
}

/// One line of the menu: an entry with its number and label, or a separator.
pub struct MenuEntry {
    pub id: u32,
    pub label: Option<String>,
}

/// What a `MenuEntry` says.
pub struct MenuEntryView {
    pub id: u32,
    pub label: Option<Seq<char>>,
}

impl DeepView for MenuEntry {
    type V = MenuEntryView;

    open spec fn deep_view(&self) -> MenuEntryView {
        MenuEntryView { id: self.id, label: self.label.deep_view() }
    }
}

/// The line of an entry.
pub open spec fn entry(id: u32, label: Seq<char>) -> MenuEntryView {
    MenuEntryView { id, label: Some(label) }
}

/// A line that separates entries.
pub open spec fn separator() -> MenuEntryView {
    MenuEntryView { id: 0, label: None }
}

/// The lines of the menu.
pub open spec fn menu_lines() -> Seq<MenuEntryView> {
    seq![
        entry(1001, "Minimize Window"@),
        entry(1002, "Unload All"@),
        separator(),
        entry(1003, "Refresh"@),
        separator(),
        entry(1004, "Quit"@),
    ]
}

/// What the entry with the given number asks for. Any other number, as that of a menu that was
/// closed, asks for nothing.
pub open spec fn action_of(command: u32) -> Option<TrayAction> {
    if command == 1001 {
        Some(TrayAction::Minimize)
    } else if command == 1002 {
        Some(TrayAction::UnloadAll)
    } else if command == 1003 {
        Some(TrayAction::Refresh)
    } else if command == 1004 {
        Some(TrayAction::Quit)
    } else {
        None
    }
}

/// The lines of the menu.
pub fn tray_menu() -> (menu: Vec<MenuEntry>)
    ensures
        menu.deep_view() == menu_lines(),
{
    let mut menu: Vec<MenuEntry> = Vec::new();
    menu.push(MenuEntry { id: 1001, label: Some("Minimize Window".to_string()) });
    menu.push(MenuEntry { id: 1002, label: Some("Unload All".to_string()) });
    menu.push(MenuEntry { id: 0, label: None });
    menu.push(MenuEntry { id: 1003, label: Some("Refresh".to_string()) });
    menu.push(MenuEntry { id: 0, label: None });
    menu.push(MenuEntry { id: 1004, label: Some("Quit".to_string()) });
    assert(menu.deep_view() =~= menu_lines());
    menu
}

/// What the entry with the given number asks for.
pub fn tray_command(command: u32) -> (action: Option<TrayAction>)
    ensures
        action == action_of(command),
{
    match command {
        1001 => Some(TrayAction::Minimize),
        1002 => Some(TrayAction::UnloadAll),
        1003 => Some(TrayAction::Refresh),
        1004 => Some(TrayAction::Quit),
        _ => None,
    }
}

/// Every entry of the menu asks for something, no two for the same, and a separator for nothing.
pub proof fn law_every_entry_has_its_action()
    ensures
        forall|i: int|
            0 <= i < menu_lines().len() ==> (action_of((#[trigger] menu_lines()[i]).id) is Some
                <==> menu_lines()[i].label is Some),
        forall|i: int, j: int|
            0 <= i < j < menu_lines().len() && (#[trigger] menu_lines()[i]).label is Some && (
            #[trigger] menu_lines()[j]).label is Some ==> action_of(menu_lines()[i].id)
                != action_of(menu_lines()[j].id),
{
}

// ── Messages ────────────────────────────────────────────────────────────────

/// The numbers of the messages that matter, as the system has them.
pub struct MessageCodes {
    /// The message that the icon sends.
    pub icon: u32,
    /// What it says when the right button goes down on the icon.
    pub right_down: u32,
    /// What it says when the right button goes up.
    pub right_up: u32,
    /// The message that the window is destroyed.
    pub destroy: u32,
}

/// What to do about a message.
#[derive(Debug, Clone, Copy, PartialEq, Eq, Structural)]
pub enum MessageAction {
    /// Show the menu.
    ShowMenu,
    /// Nothing.
    Ignore,
    /// End the message loop.
    EndLoop,
    /// What the system does by itself.
    Default,
}

/// What to do about the message `msg` with the parameter `lparam`.
pub open spec fn message_action(codes: MessageCodes, msg: u32, lparam: u32) -> MessageAction {
    if msg == codes.icon {
        if lparam == codes.right_down || lparam == codes.right_up {
            MessageAction::ShowMenu
        } else {
            MessageAction::Ignore
        }
    } else if msg == codes.destroy {
        MessageAction::EndLoop
    } else {
        MessageAction::Default
    }
}

/// What to do about the message `msg` with the parameter `lparam`.
pub fn tray_message(codes: &MessageCodes, msg: u32, lparam: u32) -> (action: MessageAction)
    ensures
        action == message_action(*codes, msg, lparam),
{
    if msg == codes.icon {
        if lparam == codes.right_down || lparam == codes.right_up {
            MessageAction::ShowMenu
        } else {
            MessageAction::Ignore
        }
    } else if msg == codes.destroy {
        MessageAction::EndLoop
    } else {
        MessageAction::Default
    }
}

/// What the window does about a choice in the menu.
pub enum TrayEffect {
    Minimize,
    /// Stop the servers on these ports; there is at least one.
    Unload(Vec<u16>),
    Refresh,
    Quit,
    Nothing,
}

/// What a `TrayEffect` says.
pub enum TrayEffectView {
    Minimize,
    Unload(Seq<u16>),
    Refresh,
    Quit,
    Nothing,
}

impl DeepView for TrayEffect {
    type V = TrayEffectView;

    open spec fn deep_view(&self) -> TrayEffectView {
        match self {
            TrayEffect::Minimize => TrayEffectView::Minimize,
            TrayEffect::Unload(ports) => TrayEffectView::Unload(ports@),
            TrayEffect::Refresh => TrayEffectView::Refresh,
            TrayEffect::Quit => TrayEffectView::Quit,
            TrayEffect::Nothing => TrayEffectView::Nothing,
        }
    }
}

/// What unloading all models comes to, given what the window shows.
pub open spec fn unload_all(shown: Seq<dashboard::DisplayView>) -> TrayEffectView {
    let ports = dashboard::ports(dashboard::owned_models(shown));
    if ports.len() > 0 {
        TrayEffectView::Unload(ports)
    } else {
        TrayEffectView::Nothing
    }
}

/// What the window does about a choice in the menu.
pub open spec fn effect_of(action: TrayAction, shown: Seq<dashboard::DisplayView>) -> TrayEffectView {
    match action {
        TrayAction::Minimize => TrayEffectView::Minimize,
        TrayAction::UnloadAll => unload_all(shown),
        TrayAction::Refresh => TrayEffectView::Refresh,
        TrayAction::Quit => TrayEffectView::Quit,
    }
}

/// What the window does about a choice in the menu.
pub fn tray_effect(action: TrayAction, app: &WakeupApp) -> (effect: TrayEffect)
    ensures
        effect.deep_view() == effect_of(action, app.models.deep_view()),
{
    match action {
        TrayAction::Minimize => TrayEffect::Minimize,
        TrayAction::UnloadAll => {
            let ports = app.ports_to_unload();
            if ports.len() > 0 {
                TrayEffect::Unload(ports)
            } else {
                TrayEffect::Nothing
            }
        },
        TrayAction::Refresh => TrayEffect::Refresh,
        TrayAction::Quit => TrayEffect::Quit,
    }
}

// ── Text for the system ─────────────────────────────────────────────────────

/// One character in UTF-16.
pub open spec fn utf16_of(c: char) -> Seq<u16> {
    if (c as int) < 0x10000 {
        seq![c as u16]
    } else {
        seq![
            (0xd800 + (c as int - 0x10000) / 0x400) as u16,
            (0xdc00 + (c as int - 0x10000) % 0x400) as u16,
        ]
    }
}

/// A text in UTF-16.
pub open spec fn utf16(s: Seq<char>) -> Seq<u16>
    decreases s.len(),
{
    if s.len() == 0 {
        seq![]
    } else {
        utf16(s.drop_last()) + utf16_of(s.last())
    }
}

/// How large the number of a character can be.
proof fn lemma_char_code(c: char)
    ensures
        0 <= c as int <= 0x10ffff,
        c as u32 as int == c as int,
{
}

/// A text in UTF-16, with a zero behind it.
pub fn to_wide(s: &str) -> (res: Vec<u16>)
    ensures
        res@ == utf16(s@).push(0),
{
    let chars = text::chars_of(s);
    let mut res: Vec<u16> = Vec::new();
    let mut i: usize = 0;
    assert(s@.take(0).len() == 0);
    while i < chars.len()
        invariant
            i <= chars.len(),
            chars@ == s@,
            res@ == utf16(s@.take(i as int)),
        decreases chars.len() - i,
    {
        let ghost before = res@;
        let c = chars[i];
        proof {
            lemma_char_code(c);
        }
        assert(s@.take(i + 1).drop_last() == s@.take(i as int));
        let code: u32 = c as u32;
        if code < 0x10000 {
            res.push(code as u16);
        } else {
            let rest: u32 = code - 0x10000;
            res.push((0xd800 + rest / 0x400) as u16);
            res.push((0xdc00 + rest % 0x400) as u16);
        }
        assert(res@ == before + utf16_of(c));
        i += 1;
    }
    assert(s@.take(s@.len() as int) == s@);
    res.push(0);
    res
}

// ── Laws ────────────────────────────────────────────────────────────────────

/// The menu offers four things under their labels, and a choice asks for what its label says.
pub proof fn law_menu_says_what_it_does(i: int, command: u32)
    ensures
        menu_lines().len() == 6,
        0 <= i < 6 && menu_lines()[i].id == command && menu_lines()[i].label is Some ==> (
        action_of(command) == Some(TrayAction::Minimize) <==> menu_lines()[i].label == Some(
            "Minimize Window"@,
        )),
        0 <= i < 6 && menu_lines()[i].id == command && menu_lines()[i].label is Some ==> (
        action_of(command) == Some(TrayAction::UnloadAll) <==> menu_lines()[i].label == Some(
            "Unload All"@,
        )),
        0 <= i < 6 && menu_lines()[i].id == command && menu_lines()[i].label is Some ==> (
        action_of(command) == Some(TrayAction::Refresh) <==> menu_lines()[i].label == Some(
            "Refresh"@,
        )),
        0 <= i < 6 && menu_lines()[i].id == command && menu_lines()[i].label is Some ==> (
        action_of(command) == Some(TrayAction::Quit) <==> menu_lines()[i].label == Some("Quit"@)),
        action_of(command) is Some <==> exists|j: int|
            0 <= j < 6 && (#[trigger] menu_lines()[j]).id == command && menu_lines()[j].label
                is Some,
{
    reveal_strlit("Minimize Window");
    reveal_strlit("Unload All");
    reveal_strlit("Refresh");
    reveal_strlit("Quit");
    assert("Minimize Window"@.len() == 15 && "Unload All"@.len() == 10 && "Refresh"@.len() == 7
        && "Quit"@.len() == 4);
    assert(menu_lines()[0].id == 1001 && menu_lines()[1].id == 1002 && menu_lines()[3].id == 1003
        && menu_lines()[5].id == 1004);
    assert(menu_lines()[2].label is None && menu_lines()[4].label is None);
}

/// The menu is shown for a right click on the icon and for nothing else; the loop ends when the
/// window is destroyed; other messages of the icon are ignored, and the system has the rest.
pub proof fn law_right_click_shows_the_menu(codes: MessageCodes, msg: u32, lparam: u32)
    ensures
        message_action(codes, msg, lparam) == MessageAction::ShowMenu <==> msg == codes.icon && (
        lparam == codes.right_down || lparam == codes.right_up),
        message_action(codes, msg, lparam) == MessageAction::EndLoop <==> msg == codes.destroy
            && msg != codes.icon,
        message_action(codes, msg, lparam) == MessageAction::Default <==> msg != codes.icon && msg
            != codes.destroy,
{
}

/// A choice in the menu does what it says; unloading all stops every server that was started here,
/// and does nothing where there is none.
pub proof fn law_choices_have_effects(shown: Seq<dashboard::DisplayView>)
    ensures
        effect_of(TrayAction::Minimize, shown) is Minimize,
        effect_of(TrayAction::Refresh, shown) is Refresh,
        effect_of(TrayAction::Quit, shown) is Quit,
        dashboard::owned_models(shown).len() == 0 ==> effect_of(TrayAction::UnloadAll, shown)
            is Nothing,
        dashboard::owned_models(shown).len() > 0 ==> effect_of(TrayAction::UnloadAll, shown)
            == TrayEffectView::Unload(
            dashboard::owned_models(shown).map_values(|d: dashboard::DisplayView| d.port),
        ),
{
}

/// In UTF-16 a text is its characters one behind the other: one unit where the number of the
/// character fits, and else two surrogates from which it can be computed again.
pub proof fn law_text_in_utf16(s: Seq<char>, c: char)
    ensures
        utf16(seq![]).len() == 0,
        c as int <= 0xffff ==> utf16(s.push(c)).len() == utf16(s).len() + 1 && utf16(
            s.push(c),
        ).last() as int == c as int,
        c as int > 0xffff ==> ({
            let u = utf16(s.push(c));
            let n = utf16(s).len() as int;
            &&& u.len() == n + 2
            &&& 0xd800 <= u[n] < 0xdc00
            &&& 0xdc00 <= u[n + 1] < 0xe000
            &&& c as int == 0x10000 + (u[n] - 0xd800) * 0x400 + (u[n + 1] - 0xdc00)
        }),
        utf16(s.push(c)).take(utf16(s).len() as int) == utf16(s),
{
    assert(s.push(c).drop_last() == s);
    lemma_char_code(c);
    assert(utf16(s.push(c)) == utf16(s) + utf16_of(c));
    assert(utf16(s.push(c)).take(utf16(s).len() as int) == utf16(s));
    if c as int <= 0xffff {
        assert(c as u16 as int == c as int);
    }
}

} // verus!
