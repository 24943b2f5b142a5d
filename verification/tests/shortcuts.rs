use envy_linux::shortcuts::{
    action_name, digit_code, letter_code, parse_shortcut, shortcut_bindings,
    shortcut_event_action, KeyCode, Shortcut, ShortcutAction, ShortcutRegistry,
};

#[test]
fn a_binding_reads_as_modifiers_and_a_key() {
    assert_eq!(
        parse_shortcut("Ctrl+Alt+Shift+P"),
        Some(Shortcut { control: true, alt: true, shift: true, key: KeyCode::Letter('P') })
    );
    assert_eq!(
        parse_shortcut("Ctrl + Alt + Enter"),
        Some(Shortcut { control: true, alt: true, shift: false, key: KeyCode::Enter })
    );
    assert_eq!(
        parse_shortcut("alt+x"),
        Some(Shortcut { control: false, alt: false, shift: false, key: KeyCode::Letter('X') })
    );
    assert_eq!(
        parse_shortcut("Ctrl+7"),
        Some(Shortcut { control: true, alt: false, shift: false, key: KeyCode::Digit('7') })
    );
    assert_eq!(
        parse_shortcut("Shift+,"),
        Some(Shortcut { control: false, alt: false, shift: true, key: KeyCode::Comma })
    );
}

#[test]
fn a_binding_without_a_key_is_refused() {
    assert_eq!(parse_shortcut("Ctrl+Alt"), None);
    assert_eq!(parse_shortcut(""), None);
    assert_eq!(parse_shortcut("Ctrl+F1"), None);
    assert_eq!(parse_shortcut("Ctrl+!"), None);
}

#[test]
fn the_last_key_named_wins() {
    assert_eq!(
        parse_shortcut("A+Space"),
        Some(Shortcut { control: false, alt: false, shift: false, key: KeyCode::Space })
    );
    // An unknown single character clears the key named before it.
    assert_eq!(parse_shortcut("A+!"), None);
}

#[test]
fn key_codes_follow_the_character() {
    assert_eq!(letter_code('Q'), KeyCode::Letter('Q'));
    assert_eq!(digit_code('0'), KeyCode::Digit('0'));
}

#[test]
fn shortcuts_dispatch_by_their_id_on_press_only() {
    let mut r = ShortcutRegistry::new();
    r.record(11, ShortcutAction::KeepOnTop);
    r.record(12, ShortcutAction::SummonApp);
    assert_eq!(shortcut_event_action(&r, 11, true), Some(ShortcutAction::KeepOnTop));
    assert_eq!(shortcut_event_action(&r, 11, false), None);
    assert_eq!(shortcut_event_action(&r, 13, true), None);
    r.record(11, ShortcutAction::UnpinFromTray);
    assert_eq!(r.action_for(11), Some(ShortcutAction::UnpinFromTray));
    r.clear();
    assert_eq!(r.action_for(12), None);
}

#[test]
fn the_four_bindings_register_in_order() {
    let b = shortcut_bindings("a".into(), "b".into(), "c".into(), "d".into());
    let names: Vec<&str> = b.iter().map(|(a, _)| action_name(*a)).collect();
    assert_eq!(names, vec!["summonApp", "showPinnedNote", "unpinFromTray", "keepOnTop"]);
    assert_eq!(b[2].1, "c");
}
