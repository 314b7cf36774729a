use companion::hotkey::{
    classify_lowered_part, parse_key, HotkeyBinding, HotkeyEvent, HotkeyListener, HotkeyPart, Key,
    KeyAction, KeySet,
};

#[test]
fn test_parse_alt_backtick() {
    let binding = HotkeyBinding::parse("Alt+`").unwrap();
    assert!(binding.modifiers.contains(&Key::Alt));
    assert_eq!(binding.key, Key::BackQuote);
}

#[test]
fn test_parse_ctrl_shift_a() {
    let binding = HotkeyBinding::parse("Ctrl+Shift+A").unwrap();
    assert!(binding.modifiers.contains(&Key::ControlLeft));
    assert!(binding.modifiers.contains(&Key::ShiftLeft));
    assert_eq!(binding.key, Key::KeyA);
}

#[test]
fn test_parse_alt_t() {
    let binding = HotkeyBinding::parse("Alt+T").unwrap();
    assert!(binding.modifiers.contains(&Key::Alt));
    assert_eq!(binding.key, Key::KeyT);
}

#[test]
fn test_matches() {
    let binding = HotkeyBinding::parse("Alt+Shift+E").unwrap();
    let mut pressed = KeySet::new();
    pressed.insert(Key::Alt);
    pressed.insert(Key::ShiftLeft);
    assert!(binding.matches(&pressed, &Key::KeyE));

    pressed.remove(&Key::Alt);
    assert!(!binding.matches(&pressed, &Key::KeyE));
}

#[test]
fn test_parse_invalid() {
    assert!(HotkeyBinding::parse("").is_none());
}

#[test]
fn parse_rejects_unknown_parts_and_missing_main_key() {
    assert!(HotkeyBinding::parse("Alt+Shift").is_none());
    assert!(HotkeyBinding::parse("Alt+Banana").is_none());
    assert!(HotkeyBinding::parse("Hyper+A").is_none());
}

#[test]
fn parse_is_case_insensitive_and_trims() {
    let binding = HotkeyBinding::parse(" ctrl + shift + a ").unwrap();
    assert!(binding.modifiers.contains(&Key::ControlLeft));
    assert!(binding.modifiers.contains(&Key::ShiftLeft));
    assert_eq!(binding.key, Key::KeyA);
}

#[test]
fn parse_key_names() {
    assert_eq!(parse_key("space"), Some(Key::Space));
    assert_eq!(parse_key("F5"), Some(Key::F5));
    assert_eq!(parse_key("nope"), None);
}

#[test]
fn matches_accepts_either_side_of_a_modifier() {
    let binding = HotkeyBinding::parse("Ctrl+A").unwrap();
    let mut pressed = KeySet::new();
    pressed.insert(Key::ControlRight);
    assert!(binding.matches(&pressed, &Key::KeyA));
    assert!(!binding.matches(&pressed, &Key::KeyB));
}

#[test]
fn key_set_has_no_duplicates() {
    let mut s = KeySet::new();
    assert!(s.insert(Key::Alt));
    assert!(!s.insert(Key::Alt));
    assert_eq!(s.len(), 1);
    assert!(s.remove(&Key::Alt));
    assert!(!s.remove(&Key::Alt));
    assert_eq!(s.len(), 0);
}

#[test]
fn push_to_talk_starts_and_stops_alternately() {
    let mut l = HotkeyListener::new(
        HotkeyBinding::parse("Alt+`").unwrap(),
        HotkeyBinding::parse("Alt+T").unwrap(),
        HotkeyBinding::parse("Alt+Shift+V").unwrap(),
        HotkeyBinding::parse("Alt+Shift+E").unwrap(),
    );
    assert!(l.handle(KeyAction::Press(Key::Alt)).is_empty());
    assert_eq!(l.handle(KeyAction::Press(Key::BackQuote)), vec![HotkeyEvent::RecordStart]);
    // key repeat while held: no second start
    assert!(l.handle(KeyAction::Press(Key::BackQuote)).is_empty());
    assert_eq!(l.handle(KeyAction::Release(Key::BackQuote)), vec![HotkeyEvent::RecordStop]);
    assert!(l.handle(KeyAction::Release(Key::Alt)).is_empty());
    assert_eq!(l.handle(KeyAction::Press(Key::KeyT)), Vec::<HotkeyEvent>::new());
    l.handle(KeyAction::Press(Key::Alt));
    assert_eq!(l.handle(KeyAction::Press(Key::KeyT)), vec![HotkeyEvent::TtsTrigger]);
}

#[test]
fn stopped_listener_ignores_keys() {
    let mut l = HotkeyListener::new(
        HotkeyBinding::parse("Alt+`").unwrap(),
        HotkeyBinding::parse("Alt+T").unwrap(),
        HotkeyBinding::parse("Alt+Shift+V").unwrap(),
        HotkeyBinding::parse("Alt+Shift+E").unwrap(),
    );
    assert!(l.handle_unless_stopped(true, KeyAction::Press(Key::Alt)).is_empty());
    assert!(l.handle_unless_stopped(true, KeyAction::Press(Key::BackQuote)).is_empty());
    assert_eq!(l.pressed.len(), 0);
    assert!(!l.record_held);
    assert!(l.handle_unless_stopped(false, KeyAction::Press(Key::Alt)).is_empty());
    assert_eq!(
        l.handle_unless_stopped(false, KeyAction::Press(Key::BackQuote)),
        vec![HotkeyEvent::RecordStart]
    );
    // a release while stopped is ignored: recording stays held, no stop is sent
    assert!(l.handle_unless_stopped(true, KeyAction::Release(Key::BackQuote)).is_empty());
    assert!(l.record_held);
    assert_eq!(
        l.handle_unless_stopped(false, KeyAction::Release(Key::BackQuote)),
        vec![HotkeyEvent::RecordStop]
    );
}

#[test]
fn lowered_parts_are_classified() {
    assert_eq!(classify_lowered_part("ctrl"), HotkeyPart::Modifier(Key::ControlLeft));
    assert_eq!(classify_lowered_part("control"), HotkeyPart::Modifier(Key::ControlLeft));
    assert_eq!(classify_lowered_part("cmd"), HotkeyPart::Modifier(Key::MetaLeft));
    assert_eq!(classify_lowered_part("alt"), HotkeyPart::Modifier(Key::Alt));
    assert_eq!(classify_lowered_part("f5"), HotkeyPart::Main(Key::F5));
    assert_eq!(classify_lowered_part("esc"), HotkeyPart::Main(Key::Escape));
    assert_eq!(classify_lowered_part("hyper"), HotkeyPart::Invalid);
    assert_eq!(classify_lowered_part(""), HotkeyPart::Invalid);
}
