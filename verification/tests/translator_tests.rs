use joyride::{
    Action, ButtonMap, InputTranslator, KeyCombo, Modifier, MouseButtonKind, OutputEvent,
    OutputEventKind, DOUBLE_CLICK_DELAY_MS,
};

fn config_with_map(map: Vec<(&str, Action)>) -> ButtonMap {
    let mut m = ButtonMap::new();
    for (k, v) in map {
        m.insert(k.to_string(), v);
    }
    m
}

fn state_with_buttons(buttons: &[&str]) -> Vec<String> {
    buttons.iter().map(|b| b.to_string()).collect()
}

fn idle() -> Vec<String> {
    Vec::new()
}

fn event_kinds(events: &[OutputEvent]) -> Vec<&OutputEventKind> {
    events.iter().map(|e| &e.kind).collect()
}

#[test]
fn button_press_emits_mouse_down() {
    let mut t = InputTranslator::new();
    let config = config_with_map(vec![("buttonA", Action::LeftClick)]);
    let state = state_with_buttons(&["buttonA"]);
    let events = t.translate_buttons(&state, &config);
    assert_eq!(event_kinds(&events), vec![&OutputEventKind::MouseDown(MouseButtonKind::Left)]);
}

#[test]
fn button_release_emits_mouse_up() {
    let mut t = InputTranslator::new();
    let config = config_with_map(vec![("buttonA", Action::LeftClick)]);
    t.translate_buttons(&state_with_buttons(&["buttonA"]), &config);
    let events = t.translate_buttons(&idle(), &config);
    assert_eq!(event_kinds(&events), vec![&OutputEventKind::MouseUp(MouseButtonKind::Left)]);
}

#[test]
fn button_held_no_repeat() {
    let mut t = InputTranslator::new();
    let config = config_with_map(vec![("buttonA", Action::LeftClick)]);
    let state = state_with_buttons(&["buttonA"]);
    let events1 = t.translate_buttons(&state, &config);
    assert_eq!(events1.len(), 1);
    let events2 = t.translate_buttons(&state, &config);
    assert!(events2.is_empty());
}

#[test]
fn regression_release_on_idle_frame() {
    let mut t = InputTranslator::new();
    let config = config_with_map(vec![("buttonA", Action::LeftClick)]);
    t.translate_buttons(&state_with_buttons(&["buttonA"]), &config);
    assert!(t.has_buttons_pressed());
    let idle = idle();
    assert!(idle.is_empty());
    let events = t.translate_buttons(&idle, &config);
    assert_eq!(event_kinds(&events), vec![&OutputEventKind::MouseUp(MouseButtonKind::Left)]);
    assert!(!t.has_buttons_pressed());
}

#[test]
fn regression_double_click_once_per_press() {
    let mut t = InputTranslator::new();
    let config = config_with_map(vec![("buttonX", Action::DoubleLeftClick)]);
    let state = state_with_buttons(&["buttonX"]);

    let events1 = t.translate_buttons(&state, &config);
    assert_eq!(events1.len(), 4);
    assert_eq!(events1[0].kind, OutputEventKind::MouseDown(MouseButtonKind::Left));
    assert_eq!(events1[1].kind, OutputEventKind::MouseUp(MouseButtonKind::Left));
    assert_eq!(events1[2].kind, OutputEventKind::MouseDown(MouseButtonKind::Left));
    assert_eq!(events1[2].delay_ms, DOUBLE_CLICK_DELAY_MS);
    assert_eq!(events1[3].kind, OutputEventKind::MouseUp(MouseButtonKind::Left));

    let events2 = t.translate_buttons(&state, &config);
    assert!(events2.is_empty());

    t.translate_buttons(&idle(), &config);

    let events3 = t.translate_buttons(&state, &config);
    assert_eq!(events3.len(), 4);
}

#[test]
fn regression_double_click_independent_of_single_click() {
    let mut t = InputTranslator::new();
    let config = config_with_map(vec![
        ("buttonA", Action::LeftClick),
        ("buttonX", Action::DoubleLeftClick),
    ]);

    let events = t.translate_buttons(&state_with_buttons(&["buttonA"]), &config);
    assert!(events.iter().any(|e| e.kind == OutputEventKind::MouseDown(MouseButtonKind::Left)));

    let events = t.translate_buttons(&state_with_buttons(&["buttonA"]), &config);
    assert!(events.is_empty());

    let events = t.translate_buttons(&idle(), &config);
    assert!(events.iter().any(|e| e.kind == OutputEventKind::MouseUp(MouseButtonKind::Left)));

    let events = t.translate_buttons(&state_with_buttons(&["buttonX"]), &config);
    assert_eq!(events.len(), 4);

    t.translate_buttons(&idle(), &config);

    let events = t.translate_buttons(&state_with_buttons(&["buttonA"]), &config);
    assert_eq!(event_kinds(&events), vec![&OutputEventKind::MouseDown(MouseButtonKind::Left)]);
}

#[test]
fn key_press_emits_down_up() {
    let mut t = InputTranslator::new();
    let combo = KeyCombo {
        modifiers: vec![Modifier::Command],
        keycode: 0x00,
        key_name: "A".to_string(),
    };
    let config = config_with_map(vec![("buttonY", Action::KeyPress(combo))]);
    let state = state_with_buttons(&["buttonY"]);
    let events = t.translate_buttons(&state, &config);
    assert_eq!(events.len(), 2);
    assert!(matches!(events[0].kind, OutputEventKind::KeyDown { keycode: 0x00, .. }));
    assert!(matches!(events[1].kind, OutputEventKind::KeyUp { keycode: 0x00, .. }));
}

#[test]
fn key_press_no_repeat_while_held() {
    let mut t = InputTranslator::new();
    let combo = KeyCombo {
        modifiers: vec![],
        keycode: 0x31,
        key_name: "Space".to_string(),
    };
    let config = config_with_map(vec![("buttonY", Action::KeyPress(combo))]);
    let state = state_with_buttons(&["buttonY"]);

    let events1 = t.translate_buttons(&state, &config);
    assert_eq!(events1.len(), 2);

    let events2 = t.translate_buttons(&state, &config);
    assert!(events2.is_empty());

    t.translate_buttons(&idle(), &config);
    let events3 = t.translate_buttons(&state, &config);
    assert_eq!(events3.len(), 2);
}

#[test]
fn multiple_buttons_simultaneous() {
    let mut t = InputTranslator::new();
    let config = config_with_map(vec![
        ("buttonA", Action::LeftClick),
        ("buttonB", Action::RightClick),
    ]);
    let state = state_with_buttons(&["buttonA", "buttonB"]);
    let events = t.translate_buttons(&state, &config);
    let kinds: Vec<_> = event_kinds(&events);
    assert!(kinds.contains(&&OutputEventKind::MouseDown(MouseButtonKind::Left)));
    assert!(kinds.contains(&&OutputEventKind::MouseDown(MouseButtonKind::Right)));
}

#[test]
fn idle_no_events() {
    let mut t = InputTranslator::new();
    let events = t.translate_buttons(&idle(), &ButtonMap::new());
    assert!(events.is_empty());
}

#[test]
fn two_buttons_same_action_no_premature_release() {
    let mut t = InputTranslator::new();
    let config = config_with_map(vec![
        ("buttonA", Action::LeftClick),
        ("buttonB", Action::LeftClick),
    ]);

    let events = t.translate_buttons(&state_with_buttons(&["buttonA"]), &config);
    assert_eq!(event_kinds(&events), vec![&OutputEventKind::MouseDown(MouseButtonKind::Left)]);

    let events = t.translate_buttons(&state_with_buttons(&["buttonA", "buttonB"]), &config);
    assert!(events.is_empty());

    let events = t.translate_buttons(&state_with_buttons(&["buttonB"]), &config);
    assert!(events.is_empty());
    assert!(t.has_buttons_pressed());

    let events = t.translate_buttons(&idle(), &config);
    assert_eq!(event_kinds(&events), vec![&OutputEventKind::MouseUp(MouseButtonKind::Left)]);
    assert!(!t.has_buttons_pressed());
}

#[test]
fn two_buttons_same_action_reverse_release_order() {
    let mut t = InputTranslator::new();
    let config = config_with_map(vec![
        ("buttonA", Action::LeftClick),
        ("buttonB", Action::LeftClick),
    ]);

    let events = t.translate_buttons(&state_with_buttons(&["buttonA", "buttonB"]), &config);
    let kinds: Vec<_> = event_kinds(&events);
    assert_eq!(kinds.iter().filter(|k| ***k == OutputEventKind::MouseDown(MouseButtonKind::Left)).count(), 1);

    let events = t.translate_buttons(&state_with_buttons(&["buttonA"]), &config);
    assert!(events.is_empty());

    let events = t.translate_buttons(&idle(), &config);
    assert_eq!(event_kinds(&events), vec![&OutputEventKind::MouseUp(MouseButtonKind::Left)]);
}

#[test]
fn has_buttons_pressed_tracks_state() {
    let mut t = InputTranslator::new();
    let config = config_with_map(vec![("buttonA", Action::LeftClick)]);
    assert!(!t.has_buttons_pressed());

    t.translate_buttons(&state_with_buttons(&["buttonA"]), &config);
    assert!(t.has_buttons_pressed());

    t.translate_buttons(&idle(), &config);
    assert!(!t.has_buttons_pressed());
}

// Further cases.

#[test]
fn press_count_follows_sources() {
    let mut t = InputTranslator::new();
    let config = config_with_map(vec![
        ("buttonA", Action::LeftClick),
        ("buttonB", Action::LeftClick),
        ("buttonX", Action::MiddleClick),
    ]);
    t.translate_buttons(&state_with_buttons(&["buttonA", "buttonB", "buttonX"]), &config);
    assert_eq!(t.press_count(MouseButtonKind::Left), 2);
    assert_eq!(t.press_count(MouseButtonKind::Middle), 1);
    assert_eq!(t.press_count(MouseButtonKind::Right), 0);
    t.translate_buttons(&state_with_buttons(&["buttonB"]), &config);
    assert_eq!(t.press_count(MouseButtonKind::Left), 1);
    assert_eq!(t.press_count(MouseButtonKind::Middle), 0);
}

#[test]
fn unmapped_and_none_inputs_emit_nothing() {
    let mut t = InputTranslator::new();
    let config = config_with_map(vec![("buttonA", Action::NoAction)]);
    let events = t.translate_buttons(&state_with_buttons(&["buttonA", "buttonB"]), &config);
    assert!(events.is_empty());
    assert!(!t.has_buttons_pressed());
}

#[test]
fn key_press_carries_modifiers_and_events_follow_map_order() {
    let mut t = InputTranslator::new();
    let combo = KeyCombo { modifiers: vec![Modifier::Command, Modifier::Shift], keycode: 0x7C, key_name: "→".to_string() };
    let config = config_with_map(vec![
        ("buttonY", Action::KeyPress(combo)),
        ("buttonB", Action::BackClick),
    ]);
    let events = t.translate_buttons(&state_with_buttons(&["buttonB", "buttonY"]), &config);
    assert_eq!(events, vec![
        OutputEvent::immediate(OutputEventKind::KeyDown { keycode: 0x7C, modifiers: vec![Modifier::Command, Modifier::Shift] }),
        OutputEvent::immediate(OutputEventKind::KeyUp { keycode: 0x7C, modifiers: vec![Modifier::Command, Modifier::Shift] }),
        OutputEvent::immediate(OutputEventKind::MouseDown(MouseButtonKind::Back)),
    ]);
}

#[test]
fn remapped_source_release_saturates() {
    // A source recorded as pressed for Left and released while mapped to
    // Right: Right's count stays at zero and MouseUp(Right) is emitted;
    // Left stays held.
    let mut t = InputTranslator::new();
    let left = config_with_map(vec![("buttonA", Action::LeftClick)]);
    let right = config_with_map(vec![("buttonA", Action::RightClick)]);
    t.translate_buttons(&state_with_buttons(&["buttonA"]), &left);
    let events = t.translate_buttons(&idle(), &right);
    assert_eq!(event_kinds(&events), vec![&OutputEventKind::MouseUp(MouseButtonKind::Right)]);
    assert_eq!(t.press_count(MouseButtonKind::Left), 1);
    assert_eq!(t.press_count(MouseButtonKind::Right), 0);
}

#[test]
fn double_right_click_sequence() {
    let mut t = InputTranslator::new();
    let config = config_with_map(vec![("leftTrigger", Action::DoubleRightClick)]);
    let events = t.translate_buttons(&state_with_buttons(&["leftTrigger"]), &config);
    assert_eq!(events, vec![
        OutputEvent::immediate(OutputEventKind::MouseDown(MouseButtonKind::Right)),
        OutputEvent::immediate(OutputEventKind::MouseUp(MouseButtonKind::Right)),
        OutputEvent::delayed(50, OutputEventKind::MouseDown(MouseButtonKind::Right)),
        OutputEvent::immediate(OutputEventKind::MouseUp(MouseButtonKind::Right)),
    ]);
}

#[test]
fn apply_saved_sets_each_input_in_order() {
    let mut m = ButtonMap::new();
    m.insert("buttonA".to_string(), Action::LeftClick);
    m.insert("buttonB".to_string(), Action::RightClick);
    let saved = vec![
        ("buttonB".to_string(), "middleClick".to_string()),
        ("buttonX".to_string(), "no_such_action".to_string()),
        ("buttonB".to_string(), "backClick".to_string()),
    ];
    m.apply_saved(&saved);
    assert_eq!(m.len(), 3);
    assert_eq!(*m.get("buttonA").unwrap(), Action::LeftClick);
    assert_eq!(*m.get("buttonB").unwrap(), Action::BackClick);
    assert_eq!(*m.get("buttonX").unwrap(), Action::NoAction);
    assert_eq!(m.key_at(2), "buttonX");
}

#[test]
fn held_input_does_not_repeat_after_map_change() {
    let mut t = InputTranslator::new();
    let first = config_with_map(vec![("buttonA", Action::LeftClick)]);
    let second = config_with_map(vec![("buttonA", Action::RightClick)]);
    let state = state_with_buttons(&["buttonA"]);
    t.translate_buttons(&state, &first);
    let _ = t.translate_buttons(&state, &second);
    let again = t.translate_buttons(&state, &second);
    assert!(again.is_empty());
}

#[test]
fn new_translator_idle_frame_is_silent_for_any_map() {
    let mut t = InputTranslator::new();
    assert!(!t.has_buttons_pressed());
    let config = config_with_map(vec![
        ("buttonA", Action::LeftClick),
        ("buttonB", Action::DoubleRightClick),
        ("buttonX", Action::KeyPress(KeyCombo { modifiers: vec![], keycode: 0x00, key_name: "A".to_string() })),
    ]);
    assert!(t.translate_buttons(&idle(), &config).is_empty());
    assert!(!t.has_buttons_pressed());
}

#[test]
fn mouse_edges_alternate_over_frames() {
    let mut t = InputTranslator::new();
    let config = config_with_map(vec![
        ("buttonA", Action::LeftClick),
        ("buttonB", Action::LeftClick),
        ("buttonX", Action::RightClick),
    ]);
    let frames: Vec<Vec<String>> = vec![
        state_with_buttons(&["buttonA"]),
        state_with_buttons(&["buttonA", "buttonB", "buttonX"]),
        state_with_buttons(&["buttonB"]),
        idle(),
        state_with_buttons(&["buttonB"]),
    ];
    let mut left = Vec::new();
    for f in &frames {
        for e in t.translate_buttons(f, &config) {
            match e.kind {
                OutputEventKind::MouseDown(MouseButtonKind::Left) => left.push(true),
                OutputEventKind::MouseUp(MouseButtonKind::Left) => left.push(false),
                _ => {}
            }
        }
    }
    assert_eq!(left, vec![true, false, true]);
    assert!(t.has_buttons_pressed());
    assert_eq!(t.press_count(MouseButtonKind::Left), 1);
}
