use std::collections::HashSet;

use joyride::{all_actions, all_inputs, keycode_name, Action, KeyCombo, Modifier, MouseButtonKind};

#[test]
fn all_actions_no_duplicate_ids() {
    let mut seen = HashSet::new();
    for (id, _) in all_actions() {
        assert!(seen.insert(id), "duplicate action ID: {id}");
    }
}

#[test]
fn action_round_trip() {
    for (id, _, action) in Action::presets() {
        assert_eq!(Action::from_id(id), action);
        assert_eq!(action.to_id(), id);
    }
}

#[test]
fn action_unknown_id_is_none() {
    assert_eq!(Action::from_id("bogus"), Action::NoAction);
    assert_eq!(Action::from_id(""), Action::NoAction);
}

#[test]
fn action_display() {
    assert_eq!(Action::LeftClick.to_string(), "Left Click");
    assert_eq!(Action::DoubleLeftClick.to_string(), "Double Left Click");
}

#[test]
fn all_actions_consistent_with_enum() {
    for (id, display) in all_actions() {
        let action = Action::from_id(id);
        assert_eq!(action.to_id(), id);
        assert_eq!(action.display_name(), display);
    }
}

#[test]
fn key_combo_round_trip() {
    let combo = KeyCombo {
        modifiers: vec![Modifier::Command, Modifier::Shift],
        keycode: 0x00,
        key_name: "A".to_string(),
    };
    let action = Action::KeyPress(combo);
    let id = action.to_id();
    assert_eq!(id, "key:cmd+shift+0x00");
    assert_eq!(Action::from_id(&id), action);
}

#[test]
fn key_combo_display() {
    let combo = KeyCombo {
        modifiers: vec![Modifier::Command],
        keycode: 0x00,
        key_name: "A".to_string(),
    };
    assert_eq!(Action::KeyPress(combo).display_name(), "⌘A");
}

#[test]
fn key_combo_from_invalid() {
    assert_eq!(Action::from_id("key:"), Action::NoAction);
    assert_eq!(Action::from_id("key:invalid"), Action::NoAction);
}

#[test]
fn mouse_button_kind_all_variants() {
    let variants = [
        MouseButtonKind::Left,
        MouseButtonKind::Right,
        MouseButtonKind::Middle,
        MouseButtonKind::Back,
        MouseButtonKind::Forward,
    ];
    assert_eq!(variants.len(), 5);
    for (i, a) in variants.iter().enumerate() {
        for (j, b) in variants.iter().enumerate() {
            assert_eq!(i == j, a == b);
        }
    }
}

// Further cases of the identifier formats.

#[test]
fn modifier_ids_round_trip() {
    for m in [Modifier::Command, Modifier::Control, Modifier::Option, Modifier::Shift] {
        assert_eq!(Modifier::from_id(m.to_id()), Some(m));
    }
    assert_eq!(Modifier::from_id("Cmd"), None);
    assert_eq!(Modifier::from_id(""), None);
}

#[test]
fn modifier_symbols() {
    assert_eq!(Modifier::Command.display(), "⌘");
    assert_eq!(Modifier::Control.display(), "⌃");
    assert_eq!(Modifier::Option.display(), "⌥");
    assert_eq!(Modifier::Shift.display(), "⇧");
}

#[test]
fn key_combo_id_pads_and_uppercases() {
    let combo = KeyCombo { modifiers: vec![Modifier::Control], keycode: 0x7C, key_name: "→".to_string() };
    assert_eq!(combo.to_id(), "ctrl+0x7C");
    let combo = KeyCombo { modifiers: vec![], keycode: 0x5, key_name: "G".to_string() };
    assert_eq!(combo.to_id(), "0x05");
    let combo = KeyCombo { modifiers: vec![], keycode: 0x1234, key_name: "?".to_string() };
    assert_eq!(combo.to_id(), "0x1234");
    let combo = KeyCombo { modifiers: vec![], keycode: 0xABC, key_name: "?".to_string() };
    assert_eq!(combo.to_id(), "0xABC");
}

#[test]
fn key_combo_from_id_cases() {
    let c = KeyCombo::from_id("opt+shift+0x7e").unwrap();
    assert_eq!(c.modifiers, vec![Modifier::Option, Modifier::Shift]);
    assert_eq!(c.keycode, 0x7E);
    assert_eq!(c.key_name, "↑");
    // the last hexadecimal part wins; unknown parts are ignored
    let c = KeyCombo::from_id("0x01+junk+0x02").unwrap();
    assert_eq!(c.keycode, 0x02);
    assert!(c.modifiers.is_empty());
    // a hexadecimal part that does not read resets the keycode
    assert_eq!(KeyCombo::from_id("0x01+0xZZ"), None);
    // too large for 16 bits
    assert_eq!(KeyCombo::from_id("0x10000"), None);
    assert_eq!(KeyCombo::from_id("0xFFFF").unwrap().keycode, 0xFFFF);
    // upper-case X is no prefix
    assert_eq!(KeyCombo::from_id("0X10"), None);
    assert_eq!(KeyCombo::from_id("cmd"), None);
    assert_eq!(KeyCombo::from_id("0x"), None);
}

#[test]
fn key_action_with_odd_name_reads_back_with_keycode_name() {
    let combo = KeyCombo { modifiers: vec![Modifier::Shift], keycode: 0x31, key_name: "custom".to_string() };
    let read = Action::from_id(&Action::KeyPress(combo).to_id());
    let expected = KeyCombo { modifiers: vec![Modifier::Shift], keycode: 0x31, key_name: "Space".to_string() };
    assert_eq!(read, Action::KeyPress(expected));
}

#[test]
fn keycode_names() {
    assert_eq!(keycode_name(0x00), "A");
    assert_eq!(keycode_name(0x24), "Return");
    assert_eq!(keycode_name(0x7B), "←");
    assert_eq!(keycode_name(0x7A), "F1");
    assert_eq!(keycode_name(0x0A), "?");
}

#[test]
fn preset_display_names() {
    let presets = Action::presets();
    assert_eq!(presets.len(), 8);
    assert_eq!(presets[0], ("none", "None", Action::NoAction));
    assert_eq!(presets[4].1, "Back");
    assert_eq!(Action::from_id("none"), Action::NoAction);
    assert_eq!(Action::BackClick.display_name(), "Back");
}

#[test]
fn inputs_table() {
    let inputs = all_inputs();
    assert_eq!(inputs.len(), 14);
    assert_eq!(inputs[0], ("buttonA", "A"));
    assert_eq!(inputs[13], ("dpadRight", "D-pad Right"));
}

#[test]
fn input_ids_distinct() {
    let mut seen = HashSet::new();
    for (id, _) in all_inputs() {
        assert!(seen.insert(id), "duplicate input ID: {id}");
    }
}

#[test]
fn keycode_names_digit_row_and_letters() {
    assert_eq!(keycode_name(0x19), "9");
    assert_eq!(keycode_name(0x1A), "7");
    assert_eq!(keycode_name(0x1C), "8");
    assert_eq!(keycode_name(0x1D), "0");
    assert_eq!(keycode_name(0x1E), "]");
    assert_eq!(keycode_name(0x1F), "O");
    assert_eq!(keycode_name(0x20), "U");
}
