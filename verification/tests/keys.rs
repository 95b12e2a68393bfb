use cmux::keys::{chord_to_bytes, event_to_chord, key_event_to_bytes, normalize_chord, resolve_action, KeyInput, Mods};
use cmux::shortcuts::default_shortcuts;

fn none() -> Mods {
    Mods { ctrl: false, alt: false, shift: false, meta: false }
}

fn ctrl() -> Mods {
    Mods { ctrl: true, ..none() }
}

fn ctrl_shift() -> Mods {
    Mods { ctrl: true, shift: true, ..none() }
}

#[test]
fn plain_keys() {
    assert_eq!(chord_to_bytes("enter"), Some(vec![b'\r']));
    assert_eq!(chord_to_bytes("tab"), Some(vec![b'\t']));
    assert_eq!(chord_to_bytes("esc"), Some(vec![0x1b]));
    assert_eq!(chord_to_bytes("backspace"), Some(vec![0x7f]));
}

#[test]
fn arrows() {
    assert_eq!(chord_to_bytes("up"), Some(vec![0x1b, b'[', b'A']));
    assert_eq!(chord_to_bytes("left"), Some(vec![0x1b, b'[', b'D']));
}

#[test]
fn ctrl_letters() {
    assert_eq!(chord_to_bytes("ctrl+c"), Some(vec![0x03]));
    assert_eq!(chord_to_bytes("ctrl+a"), Some(vec![0x01]));
    assert_eq!(chord_to_bytes("ctrl+d"), Some(vec![0x04]));
}

#[test]
fn single_char() {
    assert_eq!(chord_to_bytes("x"), Some(vec![b'x']));
}

#[test]
fn alt_prefixes_escape() {
    assert_eq!(chord_to_bytes("alt+b"), Some(vec![0x1b, b'b']));
}

#[test]
fn unknown_is_none() {
    assert_eq!(chord_to_bytes("frobnicate"), None);
    assert_eq!(chord_to_bytes(""), None);
}

#[test]
fn event_character_and_ctrl() {
    let k = KeyInput::Character("a".into());
    assert_eq!(key_event_to_bytes(&k, none()), Some(vec![b'a']));
    assert_eq!(key_event_to_bytes(&k, ctrl()), Some(vec![0x01]));
}

#[test]
fn event_enter_and_arrows() {
    assert_eq!(key_event_to_bytes(&KeyInput::Enter, none()), Some(vec![b'\r']));
    assert_eq!(
        key_event_to_bytes(&KeyInput::ArrowUp, none()),
        Some(vec![0x1b, b'[', b'A'])
    );
}

#[test]
fn normalize_orders_modifiers_and_aliases() {
    assert_eq!(normalize_chord("shift+ctrl+d"), "ctrl+shift+d");
    assert_eq!(normalize_chord("Control+Shift+D"), "ctrl+shift+d");
    assert_eq!(normalize_chord("cmd+,"), "super+comma");
    assert_eq!(normalize_chord("ctrl+comma"), "ctrl+comma");
}

#[test]
fn event_chord_matches_stored() {
    let chord = event_to_chord(&KeyInput::Character("D".into()), ctrl_shift()).unwrap();
    assert_eq!(chord, "ctrl+shift+d");
}

#[test]
fn resolve_action_finds_configured_binding() {
    let shortcuts = default_shortcuts();
    let chord = event_to_chord(&KeyInput::Character("d".into()), ctrl_shift()).unwrap();
    assert_eq!(resolve_action(&chord, &shortcuts), Some("splitHorizontal"));
    let chord = event_to_chord(&KeyInput::Tab, ctrl()).unwrap();
    assert_eq!(resolve_action(&chord, &shortcuts), Some("nextTab"));
}

#[test]
fn resolve_action_none_for_unbound() {
    let shortcuts = default_shortcuts();
    let chord = event_to_chord(&KeyInput::Character("q".into()), none()).unwrap();
    assert_eq!(resolve_action(&chord, &shortcuts), None);
}

#[test]
fn bare_character_has_no_modifier() {
    assert_eq!(
        event_to_chord(&KeyInput::Character("a".into()), none()),
        Some("a".to_string())
    );
}

#[test]
fn normalize_is_idempotent_on_examples() {
    for c in ["shift+ctrl+d", "Cmd+,", "alt+Meta+x", "ctrl+shift+tab", "", "+"] {
        let once = normalize_chord(c);
        assert_eq!(normalize_chord(&once), once);
    }
}

#[test]
fn alt_and_meta_prefix_escape_on_events() {
    let alt = Mods { alt: true, ..none() };
    assert_eq!(
        key_event_to_bytes(&KeyInput::Character("b".into()), alt),
        Some(vec![0x1b, b'b'])
    );
    assert_eq!(key_event_to_bytes(&KeyInput::Other, none()), None);
    assert_eq!(event_to_chord(&KeyInput::Other, none()), None);
}

#[test]
fn event_chords_are_already_canonical() {
    let all = Mods { ctrl: true, alt: true, shift: true, meta: true };
    for (k, m) in [
        (KeyInput::Character("A".into()), ctrl_shift()),
        (KeyInput::Character(",".into()), all),
        (KeyInput::PageDown, ctrl()),
        (KeyInput::Escape, none()),
    ] {
        let c = event_to_chord(&k, m).unwrap();
        assert_eq!(normalize_chord(&c), c);
    }
    // A typed `+` is the one key whose chord is not canonical.
    let plus = event_to_chord(&KeyInput::Character("+".into()), ctrl()).unwrap();
    assert_eq!(plus, "ctrl++");
    assert_eq!(normalize_chord(&plus), "ctrl+");
}

#[test]
fn token_order_does_not_matter() {
    let a = normalize_chord("shift+ctrl+d");
    for c in ["d+ctrl+shift", "ctrl+d+shift", "Shift+D+Ctrl"] {
        assert_eq!(normalize_chord(c), a);
    }
    assert_eq!(a, "ctrl+shift+d");
}

#[test]
fn alt_prefix_adds_escape() {
    for k in ["b", "shift+a", "enter", " up ", "x"] {
        let plain = chord_to_bytes(k).unwrap();
        let mut want = vec![0x1b];
        want.extend(plain);
        assert_eq!(chord_to_bytes(&format!("alt+{k}")), Some(want));
    }
}

#[test]
fn single_character_keeps_its_case() {
    assert_eq!(chord_to_bytes("X"), Some(vec![b'X']));
    assert_eq!(chord_to_bytes("alt+X"), Some(vec![0x1b, b'X']));
    assert_eq!(chord_to_bytes("ctrl+C"), Some(vec![0x03]));
    assert_eq!(chord_to_bytes("ENTER"), Some(vec![b'\r']));
}

#[test]
fn ctrl_and_alt_send_escape_then_control_byte() {
    assert_eq!(chord_to_bytes("ctrl+alt+c"), Some(vec![0x1b, 0x03]));
    assert_eq!(chord_to_bytes("alt+ctrl+c"), Some(vec![0x1b, 0x03]));
    let both = Mods { ctrl: true, alt: true, shift: false, meta: false };
    assert_eq!(key_event_to_bytes(&KeyInput::Character("c".into()), both), Some(vec![0x1b, 0x03]));
    let meta = Mods { ctrl: true, alt: false, shift: false, meta: true };
    assert_eq!(key_event_to_bytes(&KeyInput::Character("a".into()), meta), Some(vec![0x1b, 0x01]));
}

#[test]
fn every_default_chord_resolves_to_its_action() {
    let shortcuts = default_shortcuts();
    for (action, chord) in shortcuts.entries() {
        assert_eq!(normalize_chord(chord), *chord);
        assert_eq!(resolve_action(chord, &shortcuts), Some(action.as_str()));
    }
}
