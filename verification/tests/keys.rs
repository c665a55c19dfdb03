use liwinux::keys::{evdev_code, label};

#[test]
fn wasd_maps_to_the_evdev_codes_the_engine_expects() {
    assert_eq!(evdev_code("w"), Some(17));
    assert_eq!(evdev_code("a"), Some(30));
    assert_eq!(evdev_code("s"), Some(31));
    assert_eq!(evdev_code("d"), Some(32));
}

#[test]
fn the_rows_are_not_alphabetical() {
    assert_eq!(evdev_code("q"), Some(16));
    assert_eq!(evdev_code("p"), Some(25));
    assert_eq!(evdev_code("z"), Some(44));
    assert_eq!(evdev_code("m"), Some(50));
}

#[test]
fn digits_use_row_position_not_value() {
    assert_eq!(evdev_code("1"), Some(2));
    assert_eq!(evdev_code("9"), Some(10));
    assert_eq!(evdev_code("0"), Some(11));
}

#[test]
fn the_keys_games_use_are_covered() {
    for k in [
        "space", "shift", "ctrl", "alt", "tab", "escape", "up", "down", "left", "right", "enter",
    ] {
        assert!(evdev_code(k).is_some(), "{k} is not mapped");
    }
}

#[test]
fn function_keys_are_mapped_including_the_two_odd_ones() {
    assert_eq!(evdev_code("f1"), Some(59));
    assert_eq!(evdev_code("f10"), Some(68));
    assert_eq!(evdev_code("f11"), Some(87), "F11 breaks the run");
    assert_eq!(evdev_code("f12"), Some(88));
}

#[test]
fn an_unknown_key_is_refused_rather_than_guessed() {
    assert_eq!(evdev_code("f13"), None);
    assert_eq!(evdev_code("printscreen"), None);
    assert_eq!(evdev_code(""), None);
    assert_eq!(evdev_code("ä"), None);
}

#[test]
fn case_is_ignored() {
    assert_eq!(evdev_code("W"), evdev_code("w"));
    assert_eq!(evdev_code("Space"), evdev_code("space"));
}

#[test]
fn everything_mappable_is_also_nameable() {
    for k in ["q", "m", "0", "9", "space", "shift", "f1", "f11", "up"] {
        let code = evdev_code(k).unwrap();
        let l = label(code);
        assert!(!l.starts_with('#'), "{k} -> {code} has no label ({l})");
    }
}

#[test]
fn an_unknown_code_is_shown_as_itself() {
    assert_eq!(label(240), "#240");
}

#[test]
fn labels_round_trip_the_letters() {
    assert_eq!(label(evdev_code("w").unwrap()), "W");
    assert_eq!(label(evdev_code("a").unwrap()), "A");
    assert_eq!(label(evdev_code("z").unwrap()), "Z");
}

/// The keys beside the letters have names too.
#[test]
fn punctuation_and_navigation_have_labels() {
    for k in [
        "-", "=", "[", "]", ";", "'", "\\", ",", ".", "/", "capslock", "home", "pageup", "end",
        "pagedown", "insert", "delete",
    ] {
        let code = evdev_code(k);
        assert!(code.is_some(), "{k} is not mapped");
        assert!(!label(code.unwrap()).starts_with('#'), "{k} has no label");
    }
    assert_eq!(label(evdev_code("space").unwrap()), "Space");
}

#[test]
fn a_function_key_is_written_one_way_only() {
    for name in ["f+1", "f01", "f0", "f13", "f1 ", "f001", "ff"] {
        assert_eq!(evdev_code(name), None, "{name}");
    }
    assert_eq!(evdev_code("F9"), Some(67));
}

#[test]
fn no_two_codes_share_a_label() {
    let mut seen = std::collections::HashSet::new();
    for code in 0..=u16::MAX {
        assert!(seen.insert(label(code)), "{code}");
    }
    assert_eq!(label(200), "#200");
    assert_eq!(label(58), "CapsLock");
}
