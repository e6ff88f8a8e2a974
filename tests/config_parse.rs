use splash_damage::config::{
    key_from_name, modifier_from_name, parse_key, parse_key_combo, parse_modifier,
    rules_from_config, str_eq, trim, Config, ConfigError, RemapEntry,
};
use splash_damage::device::{is_remappable_keyboard, starts_with};
use splash_damage::keys::{
    KEY_0, KEY_C, KEY_DELETE, KEY_ESC, KEY_F12, KEY_LEFTALT, KEY_LEFTCTRL, KEY_LEFTMETA,
    KEY_LEFTSHIFT, KEY_PAGEDOWN, KEY_SPACE,
};
use splash_damage::window::{after_load_attempt, window_class, ActiveWindow, LoadStep};

fn entry(from: &str, to: &str, exclude: &[&str]) -> RemapEntry {
    RemapEntry {
        from: from.to_string(),
        to: to.to_string(),
        exclude: exclude.iter().map(|s| s.to_string()).collect(),
    }
}

#[test]
fn modifier_tokens() {
    assert_eq!(parse_modifier("Ctrl").unwrap(), KEY_LEFTCTRL);
    assert_eq!(parse_modifier("CONTROL").unwrap(), KEY_LEFTCTRL);
    assert_eq!(parse_modifier("shift").unwrap(), KEY_LEFTSHIFT);
    assert_eq!(parse_modifier("Alt").unwrap(), KEY_LEFTALT);
    assert_eq!(parse_modifier("super").unwrap(), KEY_LEFTMETA);
    assert_eq!(parse_modifier("Meta").unwrap(), KEY_LEFTMETA);
    assert_eq!(parse_modifier("cmd").unwrap(), KEY_LEFTMETA);
    match parse_modifier("Hyper") {
        Err(ConfigError::UnknownModifier(t)) => assert_eq!(t, "hyper"),
        other => panic!("unexpected {:?}", other),
    }
    assert_eq!(modifier_from_name("ctrl"), Some(KEY_LEFTCTRL));
    assert_eq!(modifier_from_name("Ctrl"), None);
}

#[test]
fn key_tokens() {
    assert_eq!(parse_key("C").unwrap(), KEY_C);
    assert_eq!(parse_key("0").unwrap(), KEY_0);
    assert_eq!(parse_key("Esc").unwrap(), KEY_ESC);
    assert_eq!(parse_key("escape").unwrap(), KEY_ESC);
    assert_eq!(parse_key("Space").unwrap(), KEY_SPACE);
    assert_eq!(parse_key("delete").unwrap(), KEY_DELETE);
    assert_eq!(parse_key("PageDown").unwrap(), KEY_PAGEDOWN);
    assert_eq!(parse_key("F12").unwrap(), KEY_F12);
    match parse_key("F13") {
        Err(ConfigError::UnknownKey(t)) => assert_eq!(t, "F13"),
        other => panic!("unexpected {:?}", other),
    }
    assert_eq!(key_from_name("f12"), Some(KEY_F12));
    assert_eq!(key_from_name("capslock"), None);
}

#[test]
fn combo_with_modifiers_and_spaces() {
    let c = parse_key_combo(" ctrl + Shift+ c ").unwrap();
    assert_eq!(c.modifiers, vec![KEY_LEFTCTRL, KEY_LEFTSHIFT]);
    assert_eq!(c.key, KEY_C);
    let single = parse_key_combo("esc").unwrap();
    assert!(single.modifiers.is_empty());
    assert_eq!(single.key, KEY_ESC);
}

#[test]
fn combo_errors() {
    match parse_key_combo("ctrl+foo+bar+c") {
        Err(ConfigError::UnknownModifier(t)) => assert_eq!(t, "foo"),
        other => panic!("unexpected {:?}", other),
    }
    match parse_key_combo("ctrl+ Nope ") {
        Err(ConfigError::UnknownKey(t)) => assert_eq!(t, "Nope"),
        other => panic!("unexpected {:?}", other),
    }
    match parse_key_combo("") {
        Err(ConfigError::UnknownKey(t)) => assert_eq!(t, ""),
        other => panic!("unexpected {:?}", other),
    }
    match parse_key_combo("ctrl+") {
        Err(ConfigError::UnknownKey(t)) => assert_eq!(t, ""),
        other => panic!("unexpected {:?}", other),
    }
    match parse_key_combo("ctrl") {
        Err(ConfigError::UnknownKey(t)) => assert_eq!(t, "ctrl"),
        other => panic!("unexpected {:?}", other),
    }
}

#[test]
fn config_to_rules_keeps_order() {
    let config = Config {
        remaps: vec![entry("ctrl+c", "ctrl+shift+c", &["Konsole"]), entry("alt+f4", "esc", &[])],
        copilot_as_meta: true,
    };
    let loaded = rules_from_config(&config).unwrap();
    assert!(loaded.copilot_as_meta);
    assert_eq!(loaded.rules.len(), 2);
    assert_eq!(loaded.rules[0].from.modifiers, vec![KEY_LEFTCTRL]);
    assert_eq!(loaded.rules[0].to.modifiers, vec![KEY_LEFTCTRL, KEY_LEFTSHIFT]);
    assert_eq!(loaded.rules[0].exclude, vec!["Konsole".to_string()]);
    assert_eq!(loaded.rules[1].to.key, KEY_ESC);
}

#[test]
fn config_rejected_on_first_bad_entry() {
    let config = Config {
        remaps: vec![entry("ctrl+c", "ctrl+bogus", &[]), entry("ctrl+x", "hyper+c", &[])],
        copilot_as_meta: false,
    };
    match rules_from_config(&config) {
        Err(ConfigError::UnknownKey(t)) => assert_eq!(t, "bogus"),
        other => panic!("unexpected {:?}", other),
    }
}

#[test]
fn string_helpers() {
    assert_eq!(trim("\t a b \u{3000}"), "a b");
    assert_eq!(trim("   "), "");
    assert!(str_eq("abc", "abc"));
    assert!(!str_eq("abc", "abd"));
}

#[test]
fn window_class_defaults_to_empty() {
    let w = ActiveWindow { resource_class: "dolphin".to_string() };
    assert_eq!(window_class(Some(&w)), "dolphin");
    assert_eq!(window_class(None), "");
}

#[test]
fn load_retry_decisions() {
    assert_eq!(after_load_attempt(1, true), LoadStep::Done);
    assert_eq!(after_load_attempt(1, false), LoadStep::Retry(2));
    assert_eq!(after_load_attempt(29, false), LoadStep::Retry(30));
    assert_eq!(after_load_attempt(30, false), LoadStep::GiveUp);
}

#[test]
fn keyboard_selection() {
    assert!(is_remappable_keyboard("AT Translated Set 2 keyboard", true, true, true));
    assert!(!is_remappable_keyboard("splash-damage virtual keyboard", true, true, true));
    assert!(!is_remappable_keyboard("Power Button", true, false, false));
    assert!(!is_remappable_keyboard("Mouse", false, true, true));
    assert!(starts_with("splash-damage x", "splash"));
    assert!(!starts_with("spl", "splash"));
}

#[test]
fn repeated_modifiers_listed_once() {
    let c = parse_key_combo("ctrl+control+c").unwrap();
    assert_eq!(c.modifiers, vec![KEY_LEFTCTRL]);
    let d = parse_key_combo("shift+Ctrl+SHIFT+ctrl+c").unwrap();
    assert_eq!(d.modifiers, vec![KEY_LEFTSHIFT, KEY_LEFTCTRL]);
    assert_eq!(d.key, KEY_C);
}
