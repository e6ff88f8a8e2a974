use splash_damage::config::{KeyCombo, RemapRule};
use splash_damage::keys::{
    any_same_group, same_modifier_group, KEY_A, KEY_C, KEY_CAPSLOCK, KEY_ESC, KEY_F23,
    KEY_LEFTALT, KEY_LEFTCTRL, KEY_LEFTMETA, KEY_LEFTSHIFT, KEY_RIGHTCTRL, KEY_RIGHTMETA,
    KEY_RIGHTSHIFT, KEY_V,
};
use splash_damage::remap::{
    apply_remap, eq_ignore_ascii_case, release_all_modifiers_events, RawEvent, Remapper, EV_KEY,
    EV_SYN, KEY_PRESS, KEY_RELEASE,
};

fn press(k: u16) -> RawEvent {
    RawEvent { kind: EV_KEY, code: k, value: KEY_PRESS }
}

fn release(k: u16) -> RawEvent {
    RawEvent { kind: EV_KEY, code: k, value: KEY_RELEASE }
}

fn repeat(k: u16) -> RawEvent {
    RawEvent { kind: EV_KEY, code: k, value: 2 }
}

fn syn() -> RawEvent {
    RawEvent { kind: EV_SYN, code: 0, value: 0 }
}

fn combo(mods: &[u16], key: u16) -> KeyCombo {
    KeyCombo { modifiers: mods.to_vec(), key }
}

fn rule(from: KeyCombo, to: KeyCombo, exclude: &[&str]) -> RemapRule {
    RemapRule { from, to, exclude: exclude.iter().map(|s| s.to_string()).collect() }
}

fn copy_rule() -> RemapRule {
    rule(
        combo(&[KEY_LEFTCTRL], KEY_C),
        combo(&[KEY_LEFTCTRL, KEY_LEFTSHIFT], KEY_C),
        &["terminal-app"],
    )
}

#[test]
fn same_group_pairs_only_within_a_role() {
    assert!(same_modifier_group(KEY_LEFTCTRL, KEY_LEFTCTRL));
    assert!(same_modifier_group(KEY_LEFTCTRL, KEY_RIGHTCTRL));
    assert!(same_modifier_group(KEY_RIGHTCTRL, KEY_LEFTCTRL));
    assert!(same_modifier_group(KEY_LEFTMETA, KEY_RIGHTMETA));
    assert!(!same_modifier_group(KEY_LEFTCTRL, KEY_LEFTSHIFT));
    assert!(!same_modifier_group(KEY_RIGHTSHIFT, KEY_LEFTALT));
    assert!(!same_modifier_group(KEY_A, KEY_C));
    assert!(same_modifier_group(KEY_A, KEY_A));
    assert!(any_same_group(KEY_RIGHTCTRL, &vec![KEY_LEFTSHIFT, KEY_LEFTCTRL]));
    assert!(!any_same_group(KEY_RIGHTCTRL, &vec![KEY_LEFTSHIFT, KEY_LEFTALT]));
}

#[test]
fn ascii_case_insensitive_compare() {
    assert!(eq_ignore_ascii_case("Terminal-App", "terminal-app"));
    assert!(!eq_ignore_ascii_case("terminal-app", "terminal-ap"));
    assert!(!eq_ignore_ascii_case("Ä", "ä"));
    assert!(eq_ignore_ascii_case("", ""));
}

#[test]
fn first_matching_rule_wins() {
    let rules = vec![
        rule(combo(&[KEY_LEFTALT], KEY_C), combo(&[], KEY_V), &[]),
        rule(combo(&[KEY_LEFTCTRL], KEY_C), combo(&[], KEY_A), &[]),
        rule(combo(&[], KEY_C), combo(&[], KEY_ESC), &[]),
    ];
    let mut r = Remapper::new(rules, false);
    assert_eq!(r.find_matching_rule(KEY_C, ""), Some(2));
    r.process_event(press(KEY_RIGHTCTRL), "");
    assert!(r.is_modifier_held(KEY_LEFTCTRL));
    assert!(!r.is_modifier_held(KEY_LEFTALT));
    assert_eq!(r.find_matching_rule(KEY_C, ""), Some(1));
    assert_eq!(r.find_matching_rule(KEY_A, ""), None);
}

#[test]
fn excluded_window_skips_rule() {
    let r = Remapper::new(vec![copy_rule()], false);
    let mut r = r;
    r.process_event(press(KEY_LEFTCTRL), "");
    assert_eq!(r.find_matching_rule(KEY_C, "Terminal-App"), None);
    assert_eq!(r.find_matching_rule(KEY_C, "file-manager"), Some(0));
}

#[test]
fn non_key_events_pass_unchanged() {
    let mut r = Remapper::new(vec![copy_rule()], true);
    let rel = RawEvent { kind: 2, code: 0, value: -3 };
    assert_eq!(r.process_event(rel, ""), vec![rel]);
    r.process_event(press(KEY_LEFTMETA), "");
    r.process_event(press(KEY_LEFTSHIFT), "");
    assert_eq!(r.process_event(syn(), ""), vec![syn()]);
    let msc = RawEvent { kind: 4, code: 4, value: 458756 };
    assert_eq!(r.process_event(msc, "x"), vec![msc]);
}

#[test]
fn unmatched_key_passes_unchanged() {
    let mut r = Remapper::new(vec![copy_rule()], false);
    assert_eq!(r.process_event(press(KEY_A), ""), vec![press(KEY_A)]);
    assert_eq!(r.process_event(repeat(KEY_A), ""), vec![repeat(KEY_A)]);
    assert_eq!(r.process_event(release(KEY_A), ""), vec![release(KEY_A)]);
}

#[test]
fn excluded_window_passes_ctrl_c_through() {
    let mut r = Remapper::new(vec![copy_rule()], false);
    assert_eq!(r.process_event(press(KEY_LEFTCTRL), "terminal-app"), vec![press(KEY_LEFTCTRL)]);
    assert_eq!(r.process_event(press(KEY_C), "terminal-app"), vec![press(KEY_C)]);
    assert_eq!(r.process_event(release(KEY_C), "terminal-app"), vec![release(KEY_C)]);
}

#[test]
fn ctrl_c_becomes_ctrl_shift_c_elsewhere() {
    let mut r = Remapper::new(vec![copy_rule()], false);
    assert_eq!(r.process_event(press(KEY_LEFTCTRL), "file-manager"), vec![press(KEY_LEFTCTRL)]);
    assert_eq!(
        r.process_event(press(KEY_C), "file-manager"),
        vec![press(KEY_LEFTSHIFT), press(KEY_C), syn()]
    );
    assert_eq!(
        r.process_event(release(KEY_C), "file-manager"),
        vec![release(KEY_C), release(KEY_LEFTSHIFT), syn()]
    );
}

#[test]
fn capslock_becomes_escape() {
    let caps = rule(combo(&[], KEY_CAPSLOCK), combo(&[], KEY_ESC), &[]);
    let mut r = Remapper::new(vec![caps], false);
    assert_eq!(r.process_event(press(KEY_CAPSLOCK), ""), vec![press(KEY_ESC), syn()]);
    assert_eq!(r.process_event(release(KEY_CAPSLOCK), ""), vec![release(KEY_ESC), syn()]);
}

#[test]
fn remap_lifts_and_restores_from_modifiers() {
    let r = rule(combo(&[KEY_LEFTALT], KEY_C), combo(&[KEY_LEFTCTRL], KEY_V), &[]);
    assert_eq!(
        apply_remap(&r, KEY_PRESS),
        vec![release(KEY_LEFTALT), press(KEY_LEFTCTRL), press(KEY_V), syn()]
    );
    assert_eq!(
        apply_remap(&r, KEY_RELEASE),
        vec![release(KEY_V), release(KEY_LEFTCTRL), press(KEY_LEFTALT), syn()]
    );
}

#[test]
fn press_then_release_restores_modifier_state() {
    let r = rule(combo(&[KEY_LEFTALT], KEY_C), combo(&[KEY_LEFTCTRL], KEY_V), &[]);
    let mut held: Vec<u16> = vec![KEY_LEFTALT];
    let mut out = apply_remap(&r, KEY_PRESS);
    out.extend(apply_remap(&r, KEY_RELEASE));
    for e in out {
        if e.kind == EV_KEY && e.value == KEY_PRESS && !held.contains(&e.code) {
            held.push(e.code);
        } else if e.kind == EV_KEY && e.value == KEY_RELEASE {
            held.retain(|k| *k != e.code);
        }
    }
    assert_eq!(held, vec![KEY_LEFTALT]);
}

#[test]
fn assistant_chord_emits_nothing() {
    let any_c = rule(combo(&[], KEY_F23), combo(&[], KEY_A), &[]);
    let shift_rule = rule(combo(&[KEY_LEFTMETA], KEY_LEFTSHIFT), combo(&[], KEY_A), &[]);
    let mut r = Remapper::new(vec![shift_rule, any_c], true);
    assert_eq!(r.process_event(press(KEY_LEFTMETA), ""), vec![press(KEY_LEFTMETA)]);
    assert_eq!(r.process_event(press(KEY_LEFTSHIFT), ""), vec![]);
    assert_eq!(r.process_event(repeat(KEY_LEFTSHIFT), ""), vec![]);
    assert_eq!(r.process_event(press(KEY_F23), ""), vec![]);
    assert_eq!(r.process_event(repeat(KEY_F23), ""), vec![]);
    assert_eq!(r.process_event(repeat(KEY_RIGHTSHIFT), ""), vec![]);
    assert_eq!(r.process_event(release(KEY_LEFTSHIFT), ""), vec![]);
    assert_eq!(r.process_event(release(KEY_F23), ""), vec![]);
    assert!(!r.is_modifier_held(KEY_LEFTSHIFT));
    assert!(r.is_modifier_held(KEY_RIGHTMETA));
}

#[test]
fn buffered_shift_flushed_before_other_key() {
    let mut r = Remapper::new(vec![copy_rule()], true);
    assert_eq!(r.process_event(press(KEY_LEFTMETA), ""), vec![press(KEY_LEFTMETA)]);
    assert_eq!(r.process_event(press(KEY_RIGHTSHIFT), ""), vec![]);
    assert_eq!(
        r.process_event(press(KEY_A), ""),
        vec![press(KEY_RIGHTSHIFT), syn(), press(KEY_A)]
    );
    assert_eq!(r.process_event(release(KEY_A), ""), vec![release(KEY_A)]);
    assert!(r.is_modifier_held(KEY_LEFTSHIFT));
}

#[test]
fn buffered_shift_flush_then_remap() {
    let rules = vec![rule(
        combo(&[KEY_LEFTMETA, KEY_LEFTSHIFT], KEY_A),
        combo(&[KEY_LEFTCTRL], KEY_V),
        &[],
    )];
    let mut r = Remapper::new(rules, true);
    r.process_event(press(KEY_LEFTMETA), "");
    assert_eq!(r.process_event(press(KEY_LEFTSHIFT), ""), vec![]);
    assert_eq!(
        r.process_event(press(KEY_A), ""),
        vec![
            press(KEY_LEFTSHIFT),
            syn(),
            release(KEY_LEFTMETA),
            release(KEY_LEFTSHIFT),
            press(KEY_LEFTCTRL),
            press(KEY_V),
            syn()
        ]
    );
}

#[test]
fn shift_without_meta_is_not_buffered() {
    let mut r = Remapper::new(vec![], true);
    assert_eq!(r.process_event(press(KEY_LEFTSHIFT), ""), vec![press(KEY_LEFTSHIFT)]);
    assert_eq!(r.process_event(press(KEY_F23), ""), vec![press(KEY_F23)]);
}

#[test]
fn feature_off_passes_shift_and_assistant() {
    let mut r = Remapper::new(vec![], false);
    r.process_event(press(KEY_LEFTMETA), "");
    assert_eq!(r.process_event(press(KEY_LEFTSHIFT), ""), vec![press(KEY_LEFTSHIFT)]);
    assert_eq!(r.process_event(press(KEY_F23), ""), vec![press(KEY_F23)]);
}

#[test]
fn release_rematches_with_modifiers_at_release_time() {
    // The rule is looked up again on release, with the modifiers held then.
    let rules = vec![
        rule(combo(&[KEY_LEFTCTRL], KEY_C), combo(&[], KEY_V), &[]),
        rule(combo(&[], KEY_C), combo(&[], KEY_A), &[]),
    ];
    let mut r = Remapper::new(rules, false);
    r.process_event(press(KEY_LEFTCTRL), "");
    assert_eq!(
        r.process_event(press(KEY_C), ""),
        vec![release(KEY_LEFTCTRL), press(KEY_V), syn()]
    );
    r.process_event(release(KEY_LEFTCTRL), "");
    assert_eq!(r.process_event(release(KEY_C), ""), vec![release(KEY_A), syn()]);
}

#[test]
fn release_all_modifiers_batch() {
    let evs = release_all_modifiers_events();
    assert_eq!(evs.len(), 9);
    assert_eq!(evs[0], release(KEY_LEFTCTRL));
    assert_eq!(evs[7], release(KEY_RIGHTMETA));
    assert_eq!(evs[8], syn());
}

#[test]
fn press_release_at_engine_restores_output_keys() {
    let r = rule(combo(&[KEY_LEFTCTRL], KEY_C), combo(&[KEY_LEFTALT], KEY_V), &[]);
    let mut eng = Remapper::new(vec![r], true);
    eng.process_event(press(KEY_LEFTCTRL), "");
    let mut out = eng.process_event(press(KEY_C), "");
    out.extend(eng.process_event(release(KEY_C), ""));
    assert_eq!(
        out,
        vec![
            release(KEY_LEFTCTRL),
            press(KEY_LEFTALT),
            press(KEY_V),
            syn(),
            release(KEY_V),
            release(KEY_LEFTALT),
            press(KEY_LEFTCTRL),
            syn()
        ]
    );
}
