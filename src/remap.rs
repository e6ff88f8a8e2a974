//! The remap engine: per-device state that turns one raw input event into
//! the ordered events to emit on the virtual keyboard.
use std::collections::HashSet;
use vstd::prelude::*;

use crate::config::{RemapRule, chord_valid};
use crate::keys;
use crate::keys::{Key, held_equiv, in_group_of, any_same_group};

verus! {

broadcast use vstd::std_specs::hash::group_hash_axioms;

/// Event type of a synchronization marker.
pub const EV_SYN: u16 = 0;

/// Event type of a key event.
pub const EV_KEY: u16 = 1;

/// Transition value of a key release.
pub const KEY_RELEASE: i32 = 0;

/// Transition value of a key press.
pub const KEY_PRESS: i32 = 1;

/// A raw input event: its type, its code (the key, for key events) and its
/// transition value.
#[derive(Debug, Clone, Copy, PartialEq, Eq, Structural)]
pub struct RawEvent {
    pub kind: u16,
    pub code: u16,
    pub value: i32,
}

pub open spec fn key_ev(k: Key, value: i32) -> RawEvent {
    RawEvent { kind: EV_KEY, code: k, value }
}

pub open spec fn syn_ev() -> RawEvent {
    RawEvent { kind: EV_SYN, code: 0, value: 0 }
}

pub fn key_event(k: Key, value: i32) -> (r: RawEvent)
    ensures
        r == key_ev(k, value),
{
    RawEvent { kind: EV_KEY, code: k, value }
}

pub fn syn_event() -> (r: RawEvent)
    ensures
        r == syn_ev(),
{
    RawEvent { kind: EV_SYN, code: 0, value: 0 }
}

/// A character with ASCII upper-case letters folded to lower case.
pub open spec fn ascii_fold(c: char) -> u32 {
    if 'A' <= c <= 'Z' {
        (c as u32 + 32) as u32
    } else {
        c as u32
    }
}

/// Equality of two strings up to ASCII letter case.
pub open spec fn eq_ascii_ci(a: Seq<char>, b: Seq<char>) -> bool {
    a.len() == b.len() && forall|i: int| 0 <= i < a.len() ==> ascii_fold(a[i]) == ascii_fold(b[i])
}

/// Whether two strings are equal up to ASCII letter case.
pub fn eq_ignore_ascii_case(a: &str, b: &str) -> (r: bool)
    ensures
        r == eq_ascii_ci(a@, b@),
{
    let n = a.unicode_len();
    if n != b.unicode_len() {
        return false;
    }
    let mut i: usize = 0;
    while i < n
        invariant
            n == a@.len(),
            n == b@.len(),
            i <= n,
            forall|j: int| 0 <= j < i ==> ascii_fold(a@[j]) == ascii_fold(b@[j]),
        decreases n - i,
    {
        let x = a.get_char(i);
        let y = b.get_char(i);
        let fx: u32 = if 'A' <= x && x <= 'Z' {
            x as u32 + 32
        } else {
            x as u32
        };
        let fy: u32 = if 'A' <= y && y <= 'Z' {
            y as u32 + 32
        } else {
            y as u32
        };
        if fx != fy {
            return false;
        }
        i += 1;
    }
    true
}

/// The window class equals, up to ASCII case, one of `exclude`.
pub open spec fn excluded(w: Seq<char>, exclude: Seq<Seq<char>>) -> bool {
    exists|i: int| 0 <= i < exclude.len() && eq_ascii_ci(w, #[trigger] exclude[i])
}

/// A rule applies to key `k` when its from-key is `k`, each of its
/// from-modifiers is held (either side counts) and the window class is not
/// excluded.
pub open spec fn applies(r: RemapRule, k: Key, held: Set<Key>, w: Seq<char>) -> bool {
    &&& r.from.key == k
    &&& forall|i: int|
        0 <= i < r.from.modifiers@.len() ==> held_equiv(held, #[trigger] r.from.modifiers@[i])
    &&& !excluded(w, r.exclude.deep_view())
}

/// The index of the first rule at or after `i` that applies.
pub open spec fn first_match_from(
    rules: Seq<RemapRule>,
    i: int,
    k: Key,
    held: Set<Key>,
    w: Seq<char>,
) -> Option<int>
    decreases rules.len() - i,
{
    if i < 0 || i >= rules.len() {
        None
    } else if applies(rules[i], k, held, w) {
        Some(i)
    } else {
        first_match_from(rules, i + 1, k, held, w)
    }
}

/// The index of the first rule that applies.
pub open spec fn first_match(rules: Seq<RemapRule>, k: Key, held: Set<Key>, w: Seq<char>) -> Option<
    int,
> {
    first_match_from(rules, 0, k, held, w)
}

/// Events of value `v` for each key of `mods` that is in no group of `others`,
/// in the order of `mods`.
pub open spec fn emit_mods(mods: Seq<Key>, others: Seq<Key>, v: i32) -> Seq<RawEvent>
    decreases mods.len(),
{
    if mods.len() == 0 {
        Seq::empty()
    } else {
        emit_mods(mods.drop_last(), others, v) + if in_group_of(mods.last(), others) {
            Seq::<RawEvent>::empty()
        } else {
            seq![key_ev(mods.last(), v)]
        }
    }
}

/// What a matched press (`v == KEY_PRESS`) or release (any other `v`) of the
/// rule's from-key emits.
pub open spec fn remap_events(r: RemapRule, v: i32) -> Seq<RawEvent> {
    let from = r.from.modifiers@;
    let to = r.to.modifiers@;
    if v == KEY_PRESS {
        emit_mods(from, to, KEY_RELEASE) + emit_mods(to, from, KEY_PRESS) + seq![
            key_ev(r.to.key, KEY_PRESS),
            syn_ev(),
        ]
    } else {
        seq![key_ev(r.to.key, KEY_RELEASE)] + emit_mods(to, from, KEY_RELEASE) + emit_mods(
            from,
            to,
            KEY_PRESS,
        ) + seq![syn_ev()]
    }
}

/// Rule matching and remap synthesis alone: the first rule that applies
/// rewrites the event, and with none the event passes unchanged.
pub open spec fn plain_output(rules: Seq<RemapRule>, held: Set<Key>, ev: RawEvent, w: Seq<char>) -> Seq<
    RawEvent,
> {
    match first_match(rules, ev.code, held, w) {
        Some(i) => remap_events(rules[i], ev.value),
        None => seq![ev],
    }
}

/// The state of one engine: its rules, whether Meta+Shift+assistant
/// disambiguation is on, the keys held, whether the assistant chord is held,
/// and the Shift press that waits for the next event.
pub struct EngineState {
    pub rules: Seq<RemapRule>,
    pub copilot_as_meta: bool,
    pub held: Set<Key>,
    pub copilot_held: bool,
    pub pending: Option<RawEvent>,
}

pub open spec fn is_shift(k: Key) -> bool {
    k == keys::KEY_LEFTSHIFT || k == keys::KEY_RIGHTSHIFT
}

pub open spec fn with_held(st: EngineState, held: Set<Key>) -> EngineState {
    EngineState { held, ..st }
}

/// The disambiguation machine's decision on a press or release, made after
/// the held set has been updated; `None` leaves the event to rule matching.
pub open spec fn copilot_decision(st: EngineState, ev: RawEvent, w: Seq<char>) -> Option<
    (EngineState, Seq<RawEvent>),
> {
    let k = ev.code;
    let v = ev.value;
    if is_shift(k) && v == KEY_PRESS && held_equiv(st.held, keys::KEY_LEFTMETA)
        && !st.copilot_held && st.pending is None {
        Some((EngineState { pending: Some(key_ev(k, v)), ..st }, Seq::empty()))
    } else if k == keys::KEY_F23 && v == KEY_PRESS && st.pending is Some {
        Some(
            (
                EngineState {
                    held: st.held.remove(keys::KEY_LEFTSHIFT).remove(keys::KEY_RIGHTSHIFT).remove(
                        keys::KEY_F23,
                    ),
                    copilot_held: true,
                    pending: None,
                    ..st
                },
                Seq::empty(),
            ),
        )
    } else if st.pending is Some {
        Some(
            (
                EngineState { pending: None, ..st },
                seq![st.pending->0, syn_ev()] + plain_output(st.rules, st.held, ev, w),
            ),
        )
    } else if k == keys::KEY_F23 && v == KEY_RELEASE && st.copilot_held {
        Some((EngineState { copilot_held: false, ..st }, Seq::empty()))
    } else if st.copilot_held && (is_shift(k) || k == keys::KEY_F23) {
        Some((st, Seq::empty()))
    } else {
        None
    }
}

/// One step of the engine: the state after `ev` and the events to emit.
pub open spec fn step(st: EngineState, ev: RawEvent, w: Seq<char>) -> (EngineState, Seq<RawEvent>) {
    if ev.kind != EV_KEY {
        (st, seq![ev])
    } else if ev.value != KEY_PRESS && ev.value != KEY_RELEASE {
        if st.copilot_as_meta && (st.copilot_held || st.pending is Some) && (is_shift(ev.code)
            || ev.code == keys::KEY_F23) {
            (st, Seq::empty())
        } else {
            (st, seq![ev])
        }
    } else {
        let held = if ev.value == KEY_PRESS {
            st.held.insert(ev.code)
        } else {
            st.held.remove(ev.code)
        };
        let st1 = with_held(st, held);
        if st.copilot_as_meta && copilot_decision(st1, ev, w) is Some {
            copilot_decision(st1, ev, w)->0
        } else {
            (st1, plain_output(st1.rules, st1.held, ev, w))
        }
    }
}

/// The other key of a modifier's left/right pair.
fn partner_of(k: Key) -> (r: Option<Key>)
    ensures
        r == keys::partner(k),
{
    if k == keys::KEY_LEFTCTRL {
        Some(keys::KEY_RIGHTCTRL)
    } else if k == keys::KEY_RIGHTCTRL {
        Some(keys::KEY_LEFTCTRL)
    } else if k == keys::KEY_LEFTSHIFT {
        Some(keys::KEY_RIGHTSHIFT)
    } else if k == keys::KEY_RIGHTSHIFT {
        Some(keys::KEY_LEFTSHIFT)
    } else if k == keys::KEY_LEFTALT {
        Some(keys::KEY_RIGHTALT)
    } else if k == keys::KEY_RIGHTALT {
        Some(keys::KEY_LEFTALT)
    } else if k == keys::KEY_LEFTMETA {
        Some(keys::KEY_RIGHTMETA)
    } else if k == keys::KEY_RIGHTMETA {
        Some(keys::KEY_LEFTMETA)
    } else {
        None
    }
}

/// Appends an event of value `v` for each key of `mods` in no group of
/// `others`.
fn push_mod_events(events: &mut Vec<RawEvent>, mods: &Vec<Key>, others: &Vec<Key>, v: i32)
    ensures
        final(events)@ == old(events)@ + emit_mods(mods@, others@, v),
{
    let mut i: usize = 0;
    while i < mods.len()
        invariant
            i <= mods@.len(),
            events@ == old(events)@ + emit_mods(mods@.subrange(0, i as int), others@, v),
        decreases mods@.len() - i,
    {
        let m = mods[i];
        proof {
            assert(mods@.subrange(0, i + 1).drop_last() =~= mods@.subrange(0, i as int));
        }
        if !any_same_group(m, others) {
            events.push(key_event(m, v));
        }
        assert(events@ =~= old(events)@ + emit_mods(mods@.subrange(0, i + 1), others@, v));
        i += 1;
    }
    assert(mods@.subrange(0, mods@.len() as int) =~= mods@);
}

/// The events that the rule's from-key emits when pressed (`KEY_PRESS`) or
/// released (any other value).
pub fn apply_remap(rule: &RemapRule, value: i32) -> (r: Vec<RawEvent>)
    ensures
        r@ == remap_events(*rule, value),
{
    let mut events: Vec<RawEvent> = Vec::new();
    if value == KEY_PRESS {
        push_mod_events(&mut events, &rule.from.modifiers, &rule.to.modifiers, KEY_RELEASE);
        push_mod_events(&mut events, &rule.to.modifiers, &rule.from.modifiers, KEY_PRESS);
        events.push(key_event(rule.to.key, KEY_PRESS));
    } else {
        events.push(key_event(rule.to.key, KEY_RELEASE));
        push_mod_events(&mut events, &rule.to.modifiers, &rule.from.modifiers, KEY_RELEASE);
        push_mod_events(&mut events, &rule.from.modifiers, &rule.to.modifiers, KEY_PRESS);
    }
    events.push(syn_event());
    assert(events@ =~= remap_events(*rule, value));
    events
}

/// Whether the window class is excluded by `exclude`.
fn is_excluded(w: &str, exclude: &Vec<String>) -> (r: bool)
    ensures
        r == excluded(w@, exclude.deep_view()),
{
    let mut i: usize = 0;
    while i < exclude.len()
        invariant
            i <= exclude@.len(),
            forall|j: int| 0 <= j < i ==> !eq_ascii_ci(w@, #[trigger] exclude.deep_view()[j]),
        decreases exclude@.len() - i,
    {
        if eq_ignore_ascii_case(w, exclude[i].as_str()) {
            assert(eq_ascii_ci(w@, exclude.deep_view()[i as int]));
            return true;
        }
        i += 1;
    }
    false
}

/// One engine per physical keyboard.
pub struct Remapper {
    rules: Vec<RemapRule>,
    pressed_keys: HashSet<Key>,
    copilot_as_meta: bool,
    copilot_held: bool,
    /// The Shift press held back while waiting to see whether the assistant
    /// key follows.
    pending_shift: Option<RawEvent>,
}

impl View for Remapper {
    type V = EngineState;

    closed spec fn view(&self) -> EngineState {
        EngineState {
            rules: self.rules@,
            copilot_as_meta: self.copilot_as_meta,
            held: self.pressed_keys@,
            copilot_held: self.copilot_held,
            pending: self.pending_shift,
        }
    }
}

impl Remapper {
    /// An engine with nothing held and nothing pending.
    pub fn new(rules: Vec<RemapRule>, copilot_as_meta: bool) -> (r: Self)
        ensures
            r@.rules == rules@,
            r@.copilot_as_meta == copilot_as_meta,
            r@.held == Set::<Key>::empty(),
            !r@.copilot_held,
            r@.pending is None,
    {
        let r = Remapper {
            rules,
            pressed_keys: HashSet::new(),
            copilot_as_meta,
            copilot_held: false,
            pending_shift: None,
        };
        r
    }

    /// Whether the modifier, or its other-side twin, is held.
    pub fn is_modifier_held(&self, modifier: Key) -> (r: bool)
        ensures
            r == held_equiv(self@.held, modifier),
    {
        if self.pressed_keys.contains(&modifier) {
            return true;
        }
        match partner_of(modifier) {
            Some(p) => self.pressed_keys.contains(&p),
            None => false,
        }
    }

    /// Whether `rule` applies to `key` in the current state and window.
    fn rule_applies(&self, rule: &RemapRule, key: Key, window_class: &str) -> (r: bool)
        ensures
            r == applies(*rule, key, self@.held, window_class@),
    {
        if rule.from.key != key {
            return false;
        }
        let mut i: usize = 0;
        while i < rule.from.modifiers.len()
            invariant
                i <= rule.from.modifiers@.len(),
                forall|j: int|
                    0 <= j < i ==> held_equiv(self@.held, #[trigger] rule.from.modifiers@[j]),
            decreases rule.from.modifiers@.len() - i,
        {
            if !self.is_modifier_held(rule.from.modifiers[i]) {
                assert(!held_equiv(self@.held, rule.from.modifiers@[i as int]));
                return false;
            }
            i += 1;
        }
        !is_excluded(window_class, &rule.exclude)
    }

    /// The index of the first rule, in declared order, that applies to
    /// `key` with the keys held now and the given window class.
    pub fn find_matching_rule(&self, key: Key, window_class: &str) -> (r: Option<usize>)
        ensures
            r is Some <==> first_match(self@.rules, key, self@.held, window_class@) is Some,
            r matches Some(i) ==> first_match(self@.rules, key, self@.held, window_class@) == Some(
                i as int,
            ) && i < self@.rules.len(),
    {
        let mut i: usize = 0;
        while i < self.rules.len()
            invariant
                i <= self@.rules.len(),
                first_match(self@.rules, key, self@.held, window_class@) == first_match_from(
                    self@.rules,
                    i as int,
                    key,
                    self@.held,
                    window_class@,
                ),
            decreases self@.rules.len() - i,
        {
            if self.rule_applies(&self.rules[i], key, window_class) {
                return Some(i);
            }
            i += 1;
        }
        None
    }

    /// Rule matching and synthesis for a key press or release.
    fn process_non_copilot(&self, ev: RawEvent, window_class: &str) -> (r: Vec<RawEvent>)
        ensures
            r@ == plain_output(self@.rules, self@.held, ev, window_class@),
    {
        match self.find_matching_rule(ev.code, window_class) {
            Some(i) => apply_remap(&self.rules[i], ev.value),
            None => vec![ev],
        }
    }

    /// The disambiguation machine, for a press or release, after the held
    /// set has been updated. `None` when it makes no decision.
    fn handle_copilot(&mut self, ev: RawEvent, window_class: &str) -> (r: Option<Vec<RawEvent>>)
        ensures
            match copilot_decision(old(self)@, ev, window_class@) {
                Some(d) => r matches Some(out) && final(self)@ == d.0 && out@ == d.1,
                None => r is None && final(self)@ == old(self)@,
            },
    {
        let key = ev.code;
        let value = ev.value;
        let is_shift_key = key == keys::KEY_LEFTSHIFT || key == keys::KEY_RIGHTSHIFT;
        // Meta is held and Shift goes down: hold the Shift press back.
        if is_shift_key && value == KEY_PRESS && self.is_modifier_held(keys::KEY_LEFTMETA)
            && !self.copilot_held && self.pending_shift.is_none() {
            self.pending_shift = Some(key_event(key, value));
            return Some(Vec::new());
        }
        // The assistant key right after the held-back Shift: the chord.
        if key == keys::KEY_F23 && value == KEY_PRESS && self.pending_shift.is_some() {
            self.pending_shift = None;
            self.copilot_held = true;
            self.pressed_keys.remove(&keys::KEY_LEFTSHIFT);
            self.pressed_keys.remove(&keys::KEY_RIGHTSHIFT);
            self.pressed_keys.remove(&keys::KEY_F23);
            return Some(Vec::new());
        }
        // Any other key after the held-back Shift: let the Shift go first.
        if let Some(shift_event) = self.pending_shift {
            self.pending_shift = None;
            let mut events = vec![shift_event, syn_event()];
            let mut more = self.process_non_copilot(ev, window_class);
            events.append(&mut more);
            return Some(events);
        }
        if key == keys::KEY_F23 && value == KEY_RELEASE && self.copilot_held {
            self.copilot_held = false;
            return Some(Vec::new());
        }
        // Shift and the assistant key stay silent while the chord is held.
        if self.copilot_held && (is_shift_key || key == keys::KEY_F23) {
            return Some(Vec::new());
        }
        None
    }

    /// Consumes one raw event and returns the events to emit, in order.
    /// `window_class` is the class of the focused window, empty when unknown.
    pub fn process_event(&mut self, event: RawEvent, window_class: &str) -> (r: Vec<RawEvent>)
        ensures
            (final(self)@, r@) == step(old(self)@, event, window_class@),
            event.kind != EV_KEY ==> r@ == seq![event] && final(self)@ == old(self)@,
    {
        if event.kind != EV_KEY {
            return vec![event];
        }
        let key = event.code;
        let value = event.value;
        if value == KEY_PRESS {
            self.pressed_keys.insert(key);
        } else if value == KEY_RELEASE {
            self.pressed_keys.remove(&key);
        } else {
            // Repeats of Shift or the assistant key stay silent while the
            // machine holds a Shift back or the chord is down.
            if self.copilot_as_meta && (self.copilot_held || self.pending_shift.is_some()) && (key
                == keys::KEY_LEFTSHIFT || key == keys::KEY_RIGHTSHIFT || key == keys::KEY_F23) {
                return Vec::new();
            }
            return vec![event];
        }
        if self.copilot_as_meta {
            if let Some(events) = self.handle_copilot(event, window_class) {
                return events;
            }
        }
        self.process_non_copilot(event, window_class)
    }
}

/// The first rule that applies, if any, by declared order: the index found
/// applies and no earlier rule does; with none found, no rule applies.
pub proof fn lemma_first_match_is_first(rules: Seq<RemapRule>, k: Key, held: Set<Key>, w: Seq<char>)
    ensures
        match first_match(rules, k, held, w) {
            Some(i) => 0 <= i < rules.len() && applies(rules[i], k, held, w) && forall|j: int|
                0 <= j < i ==> !applies(#[trigger] rules[j], k, held, w),
            None => forall|j: int| 0 <= j < rules.len() ==> !applies(#[trigger] rules[j], k, held, w),
        },
{
    lemma_first_match_from(rules, 0, k, held, w);
}

proof fn lemma_first_match_from(rules: Seq<RemapRule>, i: int, k: Key, held: Set<Key>, w: Seq<char>)
    requires
        0 <= i <= rules.len(),
    ensures
        match first_match_from(rules, i, k, held, w) {
            Some(m) => i <= m < rules.len() && applies(rules[m], k, held, w) && forall|j: int|
                i <= j < m ==> !applies(#[trigger] rules[j], k, held, w),
            None => forall|j: int| i <= j < rules.len() ==> !applies(#[trigger] rules[j], k, held, w),
        },
    decreases rules.len() - i,
{
    if i < rules.len() && !applies(rules[i], k, held, w) {
        lemma_first_match_from(rules, i + 1, k, held, w);
    }
}

/// The keys held on the output device after `e`.
pub open spec fn apply_event(s: Set<Key>, e: RawEvent) -> Set<Key> {
    if e.kind == EV_KEY && e.value == KEY_PRESS {
        s.insert(e.code)
    } else if e.kind == EV_KEY && e.value == KEY_RELEASE {
        s.remove(e.code)
    } else {
        s
    }
}

/// The keys held on the output device after the events `evs`, in order.
pub open spec fn apply_events(s: Set<Key>, evs: Seq<RawEvent>) -> Set<Key>
    decreases evs.len(),
{
    if evs.len() == 0 {
        s
    } else {
        apply_event(apply_events(s, evs.drop_last()), evs.last())
    }
}

proof fn lemma_apply_concat(s: Set<Key>, a: Seq<RawEvent>, b: Seq<RawEvent>)
    ensures
        apply_events(s, a + b) == apply_events(apply_events(s, a), b),
    decreases b.len(),
{
    if b.len() == 0 {
        assert(a + b =~= a);
    } else {
        assert((a + b).drop_last() =~= a + b.drop_last());
        lemma_apply_concat(s, a, b.drop_last());
    }
}

proof fn lemma_apply_one(s: Set<Key>, e: RawEvent)
    ensures
        apply_events(s, seq![e]) == apply_event(s, e),
{
    assert(seq![e].drop_last() =~= Seq::<RawEvent>::empty());
    assert(apply_events(s, Seq::<RawEvent>::empty()) == s);
    assert(seq![e].last() == e);
}

proof fn lemma_apply_two(s: Set<Key>, e: RawEvent, f: RawEvent)
    ensures
        apply_events(s, seq![e, f]) == apply_event(apply_event(s, e), f),
{
    assert(seq![e, f].drop_last() =~= seq![e]);
    lemma_apply_one(s, e);
}

/// The events of `emit_mods` press (or release) exactly the keys of `mods`
/// that are in no group of `others`.
proof fn lemma_apply_emit(s: Set<Key>, mods: Seq<Key>, others: Seq<Key>, v: i32)
    requires
        v == KEY_PRESS || v == KEY_RELEASE,
    ensures
        forall|x: Key|
            #[trigger] apply_events(s, emit_mods(mods, others, v)).contains(x) == if v == KEY_PRESS {
                s.contains(x) || (mods.contains(x) && !in_group_of(x, others))
            } else {
                s.contains(x) && !(mods.contains(x) && !in_group_of(x, others))
            },
    decreases mods.len(),
{
    if mods.len() > 0 {
        let init = mods.drop_last();
        let last = mods.last();
        lemma_apply_emit(s, init, others, v);
        let e0 = emit_mods(init, others, v);
        if in_group_of(last, others) {
            assert(emit_mods(mods, others, v) =~= e0);
        } else {
            lemma_apply_concat(s, e0, seq![key_ev(last, v)]);
            lemma_apply_one(apply_events(s, e0), key_ev(last, v));
        }
        assert forall|x: Key| mods.contains(x) <==> init.contains(x) || x == last by {
            if mods.contains(x) {
                let j = choose|j: int| 0 <= j < mods.len() && mods[j] == x;
                if j < mods.len() - 1 {
                    assert(init[j] == x);
                }
            }
            if init.contains(x) {
                let j = choose|j: int| 0 <= j < init.len() && init[j] == x;
                assert(mods[j] == x);
            }
            if x == last {
                assert(mods[mods.len() - 1] == x);
            }
        }
    }
}

/// A from-modifier of `r` that the remap lifts while the target is down.
pub open spec fn from_only(r: RemapRule, x: Key) -> bool {
    r.from.modifiers@.contains(x) && !in_group_of(x, r.to.modifiers@)
}

/// A to-modifier of `r` that the remap adds while the target is down.
pub open spec fn to_only(r: RemapRule, x: Key) -> bool {
    r.to.modifiers@.contains(x) && !in_group_of(x, r.from.modifiers@)
}

/// Output keys held before a matched press for which its release puts
/// everything back: each lifted from-modifier is held under its own code,
/// no added to-modifier is held.
pub open spec fn restorable(r: RemapRule, s: Set<Key>) -> bool {
    &&& forall|x: Key| #[trigger] from_only(r, x) ==> s.contains(x)
    &&& forall|x: Key| #[trigger] to_only(r, x) ==> !s.contains(x)
}

proof fn lemma_press_release_pointwise(r: RemapRule, s: Set<Key>)
    ensures
        forall|x: Key|
            #[trigger] apply_events(
                s,
                remap_events(r, KEY_PRESS) + remap_events(r, KEY_RELEASE),
            ).contains(x) == ((s.contains(x) && !from_only(r, x) && !to_only(r, x) && x
                != r.to.key) || from_only(r, x)),
{
    let from = r.from.modifiers@;
    let to = r.to.modifiers@;
    let tk = r.to.key;
    let lift = emit_mods(from, to, KEY_RELEASE);
    let add = emit_mods(to, from, KEY_PRESS);
    let key_down = seq![key_ev(tk, KEY_PRESS), syn_ev()];
    let key_up = seq![key_ev(tk, KEY_RELEASE)];
    let drop_added = emit_mods(to, from, KEY_RELEASE);
    let restore = emit_mods(from, to, KEY_PRESS);
    let sync = seq![syn_ev()];
    let all = lift + add + key_down + key_up + drop_added + restore + sync;
    assert(remap_events(r, KEY_PRESS) + remap_events(r, KEY_RELEASE) =~= all);
    let s1 = apply_events(s, lift);
    let s2 = apply_events(s1, add);
    let s3 = apply_events(s2, key_down);
    let s4 = apply_events(s3, key_up);
    let s5 = apply_events(s4, drop_added);
    let s6 = apply_events(s5, restore);
    let s7 = apply_events(s6, sync);
    lemma_apply_concat(s, lift, add);
    lemma_apply_concat(s, lift + add, key_down);
    lemma_apply_concat(s, lift + add + key_down, key_up);
    lemma_apply_concat(s, lift + add + key_down + key_up, drop_added);
    lemma_apply_concat(s, lift + add + key_down + key_up + drop_added, restore);
    lemma_apply_concat(s, lift + add + key_down + key_up + drop_added + restore, sync);
    lemma_apply_emit(s, from, to, KEY_RELEASE);
    lemma_apply_emit(s1, to, from, KEY_PRESS);
    lemma_apply_emit(s4, to, from, KEY_RELEASE);
    lemma_apply_emit(s5, from, to, KEY_PRESS);
    lemma_apply_two(s2, key_ev(tk, KEY_PRESS), syn_ev());
    lemma_apply_one(s3, key_ev(tk, KEY_RELEASE));
    lemma_apply_one(s6, syn_ev());
    assert(s3 =~= s2.insert(tk));
    assert(s4 =~= s3.remove(tk));
    assert(s7 =~= s6);
}

/// A matched press followed at once by its matched release leaves every
/// modifier of the output device as it was before the press, when the
/// rule's key is no modifier and the held keys are restorable.
pub proof fn lemma_press_release_restores_modifiers(r: RemapRule, s: Set<Key>)
    requires
        !keys::is_modifier(r.to.key),
        restorable(r, s),
    ensures
        forall|k: Key|
            keys::is_modifier(k) ==> (#[trigger] apply_events(
                s,
                remap_events(r, KEY_PRESS) + remap_events(r, KEY_RELEASE),
            ).contains(k) == s.contains(k)),
{
    lemma_press_release_pointwise(r, s);
}

/// A matched press followed at once by its matched release leaves the keys
/// held on the output device exactly as they were, when the held keys are
/// restorable and the rule's target key was not held.
pub proof fn lemma_press_release_restores_held_set(r: RemapRule, s: Set<Key>)
    requires
        restorable(r, s),
        !s.contains(r.to.key),
    ensures
        apply_events(s, remap_events(r, KEY_PRESS) + remap_events(r, KEY_RELEASE)) == s,
{
    lemma_press_release_pointwise(r, s);
    assert(apply_events(s, remap_events(r, KEY_PRESS) + remap_events(r, KEY_RELEASE)) =~= s);
}

/// Rules whose chords are valid.
pub open spec fn rules_valid(rules: Seq<RemapRule>) -> bool {
    forall|i: int|
        0 <= i < rules.len() ==> chord_valid(#[trigger] rules[i].from) && chord_valid(
            rules[i].to,
        )
}

/// Two held sets that agree on every modifier match the same rule.
proof fn lemma_first_match_modifiers_only(
    rules: Seq<RemapRule>,
    i: int,
    k: Key,
    a: Set<Key>,
    b: Set<Key>,
    w: Seq<char>,
)
    requires
        rules_valid(rules),
        0 <= i <= rules.len(),
        forall|x: Key| keys::is_modifier(x) ==> a.contains(x) == b.contains(x),
    ensures
        first_match_from(rules, i, k, a, w) == first_match_from(rules, i, k, b, w),
    decreases rules.len() - i,
{
    if i < rules.len() {
        let r = rules[i];
        assert forall|j: int| 0 <= j < r.from.modifiers@.len() implies held_equiv(
            a,
            #[trigger] r.from.modifiers@[j],
        ) == held_equiv(b, r.from.modifiers@[j]) by {
            let m = r.from.modifiers@[j];
            assert(keys::is_modifier(m));
            let p = keys::partner(m)->0;
            assert(keys::partner(m) is Some && keys::is_modifier(p));
            assert(a.contains(m) == b.contains(m));
            assert(a.contains(p) == b.contains(p));
        }
        assert(applies(r, k, a, w) == applies(r, k, b, w));
        lemma_first_match_modifiers_only(rules, i + 1, k, a, b, w);
    }
}

/// At the engine: with valid rules, no Shift held back and the assistant
/// chord not down, a press of a non-modifier key that a rule matches,
/// followed at once by its release in the same window, emits that rule's
/// press and release output; applied to restorable output keys that do not
/// hold the rule's target, this leaves them exactly as they were.
pub proof fn lemma_engine_press_release_restores(
    st: EngineState,
    k: Key,
    w: Seq<char>,
    s: Set<Key>,
)
    requires
        rules_valid(st.rules),
        !keys::is_modifier(k),
        st.pending is None,
        !st.copilot_held,
        first_match(st.rules, k, st.held.insert(k), w) is Some,
    ensures
        ({
            let i = first_match(st.rules, k, st.held.insert(k), w)->0;
            let r = st.rules[i];
            let (st1, out1) = step(st, press(k), w);
            let (st2, out2) = step(st1, release(k), w);
            &&& out1 + out2 == remap_events(r, KEY_PRESS) + remap_events(r, KEY_RELEASE)
            &&& restorable(r, s) && !s.contains(r.to.key) ==> apply_events(s, out1 + out2) == s
        }),
{
    let h1 = st.held.insert(k);
    let h2 = h1.remove(k);
    lemma_first_match_is_first(st.rules, k, h1, w);
    lemma_first_match_modifiers_only(st.rules, 0, k, h1, h2, w);
    let i = first_match(st.rules, k, h1, w)->0;
    let r = st.rules[i];
    let st1 = step(st, press(k), w).0;
    assert(st1.held == h1);
    assert(st1.pending is None && !st1.copilot_held && st1.rules == st.rules);
    if restorable(r, s) && !s.contains(r.to.key) {
        lemma_press_release_restores_held_set(r, s);
    }
}

pub open spec fn press(k: Key) -> RawEvent {
    key_ev(k, KEY_PRESS)
}

pub open spec fn release(k: Key) -> RawEvent {
    key_ev(k, KEY_RELEASE)
}

/// With disambiguation on, Meta down, Shift down, assistant down, assistant
/// up: the last three events emit nothing and leave the machine idle, and
/// none of them reaches rule matching, whatever the rules and the window.
pub proof fn lemma_assistant_chord_is_silent(st0: EngineState, w: Seq<char>)
    requires
        st0.copilot_as_meta,
        !st0.copilot_held,
        st0.pending is None,
    ensures
        ({
            let st1 = step(st0, press(keys::KEY_LEFTMETA), w).0;
            let (st2, out2) = step(st1, press(keys::KEY_LEFTSHIFT), w);
            let (st3, out3) = step(st2, press(keys::KEY_F23), w);
            let (st4, out4) = step(st3, release(keys::KEY_F23), w);
            &&& out2.len() == 0
            &&& out3.len() == 0
            &&& out4.len() == 0
            &&& copilot_decision(with_held(st1, st1.held.insert(keys::KEY_LEFTSHIFT)), press(keys::KEY_LEFTSHIFT), w) is Some
            &&& copilot_decision(with_held(st2, st2.held.insert(keys::KEY_F23)), press(keys::KEY_F23), w) is Some
            &&& copilot_decision(with_held(st3, st3.held.remove(keys::KEY_F23)), release(keys::KEY_F23), w) is Some
            &&& !st4.copilot_held
            &&& st4.pending is None
        }),
{
    let st1 = step(st0, press(keys::KEY_LEFTMETA), w).0;
    assert(st1.held.contains(keys::KEY_LEFTMETA));
    assert(st1.pending is None && !st1.copilot_held);
    let st2 = step(st1, press(keys::KEY_LEFTSHIFT), w).0;
    assert(st2.pending is Some);
    let st3 = step(st2, press(keys::KEY_F23), w).0;
    assert(st3.copilot_held && st3.pending is None);
}

/// With a Shift press held back, the assistant key's press discards it,
/// emits nothing, marks the chord as down and forgets Shift and the
/// assistant key as held; rule matching is not consulted.
pub proof fn lemma_assistant_after_buffered_shift(st: EngineState, w: Seq<char>)
    requires
        st.copilot_as_meta,
        st.pending is Some,
    ensures
        step(st, press(keys::KEY_F23), w) == (
            EngineState {
                held: st.held.insert(keys::KEY_F23).remove(keys::KEY_LEFTSHIFT).remove(
                    keys::KEY_RIGHTSHIFT,
                ).remove(keys::KEY_F23),
                copilot_held: true,
                pending: None,
                ..st
            },
            Seq::<RawEvent>::empty(),
        ),
        copilot_decision(
            with_held(st, st.held.insert(keys::KEY_F23)),
            press(keys::KEY_F23),
            w,
        ) is Some,
{
}

/// With a Shift press held back, a press or release of any key but the
/// assistant key emits that Shift press, a synchronization marker, and then
/// exactly what the event gives without disambiguation.
pub proof fn lemma_flush_then_normal(st: EngineState, ev: RawEvent, w: Seq<char>)
    requires
        st.copilot_as_meta,
        st.pending is Some,
        ev.kind == EV_KEY,
        ev.value == KEY_PRESS || ev.value == KEY_RELEASE,
        !(ev.code == keys::KEY_F23 && ev.value == KEY_PRESS),
    ensures
        step(st, ev, w).1 == seq![st.pending->0, syn_ev()] + step(
            EngineState { copilot_as_meta: false, pending: None, ..st },
            ev,
            w,
        ).1,
        step(st, ev, w).0.pending is None,
{
}

/// The batch that releases every modifier key, left and right, of each role,
/// then a synchronization marker.
pub fn release_all_modifiers_events() -> (r: Vec<RawEvent>)
    ensures
        r@ == seq![
            release(keys::KEY_LEFTCTRL),
            release(keys::KEY_RIGHTCTRL),
            release(keys::KEY_LEFTSHIFT),
            release(keys::KEY_RIGHTSHIFT),
            release(keys::KEY_LEFTALT),
            release(keys::KEY_RIGHTALT),
            release(keys::KEY_LEFTMETA),
            release(keys::KEY_RIGHTMETA),
            syn_ev(),
        ],
{
    let r = vec![
        key_event(keys::KEY_LEFTCTRL, KEY_RELEASE),
        key_event(keys::KEY_RIGHTCTRL, KEY_RELEASE),
        key_event(keys::KEY_LEFTSHIFT, KEY_RELEASE),
        key_event(keys::KEY_RIGHTSHIFT, KEY_RELEASE),
        key_event(keys::KEY_LEFTALT, KEY_RELEASE),
        key_event(keys::KEY_RIGHTALT, KEY_RELEASE),
        key_event(keys::KEY_LEFTMETA, KEY_RELEASE),
        key_event(keys::KEY_RIGHTMETA, KEY_RELEASE),
        syn_event(),
    ];
    assert(r@ =~= seq![
        release(keys::KEY_LEFTCTRL),
        release(keys::KEY_RIGHTCTRL),
        release(keys::KEY_LEFTSHIFT),
        release(keys::KEY_RIGHTSHIFT),
        release(keys::KEY_LEFTALT),
        release(keys::KEY_RIGHTALT),
        release(keys::KEY_LEFTMETA),
        release(keys::KEY_RIGHTMETA),
        syn_ev(),
    ]);
    r
}

} // verus!
