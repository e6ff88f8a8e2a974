//! Key codes and modifier equivalence.
//!
//! Keys are identified by their Linux input-event code. Each modifier role
//! (ctrl, shift, alt, meta) is realised by a left and a right key, which are
//! interchangeable for "is held" and "same role" questions.
use vstd::prelude::*;

verus! {

/// A key, identified by its input-event code.
pub type Key = u16;

pub const KEY_ESC: Key = 1;
pub const KEY_1: Key = 2;
pub const KEY_2: Key = 3;
pub const KEY_3: Key = 4;
pub const KEY_4: Key = 5;
pub const KEY_5: Key = 6;
pub const KEY_6: Key = 7;
pub const KEY_7: Key = 8;
pub const KEY_8: Key = 9;
pub const KEY_9: Key = 10;
pub const KEY_0: Key = 11;
pub const KEY_BACKSPACE: Key = 14;
pub const KEY_TAB: Key = 15;
pub const KEY_Q: Key = 16;
pub const KEY_W: Key = 17;
pub const KEY_E: Key = 18;
pub const KEY_R: Key = 19;
pub const KEY_T: Key = 20;
pub const KEY_Y: Key = 21;
pub const KEY_U: Key = 22;
pub const KEY_I: Key = 23;
pub const KEY_O: Key = 24;
pub const KEY_P: Key = 25;
pub const KEY_ENTER: Key = 28;
pub const KEY_LEFTCTRL: Key = 29;
pub const KEY_A: Key = 30;
pub const KEY_S: Key = 31;
pub const KEY_D: Key = 32;
pub const KEY_F: Key = 33;
pub const KEY_G: Key = 34;
pub const KEY_H: Key = 35;
pub const KEY_J: Key = 36;
pub const KEY_K: Key = 37;
pub const KEY_L: Key = 38;
pub const KEY_LEFTSHIFT: Key = 42;
pub const KEY_Z: Key = 44;
pub const KEY_X: Key = 45;
pub const KEY_C: Key = 46;
pub const KEY_V: Key = 47;
pub const KEY_B: Key = 48;
pub const KEY_N: Key = 49;
pub const KEY_M: Key = 50;
pub const KEY_RIGHTSHIFT: Key = 54;
pub const KEY_LEFTALT: Key = 56;
pub const KEY_SPACE: Key = 57;
pub const KEY_CAPSLOCK: Key = 58;
pub const KEY_F1: Key = 59;
pub const KEY_F2: Key = 60;
pub const KEY_F3: Key = 61;
pub const KEY_F4: Key = 62;
pub const KEY_F5: Key = 63;
pub const KEY_F6: Key = 64;
pub const KEY_F7: Key = 65;
pub const KEY_F8: Key = 66;
pub const KEY_F9: Key = 67;
pub const KEY_F10: Key = 68;
pub const KEY_F11: Key = 87;
pub const KEY_F12: Key = 88;
pub const KEY_RIGHTCTRL: Key = 97;
pub const KEY_RIGHTALT: Key = 100;
pub const KEY_HOME: Key = 102;
pub const KEY_UP: Key = 103;
pub const KEY_PAGEUP: Key = 104;
pub const KEY_LEFT: Key = 105;
pub const KEY_RIGHT: Key = 106;
pub const KEY_END: Key = 107;
pub const KEY_DOWN: Key = 108;
pub const KEY_PAGEDOWN: Key = 109;
pub const KEY_DELETE: Key = 111;
pub const KEY_LEFTMETA: Key = 125;
pub const KEY_RIGHTMETA: Key = 126;
/// The key that the assistant ("Copilot") button sends after Meta+Shift.
pub const KEY_F23: Key = 193;

/// The modifier role of a key: 0 ctrl, 1 shift, 2 alt, 3 meta; `None` for
/// any key that is not a modifier.
pub open spec fn role_of(k: Key) -> Option<nat> {
    if k == KEY_LEFTCTRL || k == KEY_RIGHTCTRL {
        Some(0)
    } else if k == KEY_LEFTSHIFT || k == KEY_RIGHTSHIFT {
        Some(1)
    } else if k == KEY_LEFTALT || k == KEY_RIGHTALT {
        Some(2)
    } else if k == KEY_LEFTMETA || k == KEY_RIGHTMETA {
        Some(3)
    } else {
        None
    }
}

pub open spec fn is_modifier(k: Key) -> bool {
    role_of(k) is Some
}

/// The other physical key of a modifier's left/right pair.
pub open spec fn partner(k: Key) -> Option<Key> {
    if k == KEY_LEFTCTRL {
        Some(KEY_RIGHTCTRL)
    } else if k == KEY_RIGHTCTRL {
        Some(KEY_LEFTCTRL)
    } else if k == KEY_LEFTSHIFT {
        Some(KEY_RIGHTSHIFT)
    } else if k == KEY_RIGHTSHIFT {
        Some(KEY_LEFTSHIFT)
    } else if k == KEY_LEFTALT {
        Some(KEY_RIGHTALT)
    } else if k == KEY_RIGHTALT {
        Some(KEY_LEFTALT)
    } else if k == KEY_LEFTMETA {
        Some(KEY_RIGHTMETA)
    } else if k == KEY_RIGHTMETA {
        Some(KEY_LEFTMETA)
    } else {
        None
    }
}

/// Two keys are in the same group when they are equal or form one role's
/// left/right pair.
pub open spec fn same_group(a: Key, b: Key) -> bool {
    a == b || partner(a) == Some(b)
}

/// A key counts as held when it, or its left/right partner, is in `held`.
pub open spec fn held_equiv(held: Set<Key>, k: Key) -> bool {
    held.contains(k) || (partner(k) is Some && held.contains(partner(k)->0))
}

/// `k` is in the same group as some key of `ks`.
pub open spec fn in_group_of(k: Key, ks: Seq<Key>) -> bool {
    exists|j: int| 0 <= j < ks.len() && #[trigger] same_group(k, ks[j])
}

/// Whether `a` and `b` are the same key or the two keys of one modifier role.
pub fn same_modifier_group(a: Key, b: Key) -> (r: bool)
    ensures
        r == same_group(a, b),
{
    if a == b {
        return true;
    }
    (a == KEY_LEFTCTRL && b == KEY_RIGHTCTRL) || (a == KEY_RIGHTCTRL && b == KEY_LEFTCTRL)
        || (a == KEY_LEFTSHIFT && b == KEY_RIGHTSHIFT) || (a == KEY_RIGHTSHIFT && b
        == KEY_LEFTSHIFT) || (a == KEY_LEFTALT && b == KEY_RIGHTALT) || (a == KEY_RIGHTALT && b
        == KEY_LEFTALT) || (a == KEY_LEFTMETA && b == KEY_RIGHTMETA) || (a == KEY_RIGHTMETA && b
        == KEY_LEFTMETA)
}

/// Whether `k` is in the same group as any key of `ks`.
pub fn any_same_group(k: Key, ks: &Vec<Key>) -> (r: bool)
    ensures
        r == in_group_of(k, ks@),
{
    let mut j: usize = 0;
    while j < ks.len()
        invariant
            j <= ks@.len(),
            forall|i: int| 0 <= i < j ==> !#[trigger] same_group(k, ks@[i]),
        decreases ks@.len() - j,
    {
        if same_modifier_group(k, ks[j]) {
            return true;
        }
        j += 1;
    }
    false
}

/// Whether `ks` lists `k`.
pub fn contains_key(ks: &Vec<Key>, k: Key) -> (r: bool)
    ensures
        r == ks@.contains(k),
{
    let mut j: usize = 0;
    while j < ks.len()
        invariant
            j <= ks@.len(),
            forall|i: int| 0 <= i < j ==> ks@[i] != k,
        decreases ks@.len() - j,
    {
        if ks[j] == k {
            return true;
        }
        j += 1;
    }
    false
}

/// `same_group` is reflexive and symmetric, and two different keys are only
/// ever grouped when both are modifiers of one and the same role.
pub proof fn lemma_same_group_is_role_pairing(a: Key, b: Key)
    ensures
        same_group(a, a),
        same_group(a, b) == same_group(b, a),
        same_group(a, b) && a != b ==> is_modifier(a) && role_of(a) == role_of(b),
        is_modifier(a) && is_modifier(b) && role_of(a) != role_of(b) ==> !same_group(a, b),
        !is_modifier(a) && a != b ==> !same_group(a, b),
{
}

} // verus!
