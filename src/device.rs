//! Which input devices are taken over as keyboards.
use vstd::prelude::*;

use crate::config::str_eq;

verus! {

/// `p` is a prefix of `s`.
pub open spec fn has_prefix(s: Seq<char>, p: Seq<char>) -> bool {
    p.len() <= s.len() && s.subrange(0, p.len() as int) == p
}

/// Whether `s` starts with `p`.
pub fn starts_with(s: &str, p: &str) -> (r: bool)
    ensures
        r == has_prefix(s@, p@),
{
    let n = p.unicode_len();
    if n > s.unicode_len() {
        return false;
    }
    str_eq(s.substring_char(0, n), p)
}

/// The name prefix of the virtual keyboards this program creates.
pub open spec fn own_device_prefix() -> Seq<char> {
    "splash-damage"@
}

/// A device is taken over when it is not one of this program's own virtual
/// keyboards, reports key events, and has both the A and the Z key.
pub fn is_remappable_keyboard(name: &str, has_key_events: bool, has_a: bool, has_z: bool) -> (r:
    bool)
    ensures
        r == (!has_prefix(name@, own_device_prefix()) && has_key_events && has_a && has_z),
{
    !starts_with(name, "splash-damage") && has_key_events && has_a && has_z
}

} // verus!
