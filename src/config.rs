//! Remap rules and the combo syntax they are written in.
//!
//! A combo is written `modifier+modifier+...+key`: tokens separated by `+`,
//! each trimmed of surrounding whitespace and matched case-insensitively.
//! Every token but the last names a modifier; the last names the key.
use vstd::prelude::*;

use crate::keys;
use crate::keys::Key;

verus! {

/// The rule document as read from the configuration file.
pub struct Config {
    pub remaps: Vec<RemapEntry>,
    pub copilot_as_meta: bool,
}

/// One remap entry, with its combos still in text form.
pub struct RemapEntry {
    pub from: String,
    pub to: String,
    pub exclude: Vec<String>,
}

/// A chord: zero or more modifiers and one key.
#[derive(Debug, Clone)]
pub struct KeyCombo {
    pub modifiers: Vec<Key>,
    pub key: Key,
}

/// A parsed rule: `from` is rewritten to `to` unless the focused window's
/// class equals (ignoring ASCII case) one of `exclude`.
#[derive(Debug, Clone)]
pub struct RemapRule {
    pub from: KeyCombo,
    pub to: KeyCombo,
    pub exclude: Vec<String>,
}

/// The rules and the flag that enables Meta+Shift+assistant disambiguation.
#[derive(Debug, Clone)]
pub struct LoadedConfig {
    pub rules: Vec<RemapRule>,
    pub copilot_as_meta: bool,
}

/// Why a combo could not be read. Each carries the offending token.
#[derive(Debug, Clone)]
pub enum ConfigError {
    /// A token before the last `+` names no modifier (carried lower-cased).
    UnknownModifier(String),
    /// The last token names no key (carried as written, trimmed).
    UnknownKey(String),
}

/// What `str::to_lowercase` makes of a string.
pub uninterp spec fn lower_of(s: Seq<char>) -> Seq<char>;

/// Relies on `str::to_lowercase`: the Unicode lower-case mapping of the
/// string, which depends on its characters alone.
#[verifier::external_body]
fn lowercase(s: &str) -> (r: String)
    ensures
        r@ == lower_of(s@),
{
    s.to_lowercase()
}

/// Whether two strings hold the same characters.
pub fn str_eq(a: &str, b: &str) -> (r: bool)
    ensures
        r == (a@ == b@),
{
    let n = a.unicode_len();
    if n != b.unicode_len() {
        return false;
    }
    let mut i: usize = 0;
    while i < n
        invariant
            n == a@.len(),
            n == b@.len(),
            i <= n,
            forall|j: int| 0 <= j < i ==> a@[j] == b@[j],
        decreases n - i,
    {
        if a.get_char(i) != b.get_char(i) {
            return false;
        }
        i += 1;
    }
    assert(a@ =~= b@);
    true
}

/// Unicode White_Space, the set that `char::is_whitespace` and `str::trim`
/// go by.
pub open spec fn is_space(c: char) -> bool {
    ('\u{9}' <= c <= '\u{d}') || c == ' ' || c == '\u{85}' || c == '\u{a0}' || c == '\u{1680}'
        || ('\u{2000}' <= c <= '\u{200a}') || c == '\u{2028}' || c == '\u{2029}' || c
        == '\u{202f}' || c == '\u{205f}' || c == '\u{3000}'
}

pub fn is_space_char(c: char) -> (r: bool)
    ensures
        r == is_space(c),
{
    ('\u{9}' <= c && c <= '\u{d}') || c == ' ' || c == '\u{85}' || c == '\u{a0}' || c
        == '\u{1680}' || ('\u{2000}' <= c && c <= '\u{200a}') || c == '\u{2028}' || c
        == '\u{2029}' || c == '\u{202f}' || c == '\u{205f}' || c == '\u{3000}'
}

/// The first index at or after `i` that holds no whitespace (or the length).
pub open spec fn skip_front(p: Seq<char>, i: int) -> int
    decreases p.len() - i,
{
    if 0 <= i < p.len() && is_space(p[i]) {
        skip_front(p, i + 1)
    } else {
        i
    }
}

/// The end of `p[a..j]` once trailing whitespace is dropped.
pub open spec fn skip_back(p: Seq<char>, a: int, j: int) -> int
    decreases j - a,
{
    if a < j && j <= p.len() && is_space(p[j - 1]) {
        skip_back(p, a, j - 1)
    } else {
        j
    }
}

/// `p` without leading and trailing whitespace.
pub open spec fn trim_seq(p: Seq<char>) -> Seq<char> {
    let a = skip_front(p, 0);
    p.subrange(a, skip_back(p, a, p.len() as int))
}

/// `s` with leading and trailing whitespace removed.
pub fn trim(s: &str) -> (r: &str)
    ensures
        r@ == trim_seq(s@),
{
    let n = s.unicode_len();
    let mut a: usize = 0;
    while a < n && is_space_char(s.get_char(a))
        invariant
            n == s@.len(),
            a <= n,
            skip_front(s@, a as int) == skip_front(s@, 0),
        decreases n - a,
    {
        a += 1;
    }
    let mut b: usize = n;
    while b > a && is_space_char(s.get_char(b - 1))
        invariant
            n == s@.len(),
            a <= b <= n,
            a == skip_front(s@, 0),
            skip_back(s@, a as int, b as int) == skip_back(s@, a as int, n as int),
        decreases b - a,
    {
        b -= 1;
    }
    s.substring_char(a, b)
}

/// The modifier that a lower-cased token names.
pub open spec fn modifier_named(t: Seq<char>) -> Option<Key> {
    if t == "ctrl"@ || t == "control"@ {
        Some(keys::KEY_LEFTCTRL)
    } else if t == "shift"@ {
        Some(keys::KEY_LEFTSHIFT)
    } else if t == "alt"@ {
        Some(keys::KEY_LEFTALT)
    } else if t == "super"@ || t == "meta"@ || t == "cmd"@ {
        Some(keys::KEY_LEFTMETA)
    } else {
        None
    }
}

/// The modifier named by an already lower-cased token.
pub fn modifier_from_name(t: &str) -> (r: Option<Key>)
    ensures
        r == modifier_named(t@),
{
    if str_eq(t, "ctrl") || str_eq(t, "control") {
        Some(keys::KEY_LEFTCTRL)
    } else if str_eq(t, "shift") {
        Some(keys::KEY_LEFTSHIFT)
    } else if str_eq(t, "alt") {
        Some(keys::KEY_LEFTALT)
    } else if str_eq(t, "super") || str_eq(t, "meta") || str_eq(t, "cmd") {
        Some(keys::KEY_LEFTMETA)
    } else {
        None
    }
}

/// The key that a lower-cased token names.
pub open spec fn key_named(t: Seq<char>) -> Option<Key> {
    if t == "a"@ {
        Some(keys::KEY_A)
    } else if t == "b"@ {
        Some(keys::KEY_B)
    } else if t == "c"@ {
        Some(keys::KEY_C)
    } else if t == "d"@ {
        Some(keys::KEY_D)
    } else if t == "e"@ {
        Some(keys::KEY_E)
    } else if t == "f"@ {
        Some(keys::KEY_F)
    } else if t == "g"@ {
        Some(keys::KEY_G)
    } else if t == "h"@ {
        Some(keys::KEY_H)
    } else if t == "i"@ {
        Some(keys::KEY_I)
    } else if t == "j"@ {
        Some(keys::KEY_J)
    } else if t == "k"@ {
        Some(keys::KEY_K)
    } else if t == "l"@ {
        Some(keys::KEY_L)
    } else if t == "m"@ {
        Some(keys::KEY_M)
    } else if t == "n"@ {
        Some(keys::KEY_N)
    } else if t == "o"@ {
        Some(keys::KEY_O)
    } else if t == "p"@ {
        Some(keys::KEY_P)
    } else if t == "q"@ {
        Some(keys::KEY_Q)
    } else if t == "r"@ {
        Some(keys::KEY_R)
    } else if t == "s"@ {
        Some(keys::KEY_S)
    } else if t == "t"@ {
        Some(keys::KEY_T)
    } else if t == "u"@ {
        Some(keys::KEY_U)
    } else if t == "v"@ {
        Some(keys::KEY_V)
    } else if t == "w"@ {
        Some(keys::KEY_W)
    } else if t == "x"@ {
        Some(keys::KEY_X)
    } else if t == "y"@ {
        Some(keys::KEY_Y)
    } else if t == "z"@ {
        Some(keys::KEY_Z)
    } else if t == "0"@ {
        Some(keys::KEY_0)
    } else if t == "1"@ {
        Some(keys::KEY_1)
    } else if t == "2"@ {
        Some(keys::KEY_2)
    } else if t == "3"@ {
        Some(keys::KEY_3)
    } else if t == "4"@ {
        Some(keys::KEY_4)
    } else if t == "5"@ {
        Some(keys::KEY_5)
    } else if t == "6"@ {
        Some(keys::KEY_6)
    } else if t == "7"@ {
        Some(keys::KEY_7)
    } else if t == "8"@ {
        Some(keys::KEY_8)
    } else if t == "9"@ {
        Some(keys::KEY_9)
    } else if t == "space"@ {
        Some(keys::KEY_SPACE)
    } else if t == "enter"@ {
        Some(keys::KEY_ENTER)
    } else if t == "tab"@ {
        Some(keys::KEY_TAB)
    } else if t == "escape"@ {
        Some(keys::KEY_ESC)
    } else if t == "esc"@ {
        Some(keys::KEY_ESC)
    } else if t == "backspace"@ {
        Some(keys::KEY_BACKSPACE)
    } else if t == "delete"@ {
        Some(keys::KEY_DELETE)
    } else if t == "up"@ {
        Some(keys::KEY_UP)
    } else if t == "down"@ {
        Some(keys::KEY_DOWN)
    } else if t == "left"@ {
        Some(keys::KEY_LEFT)
    } else if t == "right"@ {
        Some(keys::KEY_RIGHT)
    } else if t == "home"@ {
        Some(keys::KEY_HOME)
    } else if t == "end"@ {
        Some(keys::KEY_END)
    } else if t == "pageup"@ {
        Some(keys::KEY_PAGEUP)
    } else if t == "pagedown"@ {
        Some(keys::KEY_PAGEDOWN)
    } else if t == "f1"@ {
        Some(keys::KEY_F1)
    } else if t == "f2"@ {
        Some(keys::KEY_F2)
    } else if t == "f3"@ {
        Some(keys::KEY_F3)
    } else if t == "f4"@ {
        Some(keys::KEY_F4)
    } else if t == "f5"@ {
        Some(keys::KEY_F5)
    } else if t == "f6"@ {
        Some(keys::KEY_F6)
    } else if t == "f7"@ {
        Some(keys::KEY_F7)
    } else if t == "f8"@ {
        Some(keys::KEY_F8)
    } else if t == "f9"@ {
        Some(keys::KEY_F9)
    } else if t == "f10"@ {
        Some(keys::KEY_F10)
    } else if t == "f11"@ {
        Some(keys::KEY_F11)
    } else if t == "f12"@ {
        Some(keys::KEY_F12)
    } else {
        None
    }
}

/// The key named by an already lower-cased token.
pub fn key_from_name(t: &str) -> (r: Option<Key>)
    ensures
        r == key_named(t@),
{
    if str_eq(t, "a") {
        Some(keys::KEY_A)
    } else if str_eq(t, "b") {
        Some(keys::KEY_B)
    } else if str_eq(t, "c") {
        Some(keys::KEY_C)
    } else if str_eq(t, "d") {
        Some(keys::KEY_D)
    } else if str_eq(t, "e") {
        Some(keys::KEY_E)
    } else if str_eq(t, "f") {
        Some(keys::KEY_F)
    } else if str_eq(t, "g") {
        Some(keys::KEY_G)
    } else if str_eq(t, "h") {
        Some(keys::KEY_H)
    } else if str_eq(t, "i") {
        Some(keys::KEY_I)
    } else if str_eq(t, "j") {
        Some(keys::KEY_J)
    } else if str_eq(t, "k") {
        Some(keys::KEY_K)
    } else if str_eq(t, "l") {
        Some(keys::KEY_L)
    } else if str_eq(t, "m") {
        Some(keys::KEY_M)
    } else if str_eq(t, "n") {
        Some(keys::KEY_N)
    } else if str_eq(t, "o") {
        Some(keys::KEY_O)
    } else if str_eq(t, "p") {
        Some(keys::KEY_P)
    } else if str_eq(t, "q") {
        Some(keys::KEY_Q)
    } else if str_eq(t, "r") {
        Some(keys::KEY_R)
    } else if str_eq(t, "s") {
        Some(keys::KEY_S)
    } else if str_eq(t, "t") {
        Some(keys::KEY_T)
    } else if str_eq(t, "u") {
        Some(keys::KEY_U)
    } else if str_eq(t, "v") {
        Some(keys::KEY_V)
    } else if str_eq(t, "w") {
        Some(keys::KEY_W)
    } else if str_eq(t, "x") {
        Some(keys::KEY_X)
    } else if str_eq(t, "y") {
        Some(keys::KEY_Y)
    } else if str_eq(t, "z") {
        Some(keys::KEY_Z)
    } else if str_eq(t, "0") {
        Some(keys::KEY_0)
    } else if str_eq(t, "1") {
        Some(keys::KEY_1)
    } else if str_eq(t, "2") {
        Some(keys::KEY_2)
    } else if str_eq(t, "3") {
        Some(keys::KEY_3)
    } else if str_eq(t, "4") {
        Some(keys::KEY_4)
    } else if str_eq(t, "5") {
        Some(keys::KEY_5)
    } else if str_eq(t, "6") {
        Some(keys::KEY_6)
    } else if str_eq(t, "7") {
        Some(keys::KEY_7)
    } else if str_eq(t, "8") {
        Some(keys::KEY_8)
    } else if str_eq(t, "9") {
        Some(keys::KEY_9)
    } else if str_eq(t, "space") {
        Some(keys::KEY_SPACE)
    } else if str_eq(t, "enter") {
        Some(keys::KEY_ENTER)
    } else if str_eq(t, "tab") {
        Some(keys::KEY_TAB)
    } else if str_eq(t, "escape") {
        Some(keys::KEY_ESC)
    } else if str_eq(t, "esc") {
        Some(keys::KEY_ESC)
    } else if str_eq(t, "backspace") {
        Some(keys::KEY_BACKSPACE)
    } else if str_eq(t, "delete") {
        Some(keys::KEY_DELETE)
    } else if str_eq(t, "up") {
        Some(keys::KEY_UP)
    } else if str_eq(t, "down") {
        Some(keys::KEY_DOWN)
    } else if str_eq(t, "left") {
        Some(keys::KEY_LEFT)
    } else if str_eq(t, "right") {
        Some(keys::KEY_RIGHT)
    } else if str_eq(t, "home") {
        Some(keys::KEY_HOME)
    } else if str_eq(t, "end") {
        Some(keys::KEY_END)
    } else if str_eq(t, "pageup") {
        Some(keys::KEY_PAGEUP)
    } else if str_eq(t, "pagedown") {
        Some(keys::KEY_PAGEDOWN)
    } else if str_eq(t, "f1") {
        Some(keys::KEY_F1)
    } else if str_eq(t, "f2") {
        Some(keys::KEY_F2)
    } else if str_eq(t, "f3") {
        Some(keys::KEY_F3)
    } else if str_eq(t, "f4") {
        Some(keys::KEY_F4)
    } else if str_eq(t, "f5") {
        Some(keys::KEY_F5)
    } else if str_eq(t, "f6") {
        Some(keys::KEY_F6)
    } else if str_eq(t, "f7") {
        Some(keys::KEY_F7)
    } else if str_eq(t, "f8") {
        Some(keys::KEY_F8)
    } else if str_eq(t, "f9") {
        Some(keys::KEY_F9)
    } else if str_eq(t, "f10") {
        Some(keys::KEY_F10)
    } else if str_eq(t, "f11") {
        Some(keys::KEY_F11)
    } else if str_eq(t, "f12") {
        Some(keys::KEY_F12)
    } else {
        None
    }
}

/// Reads a modifier token, in any letter case.
pub fn parse_modifier(s: &str) -> (r: Result<Key, ConfigError>)
    ensures
        match modifier_named(lower_of(s@)) {
            Some(k) => r == Ok::<Key, ConfigError>(k),
            None => r matches Err(ConfigError::UnknownModifier(t)) && t@ == lower_of(s@),
        },
{
    let lowered = lowercase(s);
    match modifier_from_name(lowered.as_str()) {
        Some(k) => Ok(k),
        None => Err(ConfigError::UnknownModifier(lowered)),
    }
}

/// Reads a key token, in any letter case.
pub fn parse_key(s: &str) -> (r: Result<Key, ConfigError>)
    ensures
        match key_named(lower_of(s@)) {
            Some(k) => r == Ok::<Key, ConfigError>(k),
            None => r matches Err(ConfigError::UnknownKey(t)) && t@ == s@,
        },
{
    let lowered = lowercase(s);
    match key_from_name(lowered.as_str()) {
        Some(k) => Ok(k),
        None => Err(ConfigError::UnknownKey(String::from_str(s))),
    }
}

/// The pieces of `s` between occurrences of `sep` (one more than there are
/// separators).
pub open spec fn split_on(s: Seq<char>, sep: char) -> Seq<Seq<char>>
    decreases s.len(),
{
    if s.len() == 0 {
        seq![Seq::<char>::empty()]
    } else {
        let init = split_on(s.drop_last(), sep);
        if s.last() == sep {
            init.push(Seq::<char>::empty())
        } else {
            init.update(init.len() - 1, init.last().push(s.last()))
        }
    }
}

proof fn lemma_split_on_nonempty(s: Seq<char>, sep: char)
    ensures
        split_on(s, sep).len() >= 1,
    decreases s.len(),
{
    if s.len() > 0 {
        lemma_split_on_nonempty(s.drop_last(), sep);
    }
}

/// Cutting `s` after `j` characters leaves the pieces before the last one
/// that the cut makes untouched.
proof fn lemma_split_prefix(s: Seq<char>, sep: char, j: int)
    requires
        0 <= j <= s.len(),
    ensures
        split_on(s, sep).len() >= split_on(s.subrange(0, j), sep).len(),
        forall|k: int|
            0 <= k < split_on(s.subrange(0, j), sep).len() - 1 ==> #[trigger] split_on(s, sep)[k]
                == split_on(s.subrange(0, j), sep)[k],
    decreases s.len() - j,
{
    if j < s.len() {
        let t = s.drop_last();
        assert(t.subrange(0, j) =~= s.subrange(0, j));
        lemma_split_prefix(t, sep, j);
        lemma_split_on_nonempty(t, sep);
    } else {
        assert(s.subrange(0, j) =~= s);
    }
}

/// The trimmed tokens of a combo.
pub open spec fn combo_tokens(s: Seq<char>) -> Seq<Seq<char>> {
    split_on(s, '+').map_values(|p: Seq<char>| trim_seq(p))
}

/// Every token before the last names a modifier.
pub open spec fn modifiers_known(toks: Seq<Seq<char>>) -> bool {
    forall|i: int| 0 <= i < toks.len() - 1 ==> (#[trigger] modifier_named(lower_of(toks[i])))
        is Some
}

/// The combo text names known modifiers and a known key.
pub open spec fn combo_parses(s: Seq<char>) -> bool {
    let toks = combo_tokens(s);
    modifiers_known(toks) && key_named(lower_of(toks.last())) is Some
}

/// `s` with every entry after its first occurrence dropped.
pub open spec fn dedup(s: Seq<Key>) -> Seq<Key>
    decreases s.len(),
{
    if s.len() == 0 {
        s
    } else {
        let d = dedup(s.drop_last());
        if d.contains(s.last()) {
            d
        } else {
            d.push(s.last())
        }
    }
}

/// The modifiers that the tokens before the last name, one per token.
pub open spec fn token_mods(toks: Seq<Seq<char>>) -> Seq<Key> {
    Seq::new((toks.len() - 1) as nat, |i: int| modifier_named(lower_of(toks[i]))->0)
}

/// A chord as the data model has it: its modifiers are modifier keys, none
/// listed twice, and its key is no modifier.
pub open spec fn chord_valid(c: KeyCombo) -> bool {
    &&& forall|i: int| 0 <= i < c.modifiers@.len() ==> keys::is_modifier(#[trigger] c.modifiers@[i])
    &&& c.modifiers@.no_duplicates()
    &&& !keys::is_modifier(c.key)
}

/// `c` is the chord that the combo text names: the modifiers named before
/// the last token, each once, in the order in which they first appear, and
/// the key that the last token names.
pub open spec fn combo_means(s: Seq<char>, c: KeyCombo) -> bool {
    let toks = combo_tokens(s);
    &&& c.modifiers@ == dedup(token_mods(toks))
    &&& key_named(lower_of(toks.last())) == Some(c.key)
}

proof fn lemma_named_key_is_no_modifier(t: Seq<char>)
    ensures
        key_named(t) matches Some(k) ==> !keys::is_modifier(k),
{
}

/// `e` reports the first unknown token of the combo text.
pub open spec fn combo_error(s: Seq<char>, e: ConfigError) -> bool {
    let toks = combo_tokens(s);
    match e {
        ConfigError::UnknownModifier(t) => exists|i: int|
            0 <= i < toks.len() - 1 && modifier_named(lower_of(#[trigger] toks[i])) is None && t@
                == lower_of(toks[i]) && modifiers_known(toks.subrange(0, i + 1)),
        ConfigError::UnknownKey(t) => modifiers_known(toks) && key_named(lower_of(toks.last()))
            is None && t@ == toks.last(),
    }
}

/// Reads a combo `modifier+...+key`. Modifier tokens are read in order and
/// the first unknown one is reported; the key token is read only after them.
pub fn parse_key_combo(s: &str) -> (r: Result<KeyCombo, ConfigError>)
    ensures
        combo_tokens(s@).len() >= 1,
        r is Ok <==> combo_parses(s@),
        r matches Ok(c) ==> combo_means(s@, c) && chord_valid(c),
        r matches Err(e) ==> combo_error(s@, e),
{
    let n = s.unicode_len();
    let mut modifiers: Vec<Key> = Vec::new();
    let mut start: usize = 0;
    let mut i: usize = 0;
    let ghost mut done: Seq<Seq<char>> = Seq::empty();
    let ghost mut names: Seq<Key> = Seq::empty();
    assert(s@.subrange(0, 0) =~= Seq::<char>::empty());
    assert(done.push(s@.subrange(0, 0)) =~= seq![Seq::<char>::empty()]);
    while i < n
        invariant
            n == s@.len(),
            start <= i <= n,
            split_on(s@.subrange(0, i as int), '+') == done.push(s@.subrange(start as int, i as int)),
            names.len() == done.len(),
            forall|k: int|
                0 <= k < done.len() ==> modifier_named(lower_of(trim_seq(#[trigger] done[k])))
                    == Some(names[k]),
            modifiers@ == dedup(names),
            modifiers@.no_duplicates(),
            forall|j: int| 0 <= j < modifiers@.len() ==> keys::is_modifier(#[trigger] modifiers@[j]),
        decreases n - i,
    {
        assert(s@.subrange(0, i + 1).drop_last() =~= s@.subrange(0, i as int));
        if s.get_char(i) == '+' {
            let part = trim(s.substring_char(start, i));
            match parse_modifier(part) {
                Ok(m) => {
                    assert(names.push(m).drop_last() =~= names);
                    if !keys::contains_key(&modifiers, m) {
                        let ghost before = modifiers@;
                        modifiers.push(m);
                        assert(modifiers@.no_duplicates()) by {
                            assert forall|x: int, y: int|
                                0 <= x < y < modifiers@.len() implies modifiers@[x]
                                != modifiers@[y] by {
                                if y == modifiers@.len() - 1 {
                                    assert(before[x] == modifiers@[x]);
                                }
                            }
                        }
                    }
                    proof {
                        names = names.push(m);
                    }
                },
                Err(e) => {
                    proof {
                        let cur = s@.subrange(start as int, i as int);
                        let d = done.len() as int;
                        assert(split_on(s@.subrange(0, i + 1), '+') == done.push(cur).push(
                            Seq::<char>::empty(),
                        ));
                        lemma_split_prefix(s@, '+', i + 1);
                        let toks = combo_tokens(s@);
                        assert(toks[d] == trim_seq(cur));
                        assert(modifiers_known(toks.subrange(0, d + 1))) by {
                            assert forall|k: int| 0 <= k < d implies (#[trigger] modifier_named(
                                lower_of(toks.subrange(0, d + 1)[k]),
                            )) is Some by {
                                assert(toks[k] == trim_seq(done[k]));
                            }
                        }
                    }
                    return Err(e);
                },
            }
            proof {
                done = done.push(s@.subrange(start as int, i as int));
            }
            start = i + 1;
            assert(s@.subrange(start as int, i + 1) =~= Seq::<char>::empty());
        } else {
            assert(s@.subrange(start as int, i + 1) =~= s@.subrange(start as int, i as int).push(
                s@[i as int],
            ));
        }
        i += 1;
    }
    assert(s@.subrange(0, n as int) =~= s@);
    let last = trim(s.substring_char(start, n));
    match parse_key(last) {
        Ok(key) => {
            proof {
                let toks = combo_tokens(s@);
                assert(toks.len() == done.len() + 1);
                assert forall|k: int| 0 <= k < names.len() implies token_mods(toks)[k]
                    == names[k] by {
                    assert(toks[k] == trim_seq(done[k]));
                }
                assert(token_mods(toks) =~= names);
                lemma_named_key_is_no_modifier(lower_of(toks.last()));
            }
            let r = Ok(KeyCombo { modifiers, key });
            proof {
                let toks = combo_tokens(s@);
                assert forall|k: int| 0 <= k < toks.len() - 1 implies (#[trigger] modifier_named(lower_of(toks[k]))) is Some by {
                    assert(toks[k] == trim_seq(done[k]));
                }
            }
            r
        },
        Err(e) => {
            proof {
                let toks = combo_tokens(s@);
                assert forall|k: int| 0 <= k < toks.len() - 1 implies (#[trigger] modifier_named(lower_of(toks[k]))) is Some by {
                    assert(toks[k] == trim_seq(done[k]));
                }
            }
            Err(e)
        },
    }
}

/// Entry `e` reads as rule `r`.
pub open spec fn entry_means(e: RemapEntry, r: RemapRule) -> bool {
    &&& combo_means(e.from@, r.from)
    &&& combo_means(e.to@, r.to)
    &&& chord_valid(r.from)
    &&& chord_valid(r.to)
    &&& r.exclude.deep_view() == e.exclude.deep_view()
}

/// Both combos of entry `e` read.
pub open spec fn entry_parses(e: RemapEntry) -> bool {
    combo_parses(e.from@) && combo_parses(e.to@)
}

/// `err` reports the first unknown token of entry `e`, `from` before `to`.
pub open spec fn entry_error(e: RemapEntry, err: ConfigError) -> bool {
    if !combo_parses(e.from@) {
        combo_error(e.from@, err)
    } else {
        !combo_parses(e.to@) && combo_error(e.to@, err)
    }
}

/// Turns the rule document into rules, in the order the entries are
/// written. Any unknown token rejects the whole document: the error is the
/// one of the first entry that fails.
pub fn rules_from_config(config: &Config) -> (r: Result<LoadedConfig, ConfigError>)
    ensures
        r is Ok <==> forall|i: int|
            0 <= i < config.remaps@.len() ==> entry_parses(#[trigger] config.remaps@[i]),
        r matches Ok(l) ==> {
            &&& l.copilot_as_meta == config.copilot_as_meta
            &&& l.rules@.len() == config.remaps@.len()
            &&& forall|i: int|
                0 <= i < config.remaps@.len() ==> entry_means(
                    #[trigger] config.remaps@[i],
                    l.rules@[i],
                )
        },
        r matches Err(err) ==> exists|i: int|
            0 <= i < config.remaps@.len() && entry_error(#[trigger] config.remaps@[i], err)
                && forall|j: int| 0 <= j < i ==> entry_parses(#[trigger] config.remaps@[j]),
{
    let mut rules: Vec<RemapRule> = Vec::new();
    let mut i: usize = 0;
    while i < config.remaps.len()
        invariant
            i <= config.remaps@.len(),
            rules@.len() == i,
            forall|j: int| 0 <= j < i ==> entry_parses(#[trigger] config.remaps@[j]),
            forall|j: int| 0 <= j < i ==> entry_means(#[trigger] config.remaps@[j], rules@[j]),
        decreases config.remaps@.len() - i,
    {
        let entry = &config.remaps[i];
        let from = match parse_key_combo(entry.from.as_str()) {
            Ok(c) => c,
            Err(e) => {
                assert(entry_error(config.remaps@[i as int], e));
                return Err(e);
            },
        };
        let to = match parse_key_combo(entry.to.as_str()) {
            Ok(c) => c,
            Err(e) => {
                assert(entry_error(config.remaps@[i as int], e));
                return Err(e);
            },
        };
        let exclude = entry.exclude.clone();
        proof {
            broadcast use vstd::std_specs::vec::vec_clone_deep_view_proof;
        }
        rules.push(RemapRule { from, to, exclude });
        i += 1;
    }
    Ok(LoadedConfig { rules, copilot_as_meta: config.copilot_as_meta })
}

} // verus!
