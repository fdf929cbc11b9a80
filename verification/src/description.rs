//! Descriptions of raw game inputs: which key or signal an event is about.

use vstd::prelude::*;

use crate::key::{spec_key_from_name, Key};
use crate::signal::Signal;

verus! {

/// Which representation of a key should be used (physical vs. virtual).
#[derive(Debug, Clone, Copy, Hash, PartialEq, Eq, Structural)]
pub enum Keytype {
    /// The key is a virtual key. Key 'a' refers to whatever button on the
    /// keyboard writes 'a' when pressed.
    Keycode,
    /// The key is a physical key location. Key 'a' refers to the button of
    /// the physical keyboard with the label 'a' on it, regardless of what
    /// is entered when the key is pressed.
    Scancode,
}

/// Modifier keys held down while a button is pressed.
///
/// The set is carried through equality and hashing but no event producer
/// currently fills it in: modifier-aware binding is reserved for later.
#[derive(Debug, Clone, Copy, Hash, PartialEq, Eq, Structural)]
pub struct Mods(pub u16);

/// The description of a button on a keyboard.
#[derive(Debug, Clone, Copy, Hash, PartialEq, Eq, Structural)]
pub struct KeyDesc {
    /// The key.
    pub key: Key,
    /// Whether it is a key code (virtual) or scan code (physical) key.
    pub keytype: Keytype,
    /// What modifiers should be pressed.
    pub mods: Mods,
}

impl KeyDesc {
    /// The description that `KeyDesc::new` builds: the given key, taken as
    /// a virtual key, with no modifiers.
    pub open spec fn of_key(key: Key) -> KeyDesc {
        KeyDesc { key, keytype: Keytype::Keycode, mods: Mods(0) }
    }

    /// Creates a new key description with the given key.
    pub fn new(key: Key) -> (d: KeyDesc)
        ensures
            d == KeyDesc::of_key(key),
    {
        KeyDesc { key, keytype: Keytype::Keycode, mods: Mods(0) }
    }

    /// Builder method to mark this input to use the scancode rather than
    /// the key code.
    /// The scancode is the physical keyboard location of the button,
    /// whereas the key code is what this button is mapped to inside the OS.
    pub fn scancode(self) -> (d: KeyDesc)
        ensures
            d == (KeyDesc { keytype: Keytype::Scancode, ..self }),
    {
        let mut this = self;
        this.keytype = Keytype::Scancode;
        this
    }

    /// Builder method to add a set of modifier keys to the description.
    pub fn mods(self, mods: Mods) -> (d: KeyDesc)
        ensures
            d == (KeyDesc { mods, ..self }),
    {
        let mut this = self;
        this.mods = mods;
        this
    }
}

impl From<Key> for KeyDesc {
    fn from(value: Key) -> (d: KeyDesc)
        ensures
            d == KeyDesc::of_key(value),
    {
        KeyDesc::new(value)
    }
}

impl vstd::std_specs::convert::FromSpecImpl<Key> for KeyDesc {
    open spec fn obeys_from_spec() -> bool {
        true
    }

    open spec fn from_spec(value: Key) -> KeyDesc {
        KeyDesc::of_key(value)
    }
}

/// The description of a raw game input.
#[derive(Debug, Clone, Copy, Hash, PartialEq, Eq, Structural)]
pub enum InputDesc {
    /// The input is a keyboard button.
    Key(KeyDesc),
    /// The input is some sort of signal (for instance a quit request).
    Signal(Signal),
}

impl From<KeyDesc> for InputDesc {
    fn from(keydesc: KeyDesc) -> (d: InputDesc)
        ensures
            d == InputDesc::Key(keydesc),
    {
        InputDesc::Key(keydesc)
    }
}

impl vstd::std_specs::convert::FromSpecImpl<KeyDesc> for InputDesc {
    open spec fn obeys_from_spec() -> bool {
        true
    }

    open spec fn from_spec(keydesc: KeyDesc) -> InputDesc {
        InputDesc::Key(keydesc)
    }
}

impl From<Key> for InputDesc {
    fn from(key: Key) -> (d: InputDesc)
        ensures
            d == InputDesc::Key(KeyDesc::of_key(key)),
    {
        InputDesc::Key(KeyDesc::new(key))
    }
}

impl vstd::std_specs::convert::FromSpecImpl<Key> for InputDesc {
    open spec fn obeys_from_spec() -> bool {
        true
    }

    open spec fn from_spec(key: Key) -> InputDesc {
        InputDesc::Key(KeyDesc::of_key(key))
    }
}

impl From<Signal> for InputDesc {
    fn from(signal: Signal) -> (d: InputDesc)
        ensures
            d == InputDesc::Signal(signal),
    {
        InputDesc::Signal(signal)
    }
}

impl vstd::std_specs::convert::FromSpecImpl<Signal> for InputDesc {
    open spec fn obeys_from_spec() -> bool {
        true
    }

    open spec fn from_spec(signal: Signal) -> InputDesc {
        InputDesc::Signal(signal)
    }
}

/// Whether a character counts as trimmable whitespace: the ASCII blank
/// characters.
pub open spec fn is_blank(c: char) -> bool {
    c == ' ' || c == '\t' || c == '\n' || c == '\r' || c == '\u{0b}' || c == '\u{0c}'
}

/// The character sequence with leading and trailing blanks removed.
pub open spec fn spec_trim(s: Seq<char>) -> Seq<char>
    decreases s.len(),
{
    if s.len() > 0 && is_blank(s.first()) {
        spec_trim(s.drop_first())
    } else if s.len() > 0 && is_blank(s.last()) {
        spec_trim(s.drop_last())
    } else {
        s
    }
}

/// The position of the first occurrence of `c`, if there is one.
pub open spec fn spec_find(s: Seq<char>, c: char) -> Option<int>
    decreases s.len(),
{
    if s.len() == 0 {
        None
    } else if s.first() == c {
        Some(0)
    } else {
        match spec_find(s.drop_first(), c) {
            Some(i) => Some(i + 1),
            None => None,
        }
    }
}

proof fn lemma_spec_find_at(s: Seq<char>, c: char, i: int)
    requires
        0 <= i < s.len(),
        s[i] == c,
        forall|j: int| 0 <= j < i ==> s[j] != c,
    ensures
        spec_find(s, c) == Some(i),
    decreases s.len(),
{
    if i > 0 {
        assert(forall|j: int|
            0 <= j < i - 1 ==> s.drop_first()[j] == s[j + 1] && s[j + 1] != c);
        assert(s.drop_first()[i - 1] == s[i]);
        lemma_spec_find_at(s.drop_first(), c, i - 1);
    }
}

proof fn lemma_spec_find_none(s: Seq<char>, c: char)
    requires
        forall|j: int| 0 <= j < s.len() ==> s[j] != c,
    ensures
        spec_find(s, c) is None,
    decreases s.len(),
{
    if s.len() > 0 {
        assert(forall|j: int|
            0 <= j < s.drop_first().len() ==> s.drop_first()[j] == s[j + 1] && s[j + 1] != c);
        lemma_spec_find_none(s.drop_first(), c);
    }
}

/// Whether this character counts as trimmable whitespace.
fn is_blank_char(c: char) -> (b: bool)
    ensures
        b == is_blank(c),
{
    c == ' ' || c == '\t' || c == '\n' || c == '\r' || c == '\u{0b}' || c == '\u{0c}'
}

/// Whether the character at position `i` is trimmable whitespace.
fn blank_at(s: &str, i: usize) -> (b: bool)
    requires
        i < s@.len(),
    ensures
        b == is_blank(s@[i as int]),
{
    is_blank_char(s.get_char(i))
}

/// Returns the string with leading and trailing blanks removed.
fn trim_str<'a>(s: &'a str) -> (r: &'a str)
    ensures
        r@ == spec_trim(s@),
{
    let len = s.unicode_len();
    let mut start: usize = 0;
    let mut end: usize = len;
    proof {
        assert(s@.subrange(0, len as int) =~= s@);
    }
    while start < end && blank_at(s, start)
        invariant
            0 <= start <= end <= len,
            len == s@.len(),
            spec_trim(s@) == spec_trim(s@.subrange(start as int, end as int)),
        decreases end - start,
    {
        proof {
            let sub = s@.subrange(start as int, end as int);
            assert(sub.first() == s@[start as int]);
            assert(sub.drop_first() =~= s@.subrange(start as int + 1, end as int));
        }
        start += 1;
    }
    while end > start && blank_at(s, end - 1)
        invariant
            0 <= start <= end <= len,
            len == s@.len(),
            spec_trim(s@) == spec_trim(s@.subrange(start as int, end as int)),
            start == end || !is_blank(s@[start as int]),
        decreases end - start,
    {
        proof {
            let sub = s@.subrange(start as int, end as int);
            assert(sub.first() == s@[start as int]);
            assert(sub.last() == s@[end - 1]);
            assert(sub.drop_last() =~= s@.subrange(start as int, end as int - 1));
        }
        end -= 1;
    }
    proof {
        let sub = s@.subrange(start as int, end as int);
        if sub.len() > 0 {
            assert(sub.first() == s@[start as int]);
            assert(sub.last() == s@[end - 1]);
        }
        assert(spec_trim(sub) == sub);
    }
    s.substring_char(start, end)
}

/// Returns the position of the first occurrence of `c` in the string, if
/// there is one.
fn find_char(s: &str, c: char) -> (r: Option<usize>)
    ensures
        match r {
            Some(i) => spec_find(s@, c) == Some(i as int) && i < s@.len() && s@[i as int] == c,
            None => spec_find(s@, c) is None,
        },
{
    let len = s.unicode_len();
    let mut i: usize = 0;
    while i < len
        invariant
            0 <= i <= len,
            len == s@.len(),
            forall|j: int| 0 <= j < i ==> s@[j] != c,
        decreases len - i,
    {
        if s.get_char(i) == c {
            proof {
                lemma_spec_find_at(s@, c, i as int);
            }
            return Some(i);
        }
        i += 1;
    }
    proof {
        lemma_spec_find_none(s@, c);
    }
    None
}

/// The key description written in a piece of text, under the mini-grammar
/// of [`KeyDesc::parse`]: an unknown key name parses to nothing.
pub open spec fn spec_parse_key_desc(s: Seq<char>) -> Option<KeyDesc> {
    let t = spec_trim(s);
    if t.len() > 0 && t.first() == '[' {
        match spec_find(t, ']') {
            Some(end) => match spec_key_from_name(spec_trim(t.subrange(1, end))) {
                Some(k) => Some(KeyDesc { key: k, keytype: Keytype::Scancode, mods: Mods(0) }),
                None => None,
            },
            None => match spec_key_from_name(t) {
                Some(k) => Some(KeyDesc::of_key(k)),
                None => None,
            },
        }
    } else {
        match spec_key_from_name(t) {
            Some(k) => Some(KeyDesc::of_key(k)),
            None => None,
        }
    }
}

impl KeyDesc {
    /// Attempts to parse a key description from the given string.
    ///
    /// Key names are lowercase (an invariant of [`Key::from_name`]); an
    /// unknown name yields `None` and the caller decides whether that is
    /// fatal.
    ///
    /// # Mini-grammar
    /// - keycode: `a`
    /// - scancode: `[a]` or `[ a ]`
    pub fn parse(pattern: &str) -> (r: Option<KeyDesc>)
        ensures
            r == spec_parse_key_desc(pattern@),
    {
        let trimmed = trim_str(pattern);
        let tlen = trimmed.unicode_len();
        if tlen > 0 && trimmed.get_char(0) == '[' {
            match find_char(trimmed, ']') {
                Some(end) => {
                    proof {
                        assert(trimmed@[0] == '[');
                        assert(end != 0);
                    }
                    let inner = trim_str(trimmed.substring_char(1, end));
                    match Key::from_name(inner) {
                        Some(k) => Some(KeyDesc::new(k).scancode()),
                        None => None,
                    }
                }
                None => match Key::from_name(trimmed) {
                    Some(k) => Some(KeyDesc::new(k)),
                    None => None,
                },
            }
        } else {
            match Key::from_name(trimmed) {
                Some(k) => Some(KeyDesc::new(k)),
                None => None,
            }
        }
    }
}

} // verus!
