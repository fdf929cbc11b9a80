//! Keyboard key values.

use vstd::prelude::*;

verus! {

/// A physical or virtual keyboard key.
#[derive(Debug, Clone, Copy, Hash, PartialEq, Eq, Structural)]
pub enum Key {
    /// The left arrow.
    Left,
    /// The right arrow.
    Right,
    /// The up arrow.
    Up,
    /// The down arrow.
    Down,
    /// The space bar.
    Space,
    /// The `return` or `enter` button.
    Return,
    /// The number 1.
    One,
    /// The number 2.
    Two,
    /// The number 3.
    Three,
    /// The number 4.
    Four,
    /// A key that this library has no name for, identified by a number.
    Other(i32),
}

/// The key, if any, whose lowercase name is the given character sequence.
pub open spec fn spec_key_from_name(name: Seq<char>) -> Option<Key> {
    if name == "left"@ {
        Some(Key::Left)
    } else if name == "right"@ {
        Some(Key::Right)
    } else if name == "up"@ {
        Some(Key::Up)
    } else if name == "down"@ {
        Some(Key::Down)
    } else if name == "space"@ {
        Some(Key::Space)
    } else if name == "return"@ {
        Some(Key::Return)
    } else if name == "1"@ {
        Some(Key::One)
    } else if name == "2"@ {
        Some(Key::Two)
    } else if name == "3"@ {
        Some(Key::Three)
    } else if name == "4"@ {
        Some(Key::Four)
    } else {
        None
    }
}

/// Compares two character sequences for equality, character by character.
fn str_eq(a: &str, b: &str) -> (r: bool)
    ensures
        r == (a@ == b@),
{
    let alen = a.unicode_len();
    let blen = b.unicode_len();
    if alen != blen {
        assert(a@ != b@) by {
            assert(a@.len() != b@.len());
        }
        return false;
    }
    let mut i: usize = 0;
    while i < alen
        invariant
            i <= alen,
            alen == a@.len(),
            alen == b@.len(),
            forall|j: int| 0 <= j < i ==> a@[j] == b@[j],
        decreases alen - i,
    {
        if a.get_char(i) != b.get_char(i) {
            return false;
        }
        i += 1;
    }
    assert(a@ =~= b@);
    true
}

impl Key {
    /// Attempts to find a key with the given name.
    /// All key names are lowercase.
    pub fn from_name(name: &str) -> (k: Option<Key>)
        ensures
            k == spec_key_from_name(name@),
    {
        if str_eq(name, "left") {
            Some(Key::Left)
        } else if str_eq(name, "right") {
            Some(Key::Right)
        } else if str_eq(name, "up") {
            Some(Key::Up)
        } else if str_eq(name, "down") {
            Some(Key::Down)
        } else if str_eq(name, "space") {
            Some(Key::Space)
        } else if str_eq(name, "return") {
            Some(Key::Return)
        } else if str_eq(name, "1") {
            Some(Key::One)
        } else if str_eq(name, "2") {
            Some(Key::Two)
        } else if str_eq(name, "3") {
            Some(Key::Three)
        } else if str_eq(name, "4") {
            Some(Key::Four)
        } else {
            None
        }
    }
}

} // verus!
