//! From what a keyboard reports to the key that was meant.

use vstd::prelude::*;

verus! {

/// A key, by what it stands for.
#[derive(Clone, Copy, Debug, PartialEq, Eq, Structural, Hash)]
pub enum Key {
    /// A key that types a character.
    Character(char),
    /// A key that types none, by its key symbol.
    Symbol(u32),
}

/// Whether the character is a control code: one of the first thirty-two
/// characters, or one from U+007F to U+009F.
pub open spec fn spec_is_control(c: char) -> bool {
    (c as u32) < 0x20 || 0x7f <= (c as u32) <= 0x9f
}

#[verifier::when_used_as_spec(spec_is_control)]
pub fn is_control(c: char) -> (b: bool)
    ensures
        b == spec_is_control(c),
{
    let code = c as u32;
    code < 0x20 || (0x7f <= code && code <= 0x9f)
}

/// The key that a keyboard means when it reports the text `utf8` and the
/// key symbol `keysym` for it.
pub open spec fn spec_get_key(utf8: Seq<char>, keysym: u32) -> Key {
    if utf8.len() > 0 && !spec_is_control(utf8[0]) {
        Key::Character(utf8[0])
    } else {
        Key::Symbol(keysym)
    }
}

/// The key that a keyboard means when it reports the text `utf8` and the
/// key symbol `keysym` for it: the first character of the text, unless
/// there is none or it is a control code; then the key by its symbol.
pub fn get_key(utf8: &str, keysym: u32) -> (key: Key)
    ensures
        key == spec_get_key(utf8@, keysym),
{
    if utf8.unicode_len() > 0 {
        let c = utf8.get_char(0);
        if !is_control(c) {
            return Key::Character(c);
        }
    }
    Key::Symbol(keysym)
}

} // verus!
