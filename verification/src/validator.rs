//! The character and length policy for display names and room titles.

use vstd::prelude::*;

verus! {

/// Shortest display name and shortest room title, in characters.
pub const MIN_LEN: usize = 3;

/// Longest display name, in characters.
pub const MAX_NAME_LEN: usize = 16;

/// Longest room title, in characters.
pub const MAX_TITLE_LEN: usize = 24;

/// The characters a name or title may hold: ASCII letters, digits and `_ - . ~ #`.
pub open spec fn is_name_char(c: char) -> bool {
    ||| '0' <= c <= '9'
    ||| 'a' <= c <= 'z'
    ||| 'A' <= c <= 'Z'
    ||| c == '_'
    ||| c == '-'
    ||| c == '.'
    ||| c == '~'
    ||| c == '#'
}

/// Every character of `s` is a name character.
pub open spec fn valid_name(s: Seq<char>) -> bool {
    forall|i: int| 0 <= i < s.len() ==> is_name_char(#[trigger] s[i])
}

/// A display name that a session may register with.
pub open spec fn acceptable_name(s: Seq<char>) -> bool {
    MIN_LEN <= s.len() <= MAX_NAME_LEN && valid_name(s)
}

/// A title that a room may be created with.
pub open spec fn acceptable_title(s: Seq<char>) -> bool {
    MIN_LEN <= s.len() <= MAX_TITLE_LEN && valid_name(s)
}

pub fn is_name_character(c: char) -> (ok: bool)
    ensures
        ok == is_name_char(c),
{
    (c >= '0' && c <= '9') || (c >= 'a' && c <= 'z') || (c >= 'A' && c <= 'Z') || c == '_' || c
        == '-' || c == '.' || c == '~' || c == '#'
}

/// Whether `ident` is made of name characters only. The empty string is.
pub fn is_valid_name(ident: &str) -> (ok: bool)
    ensures
        ok == valid_name(ident@),
{
    for c in it: ident.chars()
        invariant
            it.seq() == ident@,
            forall|j: int| 0 <= j < it.index() ==> is_name_char(#[trigger] ident@[j]),
    {
        if !is_name_character(c) {
            return false;
        }
    }
    true
}

} // verus!
