//! Validation of message-type names and authorization keys.
//!
//! ```abnf
//! token = 1*tchar
//! tchar = ALPHA / DIGIT / "-" / "." / "_" / "/"
//! type  = token          ; opaque, case-sensitive
//! key   = 1*VCHAR        ; no SP; case-sensitive
//! ```
use vstd::prelude::*;

use crate::text;

verus! {

/// A character of a message-type token.
pub open spec fn tchar(c: char) -> bool {
    ||| 'a' <= c <= 'z'
    ||| 'A' <= c <= 'Z'
    ||| '0' <= c <= '9'
    ||| c == '-'
    ||| c == '.'
    ||| c == '_'
    ||| c == '/'
}

/// A non-empty token.
pub open spec fn valid_type(s: Seq<char>) -> bool {
    s.len() > 0 && forall|i: int| 0 <= i < s.len() ==> tchar(#[trigger] s[i])
}

/// A visible ASCII character.
pub open spec fn vchar(c: char) -> bool {
    '!' <= c <= '~'
}

/// A non-empty run of visible ASCII characters.
pub open spec fn valid_key(s: Seq<char>) -> bool {
    s.len() > 0 && forall|i: int| 0 <= i < s.len() ==> vchar(#[trigger] s[i])
}

/// True iff `c` is a `tchar` (a valid character for a message-type token).
pub fn is_tchar(c: char) -> (b: bool)
    ensures
        b == tchar(c),
{
    ('a' <= c && c <= 'z') || ('A' <= c && c <= 'Z') || ('0' <= c && c <= '9') || c == '-' || c
        == '.' || c == '_' || c == '/'
}

/// True iff `s` is a valid message-type name: a non-empty `token`.
pub fn is_valid_type(s: &str) -> (b: bool)
    ensures
        b == valid_type(s@),
{
    let chars = text::to_chars(s);
    let mut i: usize = 0;
    while i < chars.len()
        invariant
            i <= chars.len(),
            chars@ == s@,
            forall|j: int| 0 <= j < i ==> tchar(#[trigger] s@[j]),
        decreases chars.len() - i,
    {
        if !is_tchar(chars[i]) {
            return false;
        }
        i += 1;
    }
    chars.len() > 0
}

/// True iff `s` is a valid authorization key: one or more visible ASCII
/// characters (`VCHAR`, %x21-7E) with no spaces.
pub fn is_valid_key(s: &str) -> (b: bool)
    ensures
        b == valid_key(s@),
{
    let chars = text::to_chars(s);
    let mut i: usize = 0;
    while i < chars.len()
        invariant
            i <= chars.len(),
            chars@ == s@,
            forall|j: int| 0 <= j < i ==> vchar(#[trigger] s@[j]),
        decreases chars.len() - i,
    {
        let c = chars[i];
        if !('!' <= c && c <= '~') {
            return false;
        }
        i += 1;
    }
    chars.len() > 0
}

} // verus!
