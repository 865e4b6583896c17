//! Character-level helpers shared by the text routines: whitespace tests,
//! ASCII case folding and the character classes the filename sanitizer keeps.

use vstd::prelude::*;

verus! {

/// Whitespace for trimming purposes: the characters of Unicode's
/// White_Space property, the same set `str::trim` removes.
pub open spec fn spec_is_space(c: char) -> bool {
    let n = c as u32;
    (9 <= n && n <= 13) || n == 32 || n == 0x85 || n == 0xA0 || n == 0x1680 || (0x2000 <= n && n
        <= 0x200A) || n == 0x2028 || n == 0x2029 || n == 0x202F || n == 0x205F || n == 0x3000
}

/// ASCII case folding: upper-case letters map to lower case, all else is kept.
pub open spec fn spec_lower_char(c: char) -> char {
    if 'A' <= c && c <= 'Z' {
        (((c as u8) + 32) as char)
    } else {
        c
    }
}

/// A character the filename sanitizer keeps as it is: ASCII letters and
/// digits, `-`, `_` and the space.
pub open spec fn spec_keeps_in_filename(c: char) -> bool {
    ('a' <= c && c <= 'z') || ('A' <= c && c <= 'Z') || ('0' <= c && c <= '9') || c == '-'
        || c == '_' || c == ' '
}

#[verifier::when_used_as_spec(spec_is_space)]
pub fn is_space(c: char) -> (r: bool)
    ensures
        r == spec_is_space(c),
{
    let n = c as u32;
    (9 <= n && n <= 13) || n == 32 || n == 0x85 || n == 0xA0 || n == 0x1680 || (0x2000 <= n && n
        <= 0x200A) || n == 0x2028 || n == 0x2029 || n == 0x202F || n == 0x205F || n == 0x3000
}

/// Case-folds one character.
pub(crate) fn lower_char(c: char) -> (r: char)
    ensures
        r == spec_lower_char(c),
{
    let n = c as u32;
    if 65 <= n && n <= 90 {
        proof {
            assert('A' <= c && c <= 'Z');
            assert(c as u8 == n as u8);
        }
        let b: u8 = (c as u8) + 32;
        b as char
    } else {
        proof {
            assert(!('A' <= c && c <= 'Z'));
        }
        c
    }
}

#[verifier::when_used_as_spec(spec_keeps_in_filename)]
pub fn keeps_in_filename(c: char) -> (r: bool)
    ensures
        r == spec_keeps_in_filename(c),
{
    let n = c as u32;
    let r = (97 <= n && n <= 122) || (65 <= n && n <= 90) || (48 <= n && n <= 57) || c == '-'
        || c == '_' || c == ' ';
    proof {
        assert(r == spec_keeps_in_filename(c));
    }
    r
}

} // verus!
