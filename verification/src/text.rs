use vstd::prelude::*;

verus! {

/// What `char::is_alphabetic` returns beyond ASCII: a fixed property of the
/// character alone. Stated only through `alphabetic` in the wrapper below.
pub uninterp spec fn alphabetic_beyond_ascii(c: char) -> bool;

/// Whether a character is alphabetic: within ASCII, exactly the letters;
/// beyond ASCII, whatever the Unicode Alphabetic property says.
pub open spec fn alphabetic(c: char) -> bool {
    if (c as u32) < 128 {
        ('a' <= c && c <= 'z') || ('A' <= c && c <= 'Z')
    } else {
        alphabetic_beyond_ascii(c)
    }
}

/// Relies on char::is_alphabetic: true exactly for characters with the
/// Unicode Alphabetic property — within ASCII, exactly the letters — a
/// property of the character alone.
#[verifier::external_body]
pub fn is_alphabetic_char(c: char) -> (r: bool)
    ensures
        r == alphabetic(c),
        (c as u32) >= 128 ==> r == alphabetic_beyond_ascii(c),
{
    c.is_alphabetic()
}

/// A decimal digit.
pub open spec fn spec_is_digit(c: char) -> bool {
    '0' <= c && c <= '9'
}

/// True exactly when the character is a decimal digit.
pub fn is_digit_char(c: char) -> (r: bool)
    ensures
        r == spec_is_digit(c),
{
    '0' <= c && c <= '9'
}

/// All characters of the sequence are decimal digits.
pub open spec fn all_digits(s: Seq<char>) -> bool {
    forall|i: int| 0 <= i < s.len() ==> spec_is_digit(s[i])
}

} // verus!
