//! Numeral localization: rewriting ASCII digits as Persian digits,
//! character for character.

use vstd::prelude::*;

verus! {

/// The Persian (Extended Arabic-Indic) digit for an ASCII digit; any other
/// character is left as it is.
pub open spec fn persian_digit(c: char) -> char {
    match c {
        '0' => '\u{6F0}',
        '1' => '\u{6F1}',
        '2' => '\u{6F2}',
        '3' => '\u{6F3}',
        '4' => '\u{6F4}',
        '5' => '\u{6F5}',
        '6' => '\u{6F6}',
        '7' => '\u{6F7}',
        '8' => '\u{6F8}',
        '9' => '\u{6F9}',
        _ => c,
    }
}

/// Relies on String::push: appends the character to the end of the string.
#[verifier::external_body]
fn push_char(s: &mut String, c: char)
    ensures
        final (s)@ == old(s)@.push(c),
{
    s.push(c)
}

/// The character `persian_digit` maps `c` to.
fn map_persian_digit(c: char) -> (r: char)
    ensures
        r == persian_digit(c),
{
    match c {
        '0' => '\u{6F0}',
        '1' => '\u{6F1}',
        '2' => '\u{6F2}',
        '3' => '\u{6F3}',
        '4' => '\u{6F4}',
        '5' => '\u{6F5}',
        '6' => '\u{6F6}',
        '7' => '\u{6F7}',
        '8' => '\u{6F8}',
        '9' => '\u{6F9}',
        _ => c,
    }
}

/// Rewrites every ASCII digit of the input as the Persian digit of the same
/// value, leaving all other characters unchanged.
pub fn to_persian_numerals(input: &str) -> (r: String)
    ensures
        r@.len() == input@.len(),
        forall|i: int| 0 <= i < input@.len() ==> r@[i] == persian_digit(#[trigger] input@[i]),
{
    let n = input.unicode_len();
    let mut out = String::new();
    let mut i: usize = 0;
    while i < n
        invariant
            0 <= i <= n,
            n == input@.len(),
            out@.len() == i,
            forall|k: int| 0 <= k < i ==> out@[k] == persian_digit(#[trigger] input@[k]),
        decreases n - i,
    {
        let c = input.get_char(i);
        push_char(&mut out, map_persian_digit(c));
        i = i + 1;
    }
    out
}

} // verus!
