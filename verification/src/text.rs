//! Characters and strings: what the standard library decides about them,
//! and the decimal notation of numbers.

use vstd::prelude::*;

verus! {

/// Whether `c` has the Unicode `White_Space` property.
pub uninterp spec fn char_is_whitespace(c: char) -> bool;

/// Whether `c` has the Unicode `Alphabetic` property.
pub uninterp spec fn char_is_alphabetic(c: char) -> bool;

/// Whether `c` is in one of the Unicode general categories for numbers.
pub uninterp spec fn char_is_numeric(c: char) -> bool;

/// The lowercase form of a string, as Unicode defines it.
pub uninterp spec fn lowercase_of(s: Seq<char>) -> Seq<char>;

/// `char::is_whitespace` of the standard library. Nothing is claimed of it
/// but that its answer depends on the character alone.
pub assume_specification[ char::is_whitespace ](c: char) -> (r: bool)
    ensures
        r == char_is_whitespace(c),
;

/// `char::is_alphabetic` of the standard library. Nothing is claimed of it
/// but that its answer depends on the character alone.
pub assume_specification[ char::is_alphabetic ](c: char) -> (r: bool)
    ensures
        r == char_is_alphabetic(c),
;

/// `char::is_numeric` of the standard library. Nothing is claimed of it
/// but that its answer depends on the character alone.
pub assume_specification[ char::is_numeric ](c: char) -> (r: bool)
    ensures
        r == char_is_numeric(c),
;

/// `str::to_lowercase` of the standard library. Nothing is claimed of it
/// but that the string returned depends on the characters of `s` alone.
pub assume_specification[ str::to_lowercase ](s: &str) -> (r: String)
    ensures
        r@ == lowercase_of(s@),
;

/// `String::push` of the standard library: the character is appended.
pub assume_specification[ String::push ](s: &mut String, c: char)
    ensures
        final(s)@ == old(s)@.push(c),
;

/// `str` equality of the standard library: two strings are equal when they
/// hold the same characters.
pub assume_specification[ <str as PartialEq>::eq ](a: &str, b: &str) -> (r: bool)
    ensures
        r == (a@ == b@),
;

/// Whether `a` and `b` hold the same characters.
pub fn same_text(a: &str, b: &str) -> (r: bool)
    ensures
        r == (a@ == b@),
{
    a.eq(b)
}

/// Whether `c` is one of the ten ASCII digits.
pub open spec fn is_digit(c: char) -> bool {
    '0' <= c <= '9'
}

/// The number that the digit `c` stands for.
pub open spec fn digit_value(c: char) -> nat {
    (c as int - '0' as int) as nat
}

/// Whether `s` is decimal notation: one digit or more, and nothing else.
pub open spec fn is_decimal(s: Seq<char>) -> bool {
    s.len() > 0 && forall|i: int| 0 <= i < s.len() ==> is_digit(#[trigger] s[i])
}

/// The number that the digits of `s` denote, the first digit weighing most.
pub open spec fn decimal_value(s: Seq<char>) -> nat
    decreases s.len(),
{
    if s.len() == 0 {
        0
    } else {
        decimal_value(s.drop_last()) * 10 + digit_value(s.last())
    }
}

/// What `parse_u32` makes of `s`: its value, where `s` is decimal notation
/// of a number that a `u32` can hold.
pub open spec fn u32_of(s: Seq<char>) -> Option<u32> {
    if is_decimal(s) && decimal_value(s) <= u32::MAX {
        Some(decimal_value(s) as u32)
    } else {
        None
    }
}

/// What `parse_decimal` makes of `s`: the number that `s` denotes where it
/// is decimal notation, and `u64::MAX` in place of any greater number.
pub open spec fn capped_value(s: Seq<char>) -> Option<u64> {
    if !is_decimal(s) {
        None
    } else if decimal_value(s) <= u64::MAX {
        Some(decimal_value(s) as u64)
    } else {
        Some(u64::MAX)
    }
}

/// Reads `text` as a decimal number of any length; a number above
/// `u64::MAX` is read as `u64::MAX`.
pub fn parse_decimal(text: &str) -> (r: Option<u64>)
    ensures
        r == capped_value(text@),
{
    let n: usize = text.unicode_len();
    if n == 0 {
        return None;
    }
    let mut value: u64 = 0;
    let mut i: usize = 0;
    while i < n
        invariant
            n == text@.len(),
            0 <= i <= n,
            value == if decimal_value(text@.take(i as int)) <= u64::MAX {
                decimal_value(text@.take(i as int))
            } else {
                u64::MAX as nat
            },
            forall|j: int| 0 <= j < i ==> is_digit(#[trigger] text@[j]),
        decreases n - i,
    {
        let c: char = text.get_char(i);
        if c < '0' || c > '9' {
            return None;
        }
        let d: u64 = (c as u32 - '0' as u32) as u64;
        proof {
            assert(text@.take(i + 1).drop_last() == text@.take(i as int));
            assert(decimal_value(text@.take(i + 1)) == decimal_value(text@.take(i as int)) * 10
                + d);
        }
        if value > (u64::MAX - d) / 10 {
            value = u64::MAX;
        } else {
            value = value * 10 + d;
        }
        i += 1;
    }
    proof {
        assert(text@.take(n as int) == text@);
    }
    Some(value)
}

/// Reads `text` as a decimal number that a `u32` can hold.
pub fn parse_u32(text: &str) -> (r: Option<u32>)
    ensures
        r == u32_of(text@),
{
    match parse_decimal(text) {
        Some(value) => if value <= 0xffff_ffff {
            Some(value as u32)
        } else {
            None
        },
        None => None,
    }
}

/// The digit that stands for `d`, a number below ten.
pub open spec fn digit_of(d: nat) -> char {
    if d == 0 {
        '0'
    } else if d == 1 {
        '1'
    } else if d == 2 {
        '2'
    } else if d == 3 {
        '3'
    } else if d == 4 {
        '4'
    } else if d == 5 {
        '5'
    } else if d == 6 {
        '6'
    } else if d == 7 {
        '7'
    } else if d == 8 {
        '8'
    } else {
        '9'
    }
}

/// The decimal notation of `n`, without leading zeros.
pub open spec fn decimal_digits(n: nat) -> Seq<char>
    decreases n,
{
    if n < 10 {
        seq![digit_of(n)]
    } else {
        decimal_digits(n / 10).push(digit_of(n % 10))
    }
}

/// The digit that stands for `d`.
fn digit(d: usize) -> (c: char)
    requires
        d < 10,
    ensures
        c == digit_of(d as nat),
{
    if d == 0 {
        '0'
    } else if d == 1 {
        '1'
    } else if d == 2 {
        '2'
    } else if d == 3 {
        '3'
    } else if d == 4 {
        '4'
    } else if d == 5 {
        '5'
    } else if d == 6 {
        '6'
    } else if d == 7 {
        '7'
    } else if d == 8 {
        '8'
    } else {
        '9'
    }
}

/// Appends the decimal notation of `n` to `text`.
pub fn push_decimal(text: &mut String, n: usize)
    ensures
        final(text)@ == old(text)@ + decimal_digits(n as nat),
    decreases n,
{
    if n >= 10 {
        push_decimal(text, n / 10);
    }
    text.push(digit(n % 10));
    assert(text@ =~= old(text)@ + decimal_digits(n as nat));
}

/// The line that marks a token under the prompt: `col` spaces, then `width`
/// carets.
pub open spec fn marker(col: nat, width: nat) -> Seq<char> {
    Seq::new(col, |i: int| ' ') + Seq::new(width, |i: int| '^')
}

/// The line that marks a token of `width` characters at column `col`.
pub fn caret_line(col: usize, width: usize) -> (line: String)
    ensures
        line@ == marker(col as nat, width as nat),
{
    let mut line = String::new();
    let mut i: usize = 0;
    while i < col
        invariant
            i <= col,
            line@ == Seq::new(i as nat, |k: int| ' '),
        decreases col - i,
    {
        line.push(' ');
        i += 1;
        assert(line@ =~= Seq::new(i as nat, |k: int| ' '));
    }
    let mut j: usize = 0;
    while j < width
        invariant
            j <= width,
            line@ == Seq::new(col as nat, |k: int| ' ') + Seq::new(j as nat, |k: int| '^'),
        decreases width - j,
    {
        line.push('^');
        j += 1;
        assert(line@ =~= Seq::new(col as nat, |k: int| ' ') + Seq::new(j as nat, |k: int| '^'));
    }
    line
}

} // verus!
