//! The grammar of numeric literals.
//!
//! A number is first scanned up to the next delimiter and only then checked
//! against the grammar here, because its shape (sign, fraction, exponent)
//! cannot be told from its first character.

use vstd::prelude::*;
use crate::text::chars_of;

verus! {

/// An ASCII decimal digit.
pub open spec fn is_digit(c: char) -> bool {
    '0' <= c && c <= '9'
}

/// Every character of `s` is a decimal digit.
pub open spec fn all_digits(s: Seq<char>) -> bool {
    forall|i: int| 0 <= i < s.len() ==> is_digit(#[trigger] s[i])
}

/// An integer literal: `0`, `-0`, or an optional minus sign followed by a
/// digit other than zero and any number of digits.
pub open spec fn is_int_literal(s: Seq<char>) -> bool {
    ||| s =~= seq!['0']
    ||| s =~= seq!['-', '0']
    ||| (s.len() >= 1 && '1' <= s[0] && s[0] <= '9' && all_digits(s.skip(1)))
    ||| (s.len() >= 2 && s[0] == '-' && '1' <= s[1] && s[1] <= '9' && all_digits(s.skip(2)))
}

/// The digits of a fraction, without the dot: one digit or more.
pub open spec fn is_fraction_digits(s: Seq<char>) -> bool {
    s.len() > 0 && all_digits(s)
}

/// An exponent, without its marker: a sign, which is not optional, and one
/// digit or more.
pub open spec fn is_exponent(s: Seq<char>) -> bool {
    s.len() >= 2 && (s[0] == '-' || s[0] == '+') && all_digits(s.skip(1))
}

/// A float literal whose last dot stands at `dot` and whose last exponent
/// marker stands at `exponent`: an integer literal, then the fraction, then
/// the exponent, of which at least one is there, in this order.
pub open spec fn is_float_literal(s: Seq<char>, exponent: Option<int>, dot: Option<int>) -> bool {
    match (exponent, dot) {
        (Some(e), Some(r)) => {
            &&& 0 <= r < e < s.len()
            &&& is_int_literal(s.take(r))
            &&& is_fraction_digits(s.subrange(r + 1, e))
            &&& is_exponent(s.skip(e + 1))
        },
        (Some(e), None) => {
            &&& 0 <= e < s.len()
            &&& is_int_literal(s.take(e))
            &&& is_exponent(s.skip(e + 1))
        },
        (None, Some(r)) => {
            &&& 0 <= r < s.len()
            &&& is_int_literal(s.take(r))
            &&& is_fraction_digits(s.skip(r + 1))
        },
        (None, None) => false,
    }
}

/// Whether `c` is a decimal digit.
pub fn digit(c: char) -> (b: bool)
    ensures
        b == is_digit(c),
{
    '0' <= c && c <= '9'
}

/// Whether `chars[from..to]` holds only digits.
pub fn digits_only(chars: &[char], from: usize, to: usize) -> (b: bool)
    requires
        from <= to <= chars@.len(),
    ensures
        b == all_digits(chars@.subrange(from as int, to as int)),
{
    let mut i: usize = from;
    while i < to
        invariant
            from <= i <= to <= chars@.len(),
            all_digits(chars@.subrange(from as int, i as int)),
        decreases to - i,
    {
        if !digit(chars[i]) {
            assert(chars@.subrange(from as int, to as int)[i - from] == chars@[i as int]);
            return false;
        }
        i += 1;
    }
    true
}

/// Whether `chars[from..to]` is an integer literal.
pub fn int_in(chars: &[char], from: usize, to: usize) -> (b: bool)
    requires
        from <= to <= chars@.len(),
    ensures
        b == is_int_literal(chars@.subrange(from as int, to as int)),
{
    let ghost s = chars@.subrange(from as int, to as int);
    let n = to - from;
    if n == 0 {
        return false;
    }
    let first = chars[from];
    assert(s[0] == first);
    if first == '0' {
        return n == 1;
    }
    if first == '-' {
        if n == 1 {
            return false;
        }
        let second = chars[from + 1];
        assert(s[1] == second);
        if second == '0' {
            return n == 2;
        }
        assert(s.skip(2) =~= chars@.subrange(from + 2, to as int));
        return '1' <= second && second <= '9' && digits_only(chars, from + 2, to);
    }
    assert(s.skip(1) =~= chars@.subrange(from + 1, to as int));
    '1' <= first && first <= '9' && digits_only(chars, from + 1, to)
}

/// Whether `chars[from..to]` holds the digits of a fraction.
pub fn fraction_in(chars: &[char], from: usize, to: usize) -> (b: bool)
    requires
        from <= to <= chars@.len(),
    ensures
        b == is_fraction_digits(chars@.subrange(from as int, to as int)),
{
    to > from && digits_only(chars, from, to)
}

/// Whether `chars[from..to]` is an exponent without its marker.
pub fn exponent_in(chars: &[char], from: usize, to: usize) -> (b: bool)
    requires
        from <= to <= chars@.len(),
    ensures
        b == is_exponent(chars@.subrange(from as int, to as int)),
{
    let ghost s = chars@.subrange(from as int, to as int);
    if to - from < 2 {
        return false;
    }
    let first = chars[from];
    assert(s[0] == first);
    assert(s.skip(1) =~= chars@.subrange(from + 1, to as int));
    (first == '-' || first == '+') && digits_only(chars, from + 1, to)
}

/// Whether `chars[from..to]` is a float literal, given where its last
/// exponent marker and its last dot stand, counted from `from`.
pub fn float_in(
    chars: &[char],
    from: usize,
    to: usize,
    exponent: Option<usize>,
    dot: Option<usize>,
) -> (b: bool)
    requires
        from <= to <= chars@.len(),
        exponent is Some ==> exponent->0 < to - from,
        dot is Some ==> dot->0 < to - from,
    ensures
        b == is_float_literal(
            chars@.subrange(from as int, to as int),
            opt_int(exponent),
            opt_int(dot),
        ),
{
    let ghost s = chars@.subrange(from as int, to as int);
    match (exponent, dot) {
        (Some(e), Some(r)) => {
            if e < r {
                return false;
            }
            if e == r {
                return false;
            }
            assert(s.take(r as int) =~= chars@.subrange(from as int, from + r));
            assert(s.subrange(r + 1, e as int) =~= chars@.subrange(from + r + 1, from + e));
            assert(s.skip(e + 1) =~= chars@.subrange(from + e + 1, to as int));
            int_in(chars, from, from + r) && fraction_in(chars, from + r + 1, from + e)
                && exponent_in(chars, from + e + 1, to)
        },
        (Some(e), None) => {
            assert(s.take(e as int) =~= chars@.subrange(from as int, from + e));
            assert(s.skip(e + 1) =~= chars@.subrange(from + e + 1, to as int));
            int_in(chars, from, from + e) && exponent_in(chars, from + e + 1, to)
        },
        (None, Some(r)) => {
            assert(s.take(r as int) =~= chars@.subrange(from as int, from + r));
            assert(s.skip(r + 1) =~= chars@.subrange(from + r + 1, to as int));
            int_in(chars, from, from + r) && fraction_in(chars, from + r + 1, to)
        },
        (None, None) => false,
    }
}

/// An optional index as an optional mathematical integer.
pub open spec fn opt_int(i: Option<usize>) -> Option<int> {
    match i {
        Some(i) => Some(i as int),
        None => None,
    }
}

/// Whether `value` is an integer literal.
pub fn check_int(value: &str) -> (b: bool)
    ensures
        b == is_int_literal(value@),
{
    let chars = chars_of(value);
    assert(chars@.subrange(0, chars@.len() as int) =~= chars@);
    int_in(chars.as_slice(), 0, chars.len())
}

/// Whether `value` holds the digits of a fraction: one digit or more.
pub fn check_dec(value: &str) -> (b: bool)
    ensures
        b == is_fraction_digits(value@),
{
    let chars = chars_of(value);
    assert(chars@.subrange(0, chars@.len() as int) =~= chars@);
    fraction_in(chars.as_slice(), 0, chars.len())
}

/// Whether `value` is an exponent without its marker: a sign and one digit
/// or more.
pub fn check_exp(value: &str) -> (b: bool)
    ensures
        b == is_exponent(value@),
{
    let chars = chars_of(value);
    assert(chars@.subrange(0, chars@.len() as int) =~= chars@);
    exponent_in(chars.as_slice(), 0, chars.len())
}

/// Whether `value` is a float literal, given the index of its last exponent
/// marker and of its last dot, counted in characters. An index at or beyond
/// the end of `value` makes the answer `false`.
pub fn check_float(value: &str, exponent: Option<usize>, dot: Option<usize>) -> (b: bool)
    ensures
        b == is_float_literal(value@, opt_int(exponent), opt_int(dot)),
{
    let chars = chars_of(value);
    assert(chars@.subrange(0, chars@.len() as int) =~= chars@);
    let n = chars.len();
    match exponent {
        Some(e) => {
            if e >= n {
                return false;
            }
        },
        None => {},
    }
    match dot {
        Some(r) => {
            if r >= n {
                return false;
            }
        },
        None => {},
    }
    float_in(chars.as_slice(), 0, n, exponent, dot)
}

} // verus!
