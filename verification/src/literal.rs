//! The words that can be read as a single-precision number: those that the
//! standard library's parser of such numbers accepts.

use vstd::prelude::*;
use vstd::string::*;

verus! {

/// A decimal digit.
pub open spec fn is_digit(c: char) -> bool {
    '0' <= c && c <= '9'
}

/// A sign.
pub open spec fn is_sign(c: char) -> bool {
    c == '+' || c == '-'
}

/// The first index from `i` on at which `s` holds no digit, or its length.
pub open spec fn digits_end(s: Seq<char>, i: int) -> int
    decreases s.len() - i,
{
    if 0 <= i < s.len() && is_digit(s[i]) {
        digits_end(s, i + 1)
    } else {
        i
    }
}

/// `c` is the letter `small` in either case; `small` is a small letter.
pub open spec fn is_letter(c: char, small: char) -> bool {
    c == small || c as int + 32 == small as int
}

/// `s` is one of the words `nan`, `inf` and `infinity`, in any mix of cases.
pub open spec fn is_special(s: Seq<char>) -> bool {
    ||| {
        &&& s.len() == 3
        &&& is_letter(s[0], 'n')
        &&& is_letter(s[1], 'a')
        &&& is_letter(s[2], 'n')
    }
    ||| {
        &&& s.len() == 3 || s.len() == 8
        &&& is_letter(s[0], 'i')
        &&& is_letter(s[1], 'n')
        &&& is_letter(s[2], 'f')
        &&& s.len() == 8 ==> {
            &&& is_letter(s[3], 'i')
            &&& is_letter(s[4], 'n')
            &&& is_letter(s[5], 'i')
            &&& is_letter(s[6], 't')
            &&& is_letter(s[7], 'y')
        }
    }
}

/// `s` is a decimal number without a sign: digits with at most one point
/// among them, before them or after them, at least one digit in all, and
/// after that, if anything, the letter `e` in either case, an exponent's sign
/// or none, and at least one digit up to the end.
pub open spec fn is_decimal(s: Seq<char>) -> bool {
    let whole = digits_end(s, 0);
    let point = whole < s.len() && s[whole] == '.';
    let mantissa = if point {
        digits_end(s, whole + 1)
    } else {
        whole
    };
    let digits = if point {
        mantissa - 1
    } else {
        mantissa
    };
    &&& digits > 0
    &&& mantissa < s.len() ==> {
        let exponent = if mantissa + 1 < s.len() && is_sign(s[mantissa + 1]) {
            mantissa + 2
        } else {
            mantissa + 1
        };
        &&& is_letter(s[mantissa], 'e')
        &&& exponent < s.len()
        &&& digits_end(s, exponent) == s.len()
    }
}

/// `s` without its sign, if it starts with one.
pub open spec fn unsigned(s: Seq<char>) -> Seq<char> {
    if s.len() > 0 && is_sign(s[0]) {
        s.subrange(1, s.len() as int)
    } else {
        s
    }
}

/// `s` can be read as a number: after a sign or none it is a decimal number
/// or one of the words for infinity and for what is not a number.
pub open spec fn is_number_literal(s: Seq<char>) -> bool {
    is_special(unsigned(s)) || is_decimal(unsigned(s))
}

fn letter_at(s: &str, i: usize, small: char) -> (b: bool)
    requires
        i < s@.len(),
        'a' <= small && small <= 'z',
    ensures
        b == is_letter(s@[i as int], small),
{
    let c = s.get_char(i);
    c == small || (c as u32) + 32 == small as u32
}

fn reads_as_special(s: &str, n: usize) -> (b: bool)
    requires
        n == s@.len(),
    ensures
        b == is_special(s@),
{
    if n == 3 && letter_at(s, 0, 'n') && letter_at(s, 1, 'a') && letter_at(s, 2, 'n') {
        return true;
    }
    if n != 3 && n != 8 {
        return false;
    }
    if !(letter_at(s, 0, 'i') && letter_at(s, 1, 'n') && letter_at(s, 2, 'f')) {
        return false;
    }
    n == 3 || (letter_at(s, 3, 'i') && letter_at(s, 4, 'n') && letter_at(s, 5, 'i') && letter_at(
        s,
        6,
        't',
    ) && letter_at(s, 7, 'y'))
}

fn scan_digits(s: &str, n: usize, from: usize) -> (to: usize)
    requires
        n == s@.len(),
        from <= n,
    ensures
        from <= to <= n,
        to == digits_end(s@, from as int),
{
    let mut i = from;
    while i < n && is_digit_char(s.get_char(i))
        invariant
            from <= i <= n,
            n == s@.len(),
            digits_end(s@, from as int) == digits_end(s@, i as int),
        decreases n - i,
    {
        i += 1;
    }
    i
}

fn is_digit_char(c: char) -> (b: bool)
    ensures
        b == is_digit(c),
{
    '0' <= c && c <= '9'
}

fn reads_as_decimal(s: &str, n: usize) -> (b: bool)
    requires
        n == s@.len(),
    ensures
        b == is_decimal(s@),
{
    let whole = scan_digits(s, n, 0);
    let point = whole < n && s.get_char(whole) == '.';
    let mantissa = if point {
        scan_digits(s, n, whole + 1)
    } else {
        whole
    };
    let digits = if point {
        mantissa - 1
    } else {
        mantissa
    };
    if digits == 0 {
        return false;
    }
    if mantissa == n {
        return true;
    }
    if !letter_at(s, mantissa, 'e') {
        return false;
    }
    let signed = mantissa + 1 < n && (s.get_char(mantissa + 1) == '+' || s.get_char(mantissa + 1)
        == '-');
    let exponent = if signed {
        mantissa + 2
    } else {
        mantissa + 1
    };
    exponent < n && scan_digits(s, n, exponent) == n
}

/// Whether `s` can be read as a number, every character of it counted: a sign
/// or none, then a decimal number with or without an exponent, or one of the
/// words `inf`, `infinity` and `nan` in any mix of cases.
pub fn reads_as_number(s: &str) -> (b: bool)
    ensures
        b == is_number_literal(s@),
{
    let n = s.unicode_len();
    let body = if n > 0 && (s.get_char(0) == '+' || s.get_char(0) == '-') {
        s.substring_char(1, n)
    } else {
        s
    };
    let m = body.unicode_len();
    reads_as_special(body, m) || reads_as_decimal(body, m)
}

} // verus!
