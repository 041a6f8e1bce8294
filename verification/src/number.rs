//! Decimal numbers as they stand in attributes: what a string of digits denotes, and
//! readers for numbers that fit a `usize` or an `isize`.
use vstd::prelude::*;
use vstd::slice::slice_subrange;

verus! {

/// Whether `c` is one of the ten decimal digits.
pub open spec fn is_digit(c: char) -> bool {
    '0' <= c && c <= '9'
}

/// The number that the digit `c` stands for.
pub open spec fn digit_value(c: char) -> nat {
    (c as int - '0' as int) as nat
}

/// Whether `s` holds decimal digits and nothing else.
pub open spec fn all_digits(s: Seq<char>) -> bool {
    forall|i: int| 0 <= i < s.len() ==> is_digit(#[trigger] s[i])
}

/// The number that a string of decimal digits denotes; the empty string denotes 0.
pub open spec fn decimal_value(digits: Seq<char>) -> nat
    decreases digits.len(),
{
    if digits.len() == 0 {
        0
    } else {
        decimal_value(digits.drop_last()) * 10 + digit_value(digits.last())
    }
}

/// The number written in `s`: one or more decimal digits, which a single `+` may precede.
pub open spec fn unsigned_value(s: Seq<char>) -> Option<nat> {
    let digits = if s.len() > 0 && s[0] == '+' {
        s.skip(1)
    } else {
        s
    };
    if digits.len() > 0 && all_digits(digits) {
        Some(decimal_value(digits))
    } else {
        None
    }
}

/// The number written in `s`: one or more decimal digits, which a single `+` or `-` may precede.
pub open spec fn signed_value(s: Seq<char>) -> Option<int> {
    if s.len() > 0 && s[0] == '-' {
        let digits = s.skip(1);
        if digits.len() > 0 && all_digits(digits) {
            Some(-(decimal_value(digits) as int))
        } else {
            None
        }
    } else {
        match unsigned_value(s) {
            Some(n) => Some(n as int),
            None => None,
        }
    }
}

/// What `s` denotes as a `usize`: nothing where it is no number or the number does not fit.
pub open spec fn usize_of(s: Seq<char>) -> Option<usize> {
    match unsigned_value(s) {
        Some(n) => if n <= usize::MAX {
            Some(n as usize)
        } else {
            None
        },
        None => None,
    }
}

/// What `s` denotes as an `isize`: nothing where it is no number or the number does not fit.
pub open spec fn isize_of(s: Seq<char>) -> Option<isize> {
    match signed_value(s) {
        Some(n) => if isize::MIN <= n <= isize::MAX {
            Some(n as isize)
        } else {
            None
        },
        None => None,
    }
}

/// The digit that stands for `d`, a number below ten.
pub open spec fn digit_char(d: nat) -> char {
    ('0' as int + d) as char
}

/// The decimal digits of `n`, without leading zeros.
pub open spec fn decimal_text(n: nat) -> Seq<char>
    decreases n,
{
    if n < 10 {
        seq![digit_char(n)]
    } else {
        decimal_text(n / 10).push(digit_char(n % 10))
    }
}

/// The decimal digits of a number are digits, at least one, and denote the number.
pub proof fn lemma_decimal_text(n: nat)
    ensures
        decimal_text(n).len() > 0,
        all_digits(decimal_text(n)),
        decimal_value(decimal_text(n)) == n,
    decreases n,
{
    let t = decimal_text(n);
    if n < 10 {
        assert(t.drop_last() =~= Seq::<char>::empty());
        assert(decimal_value(t.drop_last()) == 0);
        assert(digit_value(digit_char(n)) == n);
    } else {
        lemma_decimal_text(n / 10);
        assert(t.drop_last() =~= decimal_text(n / 10));
        assert(digit_value(digit_char(n % 10)) == n % 10);
        assert forall|i: int| 0 <= i < t.len() implies is_digit(#[trigger] t[i]) by {
            if i < t.len() - 1 {
                assert(t[i] == decimal_text(n / 10)[i]);
            }
        }
    }
}

/// Written in decimal digits, a number that fits a `usize` is read back as itself.
pub proof fn lemma_usize_of_decimal_text(n: nat)
    requires
        n <= usize::MAX,
    ensures
        usize_of(decimal_text(n)) == Some(n as usize),
{
    lemma_decimal_text(n);
    assert(is_digit(decimal_text(n)[0]));
}

/// Dropping digits from the right end never makes the number larger.
pub proof fn lemma_decimal_value_prefix(digits: Seq<char>, k: int)
    requires
        0 <= k <= digits.len(),
    ensures
        decimal_value(digits.take(k)) <= decimal_value(digits),
    decreases digits.len(),
{
    if k == digits.len() {
        assert(digits.take(k) =~= digits);
    } else {
        lemma_decimal_value_prefix(digits.drop_last(), k);
        assert(digits.drop_last().take(k) =~= digits.take(k));
    }
}

/// What a string of decimal digits denotes as a `usize`: nothing where another
/// character stands in it or the number does not fit. No digits denote 0.
pub open spec fn digits_value(digits: Seq<char>) -> Option<usize> {
    if all_digits(digits) && decimal_value(digits) <= usize::MAX {
        Some(decimal_value(digits) as usize)
    } else {
        None
    }
}

/// Reads a string of decimal digits as a number that fits a `usize`.
pub fn parse_digits(chars: &[char]) -> (r: Option<usize>)
    ensures
        r == digits_value(chars@),
{
    let mut acc: usize = 0;
    let mut i: usize = 0;
    while i < chars.len()
        invariant
            i <= chars@.len(),
            all_digits(chars@.take(i as int)),
            acc == decimal_value(chars@.take(i as int)),
        decreases chars.len() - i,
    {
        let c = chars[i];
        if !(c >= '0' && c <= '9') {
            return None;
        }
        let d: usize = (c as u32 - '0' as u32) as usize;
        assert(chars@.take(i + 1).drop_last() =~= chars@.take(i as int));
        assert(chars@.take(i + 1).last() == c);
        if acc > (usize::MAX - d) / 10 {
            proof {
                lemma_decimal_value_prefix(chars@, i + 1);
            }
            return None;
        }
        acc = acc * 10 + d;
        i += 1;
    }
    assert(chars@.take(i as int) =~= chars@);
    Some(acc)
}

/// Reads an unsigned decimal number that fits a `usize`.
pub fn parse_usize(chars: &[char]) -> (r: Option<usize>)
    ensures
        r == usize_of(chars@),
{
    let start: usize = if chars.len() > 0 && chars[0] == '+' {
        1
    } else {
        0
    };
    if start == chars.len() {
        return None;
    }
    let digits = slice_subrange(chars, start, chars.len());
    assert(digits@ =~= chars@.skip(start as int));
    assert(chars@.skip(0) =~= chars@);
    parse_digits(digits)
}

/// Reads a signed decimal number that fits an `isize`.
pub fn parse_isize(chars: &[char]) -> (r: Option<isize>)
    ensures
        r == isize_of(chars@),
{
    if chars.len() > 0 && chars[0] == '-' {
        if chars.len() == 1 {
            return None;
        }
        let digits = slice_subrange(chars, 1, chars.len());
        assert(digits@ =~= chars@.skip(1));
        match parse_digits(digits) {
            Some(m) => {
                if m <= isize::MAX as usize {
                    Some(-(m as isize))
                } else if m - 1 == isize::MAX as usize {
                    Some(isize::MIN)
                } else {
                    None
                }
            },
            None => None,
        }
    } else {
        match parse_usize(chars) {
            Some(m) => {
                if m <= isize::MAX as usize {
                    Some(m as isize)
                } else {
                    None
                }
            },
            None => None,
        }
    }
}

} // verus!
