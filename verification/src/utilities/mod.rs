//! Helpers shared by the game's rules: reading a menu choice, comparing
//! names, and the filling of a progress bar.

use vstd::prelude::*;
use vstd::string::StringExecFns;

pub mod math;
pub mod wide;

verus! {

/// Whether the character is a decimal digit.
pub open spec fn is_digit(c: char) -> bool {
    '0' <= c <= '9'
}

/// Whether the sequence is made of decimal digits only.
pub open spec fn all_digits(s: Seq<char>) -> bool {
    forall|i: int| 0 <= i < s.len() ==> is_digit(#[trigger] s[i])
}

/// The number that a sequence of decimal digits writes.
pub open spec fn decimal_value(s: Seq<char>) -> nat
    decreases s.len(),
{
    if s.len() == 0 {
        0
    } else {
        10 * decimal_value(s.drop_last()) + (s.last() as nat - '0' as nat) as nat
    }
}

/// The input without a leading plus sign.
pub open spec fn unsigned(s: Seq<char>) -> Seq<char> {
    if s.len() > 0 && s[0] == '+' {
        s.skip(1)
    } else {
        s
    }
}

/// The position that an input selects in a list of `range` entries shown
/// from 1 on: the input is a decimal number, with or without a plus sign
/// before it, between 1 and `range`, and the position is one less.
pub open spec fn selected(s: Seq<char>, range: usize) -> Option<usize> {
    let digits = unsigned(s);
    if digits.len() > 0 && all_digits(digits) && 1 <= decimal_value(digits) <= range {
        Some((decimal_value(digits) - 1) as usize)
    } else {
        None
    }
}

/// A number is at least the number that the first of its digits write.
pub proof fn lemma_decimal_prefix(s: Seq<char>, k: int)
    requires
        0 <= k <= s.len(),
        all_digits(s),
    ensures
        decimal_value(s.take(k)) <= decimal_value(s),
    decreases s.len() - k,
{
    if k == s.len() {
        assert(s.take(k) == s);
    } else {
        lemma_decimal_prefix(s, k + 1);
        assert(s.take(k + 1).drop_last() == s.take(k));
        assert(is_digit(s[k]));
    }
}

/// Reads a choice from a list of `range` entries that is shown numbered
/// from 1: gives the position chosen, counted from 0, or `None` where the
/// input is no number of the list.
pub fn indexize(s: &str, range: usize) -> (r: Option<usize>)
    ensures
        r == selected(s@, range),
{
    let n = s.unicode_len();
    let start: usize = if n > 0 && s.get_char(0) == '+' {
        1
    } else {
        0
    };
    let ghost digits = unsigned(s@);
    if start == n {
        return None;
    }
    let mut value: usize = 0;
    let mut i: usize = start;
    while i < n
        invariant
            start <= i <= n,
            n == s@.len(),
            digits == s@.skip(start as int),
            digits == unsigned(s@),
            all_digits(digits.take(i - start)),
            value == decimal_value(digits.take(i - start)),
            value <= range,
        decreases n - i,
    {
        let c = s.get_char(i);
        let ghost k = i - start;
        assert(digits[k] == c);
        assert(digits.take(k + 1).drop_last() == digits.take(k));
        if !('0' <= c && c <= '9') {
            return None;
        }
        let digit: usize = (c as u32 - '0' as u32) as usize;
        if digit > range || value > (range - digit) / 10 {
            proof {
                if all_digits(digits) {
                    lemma_decimal_prefix(digits, k + 1);
                }
            }
            return None;
        }
        value = value * 10 + digit;
        i += 1;
    }
    assert(digits.take(i - start) == digits);
    if value >= 1 {
        Some(value - 1)
    } else {
        None
    }
}

/// How many segments of a bar of `segs` segments are filled when `current`
/// of `max` is reached: one for each full share of `max / segs`, and no
/// more than there are.
pub open spec fn filled(current: u16, max: u16, segs: u16) -> int {
    let share = max / segs;
    let full = current / share;
    if full >= segs {
        segs as int
    } else {
        full as int
    }
}

/// The inside of a progress bar: a `=` for each filled segment, then blanks.
pub open spec fn bar(current: u16, max: u16, segs: u16) -> Seq<char> {
    Seq::new(
        segs as nat,
        |i: int|
            if i < filled(current, max, segs) {
                '='
            } else {
                ' '
            },
    )
}

/// Draws the inside of a progress bar of `segs` segments for `current` of `max`.
pub fn progress_bar(current: u16, max: u16, segs: u16) -> (r: String)
    requires
        segs > 0,
        max >= segs,
    ensures
        r@ == bar(current, max, segs),
{
    let to_eq: u16 = max / segs;
    assert(max as int / segs as int >= 1) by (nonlinear_arith)
        requires
            max >= segs,
            segs > 0,
    ;
    let full: u16 = current / to_eq;
    let curr_eq: u16 = if full >= segs {
        segs
    } else {
        full
    };
    let mut r = String::new();
    let mut i: u16 = 0;
    proof {
        reveal_strlit("=");
        reveal_strlit(" ");
    }
    while i < segs
        invariant
            i <= segs,
            curr_eq == filled(current, max, segs),
            r@ == bar(current, max, segs).take(i as int),
            "="@ == seq!['='],
            " "@ == seq![' '],
        decreases segs - i,
    {
        if i < curr_eq {
            r.append("=");
        } else {
            r.append(" ");
        }
        i += 1;
    }
    r
}

/// Whether two strings hold the same text.
pub fn same_text(a: &str, b: &str) -> (r: bool)
    ensures
        r == (a@ == b@),
{
    let left: String = a.to_owned();
    let right: String = b.to_owned();
    left == right
}

/// The character with a capital letter of the basic alphabet made small.
pub open spec fn ascii_lower(c: char) -> char {
    if 'A' <= c <= 'Z' {
        ((c as u32) + 32) as char
    } else {
        c
    }
}

/// Two sequences are alike but for the case of letters of the basic alphabet.
pub open spec fn same_ignoring_case(a: Seq<char>, b: Seq<char>) -> bool {
    &&& a.len() == b.len()
    &&& forall|i: int| 0 <= i < a.len() ==> ascii_lower(#[trigger] a[i]) == ascii_lower(b[i])
}

/// Whether two strings are alike but for the case of letters of the basic alphabet.
pub fn eq_ignore_ascii_case(a: &str, b: &str) -> (r: bool)
    ensures
        r == same_ignoring_case(a@, b@),
{
    let n = a.unicode_len();
    if n != b.unicode_len() {
        return false;
    }
    let mut i: usize = 0;
    while i < n
        invariant
            i <= n,
            n == a@.len(),
            n == b@.len(),
            forall|j: int| 0 <= j < i ==> ascii_lower(#[trigger] a@[j]) == ascii_lower(b@[j]),
        decreases n - i,
    {
        let x = a.get_char(i);
        let y = b.get_char(i);
        let x_upper: bool = 'A' <= x && x <= 'Z';
        let y_upper: bool = 'A' <= y && y <= 'Z';
        let alike: bool = x == y || (x_upper && !y_upper && x as u32 + 32 == y as u32) || (y_upper
            && !x_upper && y as u32 + 32 == x as u32);
        if !alike {
            assert(ascii_lower(a@[i as int]) != ascii_lower(b@[i as int]));
            return false;
        }
        i += 1;
    }
    true
}

} // verus!
