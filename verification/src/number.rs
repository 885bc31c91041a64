//! Decimal numbers in text.

use vstd::prelude::*;

verus! {

/// The character is a decimal digit.
pub open spec fn is_digit(c: char) -> bool {
    '0' <= c <= '9'
}

/// The number that a run of digits stands for.
pub open spec fn value(digits: Seq<char>) -> nat
    decreases digits.len(),
{
    if digits.len() == 0 {
        0
    } else {
        value(digits.drop_last()) * 10 + ((digits.last() as int - '0' as int) as nat)
    }
}

/// The digits of a number without its leading plus sign.
pub open spec fn unsigned(s: Seq<char>) -> Seq<char> {
    if s.len() > 0 && s[0] == '+' {
        s.drop_first()
    } else {
        s
    }
}

/// The number, no larger than `max`, that a text stands for: one or more digits,
/// after an optional plus sign.
pub open spec fn decimal(s: Seq<char>, max: nat) -> Option<nat> {
    let digits = unsigned(s);
    if digits.len() > 0 && (forall|i: int| 0 <= i < digits.len() ==> is_digit(#[trigger] digits[i]))
        && value(digits) <= max {
        Some(value(digits))
    } else {
        None
    }
}

/// The number, if it fits in a `u64`, that a text stands for.
pub open spec fn decimal_u64(s: Seq<char>) -> Option<u64> {
    match decimal(s, u64::MAX as nat) {
        Some(n) => Some(n as u64),
        None => None,
    }
}

/// The number, if it fits in a `usize`, that a text stands for.
pub open spec fn decimal_usize(s: Seq<char>) -> Option<usize> {
    match decimal(s, usize::MAX as nat) {
        Some(n) => Some(n as usize),
        None => None,
    }
}

/// The decimal text of a number: no sign, no leading zero.
pub open spec fn decimal_text(n: nat) -> Seq<char>
    decreases n,
{
    let last = ('0' as int + n % 10) as char;
    if n < 10 {
        seq![last]
    } else {
        decimal_text(n / 10).push(last)
    }
}

proof fn value_grows(digits: Seq<char>, i: int)
    requires
        0 <= i <= digits.len(),
    ensures
        value(digits.take(i)) <= value(digits),
    decreases digits.len() - i,
{
    if i < digits.len() {
        value_grows(digits, i + 1);
        assert(digits.take(i + 1).drop_last() =~= digits.take(i));
    } else {
        assert(digits.take(i) =~= digits);
    }
}

proof fn decimal_text_digits(n: nat)
    ensures
        decimal_text(n).len() > 0,
        forall|i: int| 0 <= i < decimal_text(n).len() ==> is_digit(#[trigger] decimal_text(n)[i]),
        value(decimal_text(n)) == n,
    decreases n,
{
    let last = ('0' as int + n % 10) as char;
    if n < 10 {
        assert(decimal_text(n).drop_last() =~= Seq::empty());
        assert(value(Seq::empty()) == 0);
    } else {
        decimal_text_digits(n / 10);
        assert(decimal_text(n).drop_last() =~= decimal_text(n / 10));
    }
}

/// Reading back the decimal text of a number gives the number.
pub proof fn decimal_round_trip(n: nat, max: nat)
    requires
        n <= max,
    ensures
        decimal(decimal_text(n), max) == Some(n),
{
    decimal_text_digits(n);
    assert(is_digit(decimal_text(n)[0]));
}

/// The decimal text of a number holds digits only.
pub proof fn decimal_text_is_digits(n: nat)
    ensures
        decimal_text(n).len() > 0,
        forall|i: int| 0 <= i < decimal_text(n).len() ==> is_digit(#[trigger] decimal_text(n)[i]),
{
    decimal_text_digits(n);
}

/// Reads a number of type `u64`.
pub fn parse_u64(s: &[char]) -> (r: Option<u64>)
    ensures
        r == decimal_u64(s@),
{
    let mut i: usize = if s.len() > 0 && s[0] == '+' {
        1
    } else {
        0
    };
    let ghost digits = unsigned(s@);
    let ghost start = i as int;
    assert(digits =~= s@.skip(start));
    if i == s.len() {
        return None;
    }
    let mut n: u64 = 0;
    assert(digits.take(0) =~= Seq::empty());
    while i < s.len()
        invariant
            0 <= start <= i <= s.len(),
            start < s.len(),
            digits == s@.skip(start),
            digits == unsigned(s@),
            forall|j: int| 0 <= j < i - start ==> is_digit(#[trigger] digits[j]),
            n == value(digits.take(i - start)),
        decreases s.len() - i,
    {
        let c = s[i];
        assert(c == digits[i - start]);
        if c < '0' || '9' < c {
            assert(!is_digit(digits[i - start]));
            return None;
        }
        let d: u64 = c as u64 - 48;
        proof {
            value_grows(digits, i + 1 - start);
            assert(digits.take(i + 1 - start).drop_last() =~= digits.take(i - start));
        }
        if n > u64::MAX / 10 || n * 10 > u64::MAX - d {
            return None;
        }
        n = n * 10 + d;
        i += 1;
    }
    assert(digits.take(i - start) =~= digits);
    Some(n)
}

/// Reads a number of type `usize`.
pub fn parse_usize(s: &[char]) -> (r: Option<usize>)
    ensures
        r == decimal_usize(s@),
{
    match parse_u64(s) {
        Some(n) => if n <= usize::MAX as u64 {
            Some(n as usize)
        } else {
            None
        },
        None => None,
    }
}

/// Writes a number.
pub fn write_u64(n: u64) -> (r: String)
    ensures
        r@ == decimal_text(n as nat),
    decreases n,
{
    let last = (48 + (n % 10) as u8) as char;
    let mut r = if n < 10 {
        String::new()
    } else {
        write_u64(n / 10)
    };
    r.push(last);
    r
}

} // verus!
