//! Decimal numbers in text.

use crate::text::chars_of;
use vstd::prelude::*;

verus! {

pub open spec fn is_digit(c: char) -> bool {
    '0' <= c <= '9'
}

pub open spec fn digit_value(c: char) -> nat {
    (c as int - '0' as int) as nat
}

pub open spec fn all_digits(s: Seq<char>) -> bool {
    forall|i: int| 0 <= i < s.len() ==> is_digit(#[trigger] s[i])
}

/// The number that a row of digits stands for.
pub open spec fn value_of(digits: Seq<char>) -> nat
    decreases digits.len(),
{
    if digits.len() == 0 {
        0
    } else {
        10 * value_of(digits.drop_last()) + digit_value(digits.last())
    }
}

/// `s` without a plus sign at its front.
pub open spec fn unsigned_part(s: Seq<char>) -> Seq<char> {
    if s.len() > 0 && s[0] == '+' {
        s.skip(1)
    } else {
        s
    }
}

/// The number that `s` stands for: at least one digit, with nothing but a plus sign before them
/// and nothing after them.
pub open spec fn parsed(s: Seq<char>) -> Option<nat> {
    let digits = unsigned_part(s);
    if digits.len() > 0 && all_digits(digits) {
        Some(value_of(digits))
    } else {
        None
    }
}

/// The number that `s` stands for, if it is at most `max`.
pub open spec fn parsed_up_to(s: Seq<char>, max: nat) -> Option<nat> {
    match parsed(s) {
        Some(n) => if n <= max {
            Some(n)
        } else {
            None
        },
        None => None,
    }
}

proof fn lemma_value_grows(digits: Seq<char>, n: int)
    requires
        0 <= n <= digits.len(),
    ensures
        value_of(digits.take(n)) <= value_of(digits),
    decreases digits.len(),
{
    if n < digits.len() {
        lemma_value_grows(digits.drop_last(), n);
        assert(digits.drop_last().take(n) =~= digits.take(n));
    } else {
        assert(digits.take(n) =~= digits);
    }
}

/// Reads `s` as a number of at most `max`.
pub fn parse_up_to(s: &str, max: u64) -> (res: Option<u64>)
    ensures
        match (res, parsed_up_to(s@, max as nat)) {
            (Some(a), Some(b)) => a == b,
            (None, None) => true,
            _ => false,
        },
{
    let chars = chars_of(s);
    let from: usize = if chars.len() > 0 && chars[0] == '+' {
        1
    } else {
        0
    };
    let ghost digits = unsigned_part(s@);
    assert(digits =~= s@.skip(from as int));
    if from == chars.len() {
        return None;
    }
    let mut n: u64 = 0;
    let mut i: usize = from;
    while i < chars.len()
        invariant
            from <= i <= chars@.len(),
            chars@ == s@,
            digits == s@.skip(from as int),
            digits == unsigned_part(s@),
            all_digits(digits.take(i - from)),
            n == value_of(digits.take(i - from)),
            n <= max,
        decreases chars@.len() - i,
    {
        let c = chars[i];
        assert(digits[i - from] == c);
        if c < '0' || c > '9' {
            return None;
        }
        let d: u64 = (c as u32 - '0' as u32) as u64;
        proof {
            let more = digits.take(i - from + 1);
            assert(more.drop_last() =~= digits.take(i - from));
            assert forall|k: int| 0 <= k < more.len() implies is_digit(#[trigger] more[k]) by {
                if k < i - from {
                    assert(more[k] == digits.take(i - from)[k]);
                }
            }
            lemma_value_grows(digits, i - from + 1);
        }
        if n > max / 10 || d > max - n * 10 {
            return None;
        }
        n = n * 10 + d;
        i = i + 1;
    }
    assert(digits.take(i - from) =~= digits);
    Some(n)
}

/// Reads `s` as a 32-bit number.
pub fn parse_u32(s: &str) -> (res: Option<u32>)
    ensures
        match (res, parsed_up_to(s@, u32::MAX as nat)) {
            (Some(a), Some(b)) => a == b,
            (None, None) => true,
            _ => false,
        },
{
    match parse_up_to(s, u32::MAX as u64) {
        Some(n) => Some(n as u32),
        None => None,
    }
}

/// Reads `s` as a 64-bit number.
pub fn parse_u64(s: &str) -> (res: Option<u64>)
    ensures
        match (res, parsed_up_to(s@, u64::MAX as nat)) {
            (Some(a), Some(b)) => a == b,
            (None, None) => true,
            _ => false,
        },
{
    parse_up_to(s, u64::MAX)
}

/// Reads `s` as a number of the machine's word size.
pub fn parse_usize(s: &str) -> (res: Option<usize>)
    ensures
        match (res, parsed_up_to(s@, usize::MAX as nat)) {
            (Some(a), Some(b)) => a == b,
            (None, None) => true,
            _ => false,
        },
{
    match parse_up_to(s, usize::MAX as u64) {
        Some(n) => Some(n as usize),
        None => None,
    }
}

pub open spec fn digit_char(d: nat) -> char {
    (d + '0' as int) as char
}

/// The digits of `n`, without leading zeros.
pub open spec fn digits_of(n: nat) -> Seq<char>
    decreases n,
{
    if n < 10 {
        seq![digit_char(n)]
    } else {
        digits_of(n / 10).push(digit_char(n % 10))
    }
}

/// Writes `n` in decimal.
pub fn render(n: u64) -> (res: String)
    ensures
        res@ == digits_of(n as nat),
    decreases n,
{
    let mut res = if n < 10 {
        String::new()
    } else {
        render(n / 10)
    };
    let ghost before = res@;
    res.push((48u8 + (n % 10) as u8) as char);
    proof {
        if n < 10 {
            assert(res@ =~= seq![digit_char(n as nat)]);
        }
    }
    res
}

proof fn lemma_digits(n: nat)
    ensures
        digits_of(n).len() > 0,
        all_digits(digits_of(n)),
        value_of(digits_of(n)) == n,
    decreases n,
{
    let s = digits_of(n);
    if n < 10 {
        assert(s.drop_last() =~= Seq::<char>::empty());
        assert(value_of(s.drop_last()) == 0);
    } else {
        lemma_digits(n / 10);
        assert(s.drop_last() =~= digits_of(n / 10));
        assert forall|i: int| 0 <= i < s.len() implies is_digit(#[trigger] s[i]) by {
            if i < s.len() - 1 {
                assert(s[i] == digits_of(n / 10)[i]);
            }
        }
    }
}

/// A number written in decimal reads back as itself.
pub proof fn law_render_parses_back(n: nat)
    ensures
        parsed(digits_of(n)) == Some(n),
        forall|i: int| 0 <= i < digits_of(n).len() ==> is_digit(#[trigger] digits_of(n)[i]),
{
    lemma_digits(n);
    assert(is_digit(digits_of(n)[0]));
}

/// A number is read digit by digit, with a plus sign allowed before it and nothing else anywhere.
pub proof fn law_numbers_are_read_digit_by_digit(s: Seq<char>, d: char)
    requires
        s.len() > 0,
        '0' <= d <= '9',
    ensures
        parsed(seq![d]) == Some((d as int - '0' as int) as nat),
        parsed(s) is Some ==> parsed(s.push(d)) == Some(
            (10 * parsed(s)->0 + (d as int - '0' as int)) as nat,
        ),
        s[0] != '+' ==> parsed(seq!['+'] + s) == parsed(s),
        parsed(Seq::empty()) is None,
        parsed(seq!['+']) is None,
{
    let none = Seq::<char>::empty();
    let one = seq![d];
    assert(one.drop_last() =~= none);
    assert(value_of(none) == 0);
    assert(value_of(one) == digit_value(d));
    assert(unsigned_part(one) == one);
    assert(all_digits(one));
    let more = s.push(d);
    assert(unsigned_part(more) =~= unsigned_part(s).push(d));
    let digits = unsigned_part(s);
    if parsed(s) is Some {
        assert(digits.push(d).drop_last() =~= digits);
        assert forall|i: int| 0 <= i < digits.push(d).len() implies is_digit(
            #[trigger] digits.push(d)[i],
        ) by {
            if i < digits.len() {
                assert(digits.push(d)[i] == digits[i]);
            }
        }
    }
    assert((seq!['+'] + s).skip(1) =~= s);
    assert(seq!['+'].skip(1) =~= none);
}

/// A character that is no digit spoils a number, unless it is a plus sign at the front.
pub proof fn law_other_characters_spoil_a_number(s: Seq<char>, i: int)
    requires
        0 <= i < s.len(),
        !('0' <= s[i] <= '9'),
        i > 0 || s[0] != '+',
    ensures
        parsed(s) is None,
{
    let digits = unsigned_part(s);
    if s[0] == '+' {
        assert(digits[i - 1] == s[i]);
    } else {
        assert(digits[i] == s[i]);
    }
}

/// A number is taken exactly if it is not above the limit.
pub proof fn law_numbers_above_the_limit_do_not_count(s: Seq<char>, max: nat)
    ensures
        parsed_up_to(s, max) is Some <==> parsed(s) is Some && parsed(s)->0 <= max,
        parsed_up_to(s, max) is Some ==> parsed_up_to(s, max) == parsed(s),
{
}

/// A number is written without leading zeros.
pub proof fn law_no_leading_zero(n: nat)
    ensures
        digits_of(n).len() > 0,
        n > 0 ==> digits_of(n)[0] != '0',
        n == 0 ==> digits_of(n) == seq!['0'],
    decreases n,
{
    if n >= 10 {
        law_no_leading_zero(n / 10);
        assert(digits_of(n)[0] == digits_of(n / 10)[0]);
    } else {
        lemma_digit_char(n);
        assert(digits_of(n) =~= seq![digit_char(n)]);
    }
}

proof fn lemma_digit_char(d: nat)
    requires
        d < 10,
    ensures
        digit_char(d) as int == d + '0' as int,
{
}

} // verus!
