//! Decimal numerals: what a run of digits is worth, and how it is read.

use vstd::prelude::*;

verus! {

/// `c` is one of `0`..`9`.
pub open spec fn is_digit(c: char) -> bool {
    '0' <= c && c <= '9'
}

/// The worth of a single digit.
pub open spec fn digit_value(c: char) -> nat
    recommends
        is_digit(c),
{
    (c as int - '0' as int) as nat
}

/// The character that writes the one-digit number `n`.
pub open spec fn digit_char(n: int) -> char
    recommends
        0 <= n < 10,
{
    ('0' as int + n) as char
}

/// Every character of `s` is a digit.
pub open spec fn all_digits(s: Seq<char>) -> bool {
    forall|i: int| 0 <= i < s.len() ==> is_digit(#[trigger] s[i])
}

/// The number that `digits` writes in base ten; leading zeros count for nothing,
/// and the empty run is worth zero.
pub open spec fn decimal_value(digits: Seq<char>) -> nat
    decreases digits.len(),
{
    if digits.len() == 0 {
        0
    } else {
        10 * decimal_value(digits.drop_last()) + digit_value(digits.last())
    }
}

/// Where the run of digits that starts at `from` ends: the first index at or
/// after `from` that holds no digit, or the length of `s`.
pub open spec fn digits_end(s: Seq<char>, from: int) -> int
    decreases s.len() - from,
{
    if 0 <= from < s.len() && is_digit(s[from]) {
        digits_end(s, from + 1)
    } else {
        from
    }
}

/// The end of a run is pinned by what stands in it and behind it.
pub proof fn lemma_digits_end_is(s: Seq<char>, from: int, end: int)
    requires
        0 <= from <= end <= s.len(),
        all_digits(s.subrange(from, end)),
        end == s.len() || !is_digit(s[end]),
    ensures
        digits_end(s, from) == end,
    decreases end - from,
{
    if from < end {
        assert(s[from] == s.subrange(from, end)[0]);
        assert forall|i: int| 0 <= i < end - from - 1 implies is_digit(
            #[trigger] s.subrange(from + 1, end)[i],
        ) by {
            assert(s.subrange(from + 1, end)[i] == s.subrange(from, end)[i + 1]);
        }
        lemma_digits_end_is(s, from + 1, end);
    }
}

/// The run that `digits_end` closes holds digits only, and stops at the first
/// character that is none.
pub proof fn lemma_digits_end_bounds(s: Seq<char>, from: int)
    requires
        0 <= from <= s.len(),
    ensures
        from <= digits_end(s, from) <= s.len(),
        all_digits(s.subrange(from, digits_end(s, from))),
        digits_end(s, from) == s.len() || !is_digit(s[digits_end(s, from)]),
        from < s.len() && is_digit(s[from]) ==> from < digits_end(s, from),
    decreases s.len() - from,
{
    if from < s.len() && is_digit(s[from]) {
        lemma_digits_end_bounds(s, from + 1);
        let end = digits_end(s, from);
        assert forall|i: int| 0 <= i < end - from implies is_digit(
            #[trigger] s.subrange(from, end)[i],
        ) by {
            if i > 0 {
                assert(s.subrange(from, end)[i] == s.subrange(from + 1, end)[i - 1]);
            }
        }
    }
}

/// Whether `c` is a decimal digit.
pub fn is_decimal_digit(c: char) -> (r: bool)
    ensures
        r == is_digit(c),
{
    '0' <= c && c <= '9'
}

/// The character that writes `n`, if `n` is a number of one digit.
pub fn digit_to_char(n: usize) -> (c: Option<char>)
    ensures
        c == if n < 10 {
            Some(digit_char(n as int))
        } else {
            None
        },
{
    if n == 0 {
        Some('0')
    } else if n == 1 {
        Some('1')
    } else if n == 2 {
        Some('2')
    } else if n == 3 {
        Some('3')
    } else if n == 4 {
        Some('4')
    } else if n == 5 {
        Some('5')
    } else if n == 6 {
        Some('6')
    } else if n == 7 {
        Some('7')
    } else if n == 8 {
        Some('8')
    } else if n == 9 {
        Some('9')
    } else {
        None
    }
}

/// Reads the digits of `chars` from `from` on, up to the first character that
/// is no digit or up to `to`. Gives the index where the run ends and what the
/// run is worth, `None` where that is more than a `usize` holds.
pub fn read_digits(chars: &Vec<char>, from: usize, to: usize) -> (r: (usize, Option<usize>))
    requires
        from <= to <= chars.len(),
    ensures
        from <= r.0 <= to,
        all_digits(chars@.subrange(from as int, r.0 as int)),
        r.0 == to || !is_digit(chars[r.0 as int]),
        match r.1 {
            Some(value) => value == decimal_value(chars@.subrange(from as int, r.0 as int)),
            None => decimal_value(chars@.subrange(from as int, r.0 as int)) > usize::MAX,
        },
{
    let mut end: usize = from;
    let mut value: Option<usize> = Some(0);
    while end < to && is_decimal_digit(chars[end])
        invariant
            from <= end <= to <= chars.len(),
            all_digits(chars@.subrange(from as int, end as int)),
            match value {
                Some(v) => v == decimal_value(chars@.subrange(from as int, end as int)),
                None => decimal_value(chars@.subrange(from as int, end as int)) > usize::MAX,
            },
        decreases to - end,
    {
        let digit: usize = (chars[end] as usize) - ('0' as usize);
        proof {
            let run = chars@.subrange(from as int, end as int + 1);
            assert(run.drop_last() =~= chars@.subrange(from as int, end as int));
            assert(run.last() == chars[end as int]);
            assert(digit == digit_value(chars[end as int]));
            assert(decimal_value(run) == 10 * decimal_value(run.drop_last()) + digit);
        }
        value =
        match value {
            Some(v) => match v.checked_mul(10) {
                Some(tens) => tens.checked_add(digit),
                None => None,
            },
            None => None,
        };
        end = end + 1;
    }
    (end, value)
}

} // verus!
