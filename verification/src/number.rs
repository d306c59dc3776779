//! Decimal numbers in text.

use vstd::prelude::*;
use vstd::slice::*;

use crate::text::chars_of;

verus! {

/// The character of a digit.
pub open spec fn digit_char(d: nat) -> char
    recommends
        d < 10,
{
    ('0' as u32 + d) as char
}

/// A number in decimal digits, without leading zeros.
pub open spec fn decimal(n: nat) -> Seq<char>
    decreases n,
{
    if n < 10 {
        seq![digit_char(n)]
    } else {
        decimal(n / 10).push(digit_char(n % 10))
    }
}

/// Whether a character is a decimal digit.
pub open spec fn is_digit(c: char) -> bool {
    '0' <= c <= '9'
}

/// Whether a text is made of at least one digit and nothing else.
pub open spec fn is_digits(s: Seq<char>) -> bool {
    s.len() > 0 && forall|i: int| 0 <= i < s.len() ==> is_digit(#[trigger] s[i])
}

/// The number that some digits stand for.
pub open spec fn digits_value(s: Seq<char>) -> nat
    decreases s.len(),
{
    if s.len() == 0 {
        0
    } else {
        (digits_value(s.drop_last()) * 10 + (s.last() as u32 - '0' as u32)) as nat
    }
}

/// The number that a text stands for: digits, with or without a plus sign before them, whose
/// value is at most `max`.
pub open spec fn parsed(s: Seq<char>, max: nat) -> Option<nat> {
    let digits = if s.len() > 0 && s[0] == '+' {
        s.drop_first()
    } else {
        s
    };
    if is_digits(digits) && digits_value(digits) <= max {
        Some(digits_value(digits))
    } else {
        None
    }
}

proof fn lemma_digits_value_grows(s: Seq<char>, i: int)
    requires
        is_digits(s),
        0 <= i <= s.len(),
    ensures
        digits_value(s.take(i)) <= digits_value(s),
    decreases s.len() - i,
{
    if i < s.len() {
        lemma_digits_value_grows(s, i + 1);
        assert(s.take(i + 1).drop_last() =~= s.take(i));
        assert(is_digit(s[i]));
    } else {
        assert(s.take(i) =~= s);
    }
}

/// Reads a `u32` from decimal digits.
pub fn parse_u32(s: &str) -> (res: Option<u32>)
    ensures
        parsed(s@, u32::MAX as nat) == (match res {
            Some(n) => Some(n as nat),
            None => None,
        }),
{
    let chars = chars_of(s);
    let start: usize = if chars.len() > 0 && chars[0] == '+' {
        1
    } else {
        0
    };
    let digits = slice_subrange(chars.as_slice(), start, chars.len());
    proof {
        if start == 1 {
            assert(digits@ =~= s@.drop_first());
        } else {
            assert(digits@ =~= s@);
        }
    }
    if digits.len() == 0 {
        return None;
    }
    let mut n: u64 = 0;
    let mut i: usize = 0;
    while i < digits.len()
        invariant
            i <= digits@.len(),
            n <= u32::MAX,
            n == digits_value(digits@.take(i as int)),
            digits@.len() > 0,
            digits@ == (if s@.len() > 0 && s@[0] == '+' {
                s@.drop_first()
            } else {
                s@
            }),
            forall|j: int| 0 <= j < i ==> is_digit(#[trigger] digits@[j]),
        decreases digits@.len() - i,
    {
        let c = digits[i];
        if c < '0' || c > '9' {
            assert(!is_digit(digits@[i as int]));
            return None;
        }
        assert(digits@.take(i as int + 1).drop_last() =~= digits@.take(i as int));
        n = n * 10 + (c as u32 - '0' as u32) as u64;
        if n > u32::MAX as u64 {
            proof {
                if is_digits(digits@) {
                    lemma_digits_value_grows(digits@, i as int + 1);
                }
            }
            return None;
        }
        i += 1;
    }
    assert(digits@.take(i as int) =~= digits@);
    Some(n as u32)
}

/// A number in decimal digits.
pub fn to_decimal(n: u64) -> (res: String)
    ensures
        res@ == decimal(n as nat),
{
    // The digits from the last to the first.
    let mut backward: Vec<char> = Vec::new();
    let mut rest: u64 = n;
    while rest >= 10
        invariant
            decimal(n as nat) == decimal(rest as nat) + backward@.reverse(),
        decreases rest,
    {
        let c = digit((rest % 10) as u8);
        proof {
            let d = decimal((rest / 10) as nat);
            assert(backward@.push(c).reverse() =~= seq![c] + backward@.reverse());
            assert(d.push(c) + backward@.reverse() =~= d + backward@.push(c).reverse());
        }
        backward.push(c);
        rest = rest / 10;
    }
    backward.push(digit(rest as u8));
    let mut res = String::new();
    let mut i: usize = backward.len();
    while i > 0
        invariant
            i <= backward@.len(),
            res@ == backward@.reverse().take(backward@.len() - i),
        decreases i,
    {
        i -= 1;
        res.push(backward[i]);
        assert(res@ =~= backward@.reverse().take(backward@.len() - i));
    }
    proof {
        let all = backward@.reverse();
        assert(all.take(all.len() as int) =~= all);
        assert(all =~= decimal(n as nat));
    }
    res
}

fn digit(d: u8) -> (c: char)
    requires
        d < 10,
    ensures
        c == digit_char(d as nat),
{
    ('0' as u8 + d) as char
}

/// Reading the decimal digits of a number gives the number back.
pub proof fn law_decimal_reads_back(n: nat)
    ensures
        is_digits(decimal(n)),
        digits_value(decimal(n)) == n,
        decimal(n)[0] != '+',
    decreases n,
{
    if n < 10 {
        assert(decimal(n).drop_last().len() == 0);
        assert(digits_value(decimal(n).drop_last()) == 0);
    } else {
        law_decimal_reads_back(n / 10);
        let d = decimal(n / 10);
        assert(decimal(n).drop_last() =~= d);
        assert forall|i: int| 0 <= i < decimal(n).len() implies is_digit(#[trigger] decimal(n)[i]) by {
            if i < d.len() {
                assert(is_digit(d[i]));
            }
        }
        assert(decimal(n)[0] == d[0]);
    }
}

/// A number is read exactly from its digits, with or without zeros or a plus sign before them, where it is
/// not too large.
pub proof fn law_parsed(n: nat, max: nat)
    ensures
        parsed(decimal(n), max) == (if n <= max {
            Some(n)
        } else {
            None
        }),
        parsed(seq!['+'] + decimal(n), max) == parsed(decimal(n), max),
        parsed(seq!['0'] + decimal(n), max) == parsed(decimal(n), max),
{
    law_decimal_reads_back(n);
    let d = decimal(n);
    assert((seq!['+'] + d).drop_first() =~= d);
    let z = seq!['0'] + d;
    lemma_leading_zero(d);
    assert forall|i: int| 0 <= i < z.len() implies is_digit(#[trigger] z[i]) by {
        if i > 0 {
            assert(z[i] == d[i - 1]);
        }
    }
}

proof fn lemma_leading_zero(s: Seq<char>)
    ensures
        digits_value(seq!['0'] + s) == digits_value(s),
    decreases s.len(),
{
    let z = seq!['0'] + s;
    if s.len() == 0 {
        assert(z =~= seq!['0']);
        assert(z.drop_last() =~= Seq::empty());
        assert(digits_value(z.drop_last()) == 0);
    } else {
        assert(z.drop_last() =~= seq!['0'] + s.drop_last());
        lemma_leading_zero(s.drop_last());
    }
}

/// A text that has anything but digits, beyond a plus sign before them, is no number.
pub proof fn law_only_digits_are_parsed(s: Seq<char>, i: int, max: nat)
    requires
        0 <= i < s.len(),
        !('0' <= s[i] <= '9'),
        i > 0 || s[i] != '+' || s.len() == 1,
    ensures
        parsed(s, max) is None,
{
    if s[0] == '+' {
        if i > 0 {
            assert(s.drop_first()[i - 1] == s[i]);
            assert(!is_digit(s.drop_first()[i - 1]));
        }
    } else {
        assert(!is_digit(s[i]));
    }
}

} // verus!
