//! Integers written in decimal.
use vstd::prelude::*;

use crate::text::{chars_of, decimal, decimal_int, law_decimal, numeral};

verus! {

/// A decimal digit.
pub open spec fn is_digit(c: char) -> bool {
    '0' <= c <= '9'
}

/// Whether `c` is a decimal digit.
pub fn char_is_digit(c: char) -> (r: bool)
    ensures
        r == is_digit(c),
{
    '0' <= c && c <= '9'
}

/// One digit or more and nothing else.
pub open spec fn all_digits(s: Seq<char>) -> bool {
    s.len() > 0 && forall|i: int| 0 <= i < s.len() ==> is_digit(#[trigger] s[i])
}

/// The number that digits write.
pub open spec fn digits_value(s: Seq<char>) -> nat
    decreases s.len(),
{
    if s.len() == 0 {
        0
    } else {
        digits_value(s.drop_last()) * 10 + (s.last() as nat - '0' as nat) as nat
    }
}

/// Text after one sign.
pub open spec fn unsigned_part(s: Seq<char>) -> Seq<char> {
    if s.len() > 0 && (s[0] == '-' || s[0] == '+') {
        s.skip(1)
    } else {
        s
    }
}

/// The integer that a text writes: digits after at most one sign.
pub open spec fn int_value(s: Seq<char>) -> Option<int> {
    let d = unsigned_part(s);
    if !all_digits(d) {
        None
    } else if s[0] == '-' {
        Some(-(digits_value(d) as int))
    } else {
        Some(digits_value(d) as int)
    }
}

/// The integer that a text writes when it fits in 64 bits.
pub open spec fn i64_value(s: Seq<char>) -> Option<i64> {
    match int_value(s) {
        Some(v) => if i64::MIN <= v <= i64::MAX {
            Some(v as i64)
        } else {
            None
        },
        None => None,
    }
}

/// The number that the digits of `v` from `from` on write, when it is at
/// most 2^63.
fn magnitude(v: &Vec<char>, from: usize) -> (r: Option<u64>)
    requires
        from <= v@.len(),
    ensures
        match r {
            Some(n) => all_digits(v@.skip(from as int)) && n == digits_value(v@.skip(from as int))
                && n <= 9223372036854775808,
            None => !all_digits(v@.skip(from as int)) || digits_value(v@.skip(from as int))
                > 9223372036854775808,
        },
{
    let ghost s = v@.skip(from as int);
    let mut acc: u64 = 0;
    let mut big = false;
    let mut i: usize = from;
    proof {
        assert(s.take(0) =~= Seq::<char>::empty());
    }
    while i < v.len()
        invariant
            from <= i <= v@.len(),
            s == v@.skip(from as int),
            forall|k: int| 0 <= k < i - from ==> is_digit(#[trigger] s[k]),
            acc <= 9223372036854775808,
            !big ==> acc == digits_value(s.take(i - from)),
            big ==> digits_value(s.take(i - from)) > 9223372036854775808,
        decreases v.len() - i,
    {
        let c = v[i];
        if !char_is_digit(c) {
            proof {
                assert(!is_digit(s[i - from]));
            }
            return None;
        }
        proof {
            assert(s[i - from] == c);
            assert(s.take(i + 1 - from).drop_last() =~= s.take(i - from));
        }
        let d: u64 = (c as u32 - '0' as u32) as u64;
        if !big {
            if acc > 922337203685477580 || (acc == 922337203685477580 && d > 8) {
                big = true;
            } else {
                acc = acc * 10 + d;
            }
        }
        i = i + 1;
    }
    proof {
        assert(s.take(s.len() as int) =~= s);
    }
    if i == from || big {
        None
    } else {
        Some(acc)
    }
}

/// Reads an integer that fits in 64 bits.
pub fn parse_i64(text: &str) -> (r: Option<i64>)
    ensures
        r == i64_value(text@),
{
    let v = chars_of(text);
    let size: usize = v.len();
    if size == 0 {
        return None;
    }
    let negative = v[0] == '-';
    let from: usize = if negative || v[0] == '+' {
        1
    } else {
        0
    };
    proof {
        assert(v@.skip(from as int) =~= unsigned_part(text@));
    }
    match magnitude(&v, from) {
        Some(n) => {
            if negative {
                if n == 9223372036854775808 {
                    Some(i64::MIN)
                } else {
                    Some(-(n as i64))
                }
            } else if n <= 9223372036854775807 {
                Some(n as i64)
            } else {
                None
            }
        },
        None => None,
    }
}

/// A number written in decimal reads back, with or without a plus sign, where
/// it fits, and is refused where it does not.
pub proof fn law_parse_reads_decimal(v: int)
    ensures
        i64::MIN <= v <= i64::MAX ==> i64_value(decimal_int(v)) == Some(v as i64),
        i64::MIN <= v <= i64::MAX && v >= 0 ==> i64_value(seq!['+'] + decimal_int(v)) == Some(
            v as i64,
        ),
        !(i64::MIN <= v <= i64::MAX) ==> i64_value(decimal_int(v)) is None,
{
    let n = if v < 0 {
        (-v) as nat
    } else {
        v as nat
    };
    let d = decimal(n);
    law_decimal(n);
    lemma_same_value(d);
    assert(all_digits(d));
    assert(d[0] != '-' && d[0] != '+');
    let (m, p) = (seq!['-'] + d, seq!['+'] + d);
    assert(m.skip(1) =~= d);
    assert(p.skip(1) =~= d);
}

proof fn lemma_same_value(s: Seq<char>)
    requires
        forall|i: int| 0 <= i < s.len() ==> '0' <= #[trigger] s[i] <= '9',
    ensures
        digits_value(s) == numeral(s),
    decreases s.len(),
{
    if s.len() > 0 {
        lemma_same_value(s.drop_last());
    }
}

/// Only digits with one optional sign are a number.
pub proof fn law_parse_refuses_the_rest(s: Seq<char>)
    requires
        s.len() == 0 || exists|i: int|
            0 <= i < s.len() && !('0' <= #[trigger] s[i] <= '9') && (i > 0 || s.len() == 1 || (s[i]
                != '-' && s[i] != '+')),
    ensures
        i64_value(s) is None,
{
    if s.len() > 0 {
        let i = choose|i: int|
            0 <= i < s.len() && !('0' <= #[trigger] s[i] <= '9') && (i > 0 || s.len() == 1 || (s[i]
                != '-' && s[i] != '+'));
        let d = unsigned_part(s);
        if s[0] == '-' || s[0] == '+' {
            if i > 0 {
                assert(d[i - 1] == s[i]);
            }
        } else {
            assert(d[i] == s[i]);
        }
    }
}

} // verus!
