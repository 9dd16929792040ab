//! Decimal integer literals of a fixed width and signedness.
use vstd::prelude::*;
use crate::bytes::{pow256, lemma_pow256_positive};

verus! {

pub open spec fn is_digit(c: char) -> bool {
    '0' <= c <= '9'
}

/// The number that a sequence of decimal digits spells.
pub open spec fn digits_value(d: Seq<char>) -> nat
    decreases d.len(),
{
    if d.len() == 0 {
        0
    } else {
        10 * digits_value(d.drop_last()) + (d.last() as int - '0' as int) as nat
    }
}

/// Whether `v` is a value of the integer type of `n` bytes and this signedness.
pub open spec fn fits(v: int, n: nat, signed: bool) -> bool {
    if signed {
        -pow256(n) <= 2 * v < pow256(n)
    } else {
        0 <= v < pow256(n)
    }
}

/// A literal split into whether it is negated and the digits that follow its sign.
pub open spec fn split_sign(s: Seq<char>, signed: bool) -> (bool, Seq<char>) {
    if s.len() >= 1 && s[0] == '+' {
        (false, s.drop_first())
    } else if s.len() >= 1 && s[0] == '-' && signed {
        (true, s.drop_first())
    } else {
        (false, s)
    }
}

/// The value of an integer literal of `n` bytes: an optional `+` (or `-` when
/// signed), then one or more decimal digits, and a value that fits the type.
pub open spec fn parse_int(s: Seq<char>, n: nat, signed: bool) -> Option<int> {
    let (neg, d) = split_sign(s, signed);
    if d.len() == 0 || !(forall|i: int| 0 <= i < d.len() ==> is_digit(#[trigger] d[i])) {
        None
    } else {
        let v = if neg {
            -digits_value(d)
        } else {
            digits_value(d) as int
        };
        if fits(v, n, signed) {
            Some(v)
        } else {
            None
        }
    }
}

/// `256` raised to the power `n`, for the widths of integer types.
pub fn modulus(n: usize) -> (r: u128)
    requires
        n == 1 || n == 2 || n == 4 || n == 8,
    ensures
        r == pow256(n as nat),
{
    reveal_with_fuel(pow256, 9);
    if n == 1 {
        256
    } else if n == 2 {
        65536
    } else if n == 4 {
        4294967296
    } else {
        18446744073709551616
    }
}

/// Parses an integer literal of `n` bytes.
pub fn parse_integer(s: &Vec<char>, n: usize, signed: bool) -> (r: Option<i128>)
    requires
        n == 1 || n == 2 || n == 4 || n == 8,
    ensures
        r matches Some(v) ==> parse_int(s@, n as nat, signed) == Some(v as int),
        r is None ==> parse_int(s@, n as nat, signed) is None,
{
    let len = s.len();
    let mut start: usize = 0;
    let mut neg = false;
    if len >= 1 && s[0] == '+' {
        start = 1;
    } else if len >= 1 && s[0] == '-' && signed {
        start = 1;
        neg = true;
    }
    let ghost d = s@.subrange(start as int, len as int);
    assert(start == 1 ==> d =~= s@.drop_first());
    assert(start == 0 ==> d =~= s@);
    assert(split_sign(s@, signed) == (neg, d));
    if start == len {
        return None;
    }
    let cap: u128 = 18446744073709551616;
    let mut acc: u128 = 0;
    let mut big = false;
    let mut i: usize = start;
    while i < len
        invariant
            start <= i <= len,
            len == s@.len(),
            cap == 18446744073709551616u128,
            d == s@.subrange(start as int, len as int),
            split_sign(s@, signed) == (neg, d),
            forall|j: int| start <= j < i ==> is_digit(#[trigger] s@[j]),
            big ==> digits_value(s@.subrange(start as int, i as int)) > cap,
            !big ==> acc == digits_value(s@.subrange(start as int, i as int)) && acc <= cap,
        decreases len - i,
    {
        let c = s[i];
        if !('0' <= c && c <= '9') {
            assert(d[i - start] == c);
            assert(!is_digit(d[i - start]));
            return None;
        }
        let ghost prev = s@.subrange(start as int, i as int);
        assert(s@.subrange(start as int, i + 1).drop_last() =~= prev);
        if !big {
            acc = acc * 10 + (c as u32 - '0' as u32) as u128;
            if acc > cap {
                big = true;
            }
        }
        i = i + 1;
    }
    assert(s@.subrange(start as int, len as int) == d);
    assert forall|j: int| 0 <= j < d.len() implies is_digit(#[trigger] d[j]) by {
        assert(d[j] == s@[j + start]);
    }
    let m = modulus(n);
    proof {
        lemma_pow256_positive(n as nat);
        reveal_with_fuel(pow256, 9);
    }
    if big {
        return None;
    }
    let v: i128 = if neg {
        -(acc as i128)
    } else {
        acc as i128
    };
    let ok = if signed {
        -(m as i128) <= 2 * v && 2 * v < m as i128
    } else {
        0 <= v && v < m as i128
    };
    if ok {
        Some(v)
    } else {
        None
    }
}

} // verus!
