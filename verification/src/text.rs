//! Decimal numbers as ASCII digits: what a run of digits is worth, and how a
//! number is written.

use vstd::prelude::*;
use crate::ascii::{ZERO, NINE};

verus! {

pub open spec fn is_digit(b: u8) -> bool {
    ZERO <= b && b <= NINE
}

pub open spec fn all_digits(s: Seq<u8>) -> bool {
    forall|i: int| 0 <= i < s.len() ==> is_digit(#[trigger] s[i])
}

/// The number that a run of digits denotes, most significant digit first.
pub open spec fn digits_value(s: Seq<u8>) -> nat
    decreases s.len(),
{
    if s.len() == 0 {
        0
    } else {
        digits_value(s.drop_last()) * 10 + (s.last() - ZERO) as nat
    }
}

/// The shortest decimal writing of `n`.
pub open spec fn decimal(n: nat) -> Seq<u8>
    decreases n,
{
    if n < 10 {
        seq![(ZERO + n) as u8]
    } else {
        decimal(n / 10).push((ZERO + n % 10) as u8)
    }
}

pub open spec fn zeros(k: nat) -> Seq<u8> {
    Seq::new(k, |i: int| ZERO)
}

/// The decimal writing of `n`, filled with zeros on the left up to `width`.
pub open spec fn padded(n: nat, width: nat) -> Seq<u8> {
    if decimal(n).len() < width {
        zeros((width - decimal(n).len()) as nat) + decimal(n)
    } else {
        decimal(n)
    }
}

/// The first index at or after `i` that holds no digit.
pub open spec fn digits_end(s: Seq<u8>, i: int) -> int
    decreases s.len() - i,
{
    if 0 <= i < s.len() && is_digit(s[i]) {
        digits_end(s, i + 1)
    } else {
        i
    }
}

pub proof fn lemma_digits_value_push(s: Seq<u8>, d: u8)
    ensures
        digits_value(s.push(d)) == digits_value(s) * 10 + (d - ZERO) as nat,
{
    assert(s.push(d).drop_last() =~= s);
}

pub proof fn lemma_decimal(n: nat)
    ensures
        decimal(n).len() >= 1,
        all_digits(decimal(n)),
        digits_value(decimal(n)) == n,
    decreases n,
{
    if n < 10 {
        let s = seq![(ZERO + n) as u8];
        assert(s.drop_last() =~= Seq::<u8>::empty());
        assert(digits_value(s.drop_last()) == 0);
    } else {
        lemma_decimal(n / 10);
        lemma_digits_value_push(decimal(n / 10), (ZERO + n % 10) as u8);
    }
}

pub proof fn lemma_prefix_value(s: Seq<u8>, k: int)
    requires
        all_digits(s),
        0 <= k <= s.len(),
    ensures
        digits_value(s.take(k)) <= digits_value(s),
    decreases s.len(),
{
    if k == s.len() {
        assert(s.take(k) =~= s);
    } else {
        lemma_prefix_value(s.drop_last(), k);
        assert(s.drop_last().take(k) =~= s.take(k));
    }
}

pub proof fn lemma_leading_zeros(k: nat, s: Seq<u8>)
    ensures
        digits_value(zeros(k) + s) == digits_value(s),
    decreases s.len(), k,
{
    if s.len() == 0 {
        assert(zeros(k) + s =~= zeros(k));
        if k > 0 {
            assert(zeros(k).drop_last() =~= zeros((k - 1) as nat));
            lemma_leading_zeros((k - 1) as nat, s);
            assert(zeros((k - 1) as nat) + s =~= zeros((k - 1) as nat));
        }
    } else {
        assert((zeros(k) + s).drop_last() =~= zeros(k) + s.drop_last());
        lemma_leading_zeros(k, s.drop_last());
    }
}

pub proof fn lemma_padded(n: nat, width: nat)
    ensures
        padded(n, width).len() >= width,
        padded(n, width).len() >= 1,
        decimal(n).len() <= width ==> padded(n, width).len() == width,
        all_digits(padded(n, width)),
        digits_value(padded(n, width)) == n,
{
    lemma_decimal(n);
    if decimal(n).len() < width {
        lemma_leading_zeros((width - decimal(n).len()) as nat, decimal(n));
    }
}

/// A run of digits that stops at `to` is where `digits_end` stops.
pub proof fn lemma_digits_end(s: Seq<u8>, from: int, to: int)
    requires
        0 <= from <= to <= s.len(),
        forall|i: int| from <= i < to ==> is_digit(#[trigger] s[i]),
        to < s.len() ==> !is_digit(s[to]),
    ensures
        digits_end(s, from) == to,
    decreases to - from,
{
    if from < to {
        lemma_digits_end(s, from + 1, to);
    }
}

/// From `from` up to `digits_end` every byte is a digit, and the byte there,
/// if there is one, is none.
pub proof fn lemma_digits_end_run(s: Seq<u8>, from: int)
    requires
        0 <= from <= s.len(),
    ensures
        from <= digits_end(s, from) <= s.len(),
        forall|i: int| from <= i < digits_end(s, from) ==> is_digit(#[trigger] s[i]),
        digits_end(s, from) < s.len() ==> !is_digit(s[digits_end(s, from)]),
    decreases s.len() - from,
{
    if from < s.len() && is_digit(s[from]) {
        lemma_digits_end_run(s, from + 1);
    }
}

pub proof fn lemma_decimal_small(n: nat)
    ensures
        n < 10 ==> decimal(n).len() == 1,
        10 <= n < 100 ==> decimal(n).len() == 2,
        100 <= n < 1000 ==> decimal(n).len() == 3,
{
    reveal_with_fuel(decimal, 4);
}

pub fn digit(b: u8) -> (r: bool)
    ensures
        r == is_digit(b),
{
    b >= ZERO && b <= NINE
}

/// How many digits the decimal writing of `n` has.
pub fn decimal_width(n: u64) -> (w: usize)
    ensures
        w == decimal(n as nat).len(),
        1 <= w <= 20,
    decreases n,
{
    if n >= 10 {
        let w = decimal_width(n / 10);
        proof {
            lemma_width_bound(n as nat);
        }
        w + 1
    } else {
        1
    }
}

pub proof fn lemma_width_bound(n: nat)
    requires
        n <= u64::MAX,
    ensures
        decimal(n).len() <= 20,
{
    reveal_with_fuel(decimal, 21);
}

/// Appends the decimal writing of `n`.
pub fn push_decimal(out: &mut Vec<u8>, n: u64)
    ensures
        final(out)@ == old(out)@ + decimal(n as nat),
    decreases n,
{
    if n >= 10 {
        push_decimal(out, n / 10);
        out.push(ZERO + (n % 10) as u8);
        proof {
            assert(out@ =~= old(out)@ + decimal(n as nat));
        }
    } else {
        out.push(ZERO + n as u8);
        proof {
            assert(out@ =~= old(out)@ + decimal(n as nat));
        }
    }
}

/// Appends the decimal writing of `n` with at least `width` digits.
pub fn push_padded(out: &mut Vec<u8>, n: u64, width: usize)
    ensures
        final(out)@ == old(out)@ + padded(n as nat, width as nat),
{
    let len = decimal_width(n);
    let mut k: usize = len;
    while k < width
        invariant
            len <= k,
            k <= width || k == len,
            out@ == old(out)@ + zeros((k - len) as nat),
        decreases width - k,
    {
        out.push(ZERO);
        k = k + 1;
        proof {
            assert(out@ =~= old(out)@ + zeros((k - len) as nat));
        }
    }
    push_decimal(out, n);
    proof {
        if len < width {
            let z = zeros((width - len) as nat);
            assert(out@ == (old(out)@ + z) + decimal(n as nat));
            assert((old(out)@ + z) + decimal(n as nat) =~= old(out)@ + (z + decimal(n as nat)));
        } else {
            assert(zeros(0) =~= Seq::<u8>::empty());
            assert(out@ =~= old(out)@ + padded(n as nat, width as nat));
        }
    }
}

/// Reads a whole byte string as a decimal number.
pub fn parse_number(s: &[u8]) -> (r: Option<u64>)
    ensures
        match r {
            Some(v) => s@.len() > 0 && all_digits(s@) && digits_value(s@) == v,
            None => s@.len() == 0 || !all_digits(s@) || digits_value(s@) > u64::MAX,
        },
{
    let n = s.len();
    if n == 0 {
        return None;
    }
    let mut acc: u64 = 0;
    let mut i: usize = 0;
    while i < n
        invariant
            i <= n,
            n == s@.len(),
            all_digits(s@.take(i as int)),
            acc == digits_value(s@.take(i as int)),
        decreases n - i,
    {
        let b = s[i];
        if !digit(b) {
            return None;
        }
        let d = (b - ZERO) as u64;
        proof {
            assert(s@.take(i + 1) =~= s@.take(i as int).push(b));
            lemma_digits_value_push(s@.take(i as int), b);
        }
        if acc > (u64::MAX - d) / 10 {
            proof {
                if all_digits(s@) {
                    lemma_prefix_value(s@, i + 1);
                }
            }
            return None;
        }
        acc = acc * 10 + d;
        i = i + 1;
    }
    proof {
        assert(s@.take(n as int) =~= s@);
    }
    Some(acc)
}

/// Finds where the run of digits that starts at `from` ends.
pub fn scan_digits(s: &[u8], from: usize) -> (to: usize)
    requires
        from <= s@.len(),
    ensures
        to == digits_end(s@, from as int),
        from <= to <= s@.len(),
{
    let mut i: usize = from;
    while i < s.len() && digit(s[i])
        invariant
            from <= i <= s@.len(),
            digits_end(s@, from as int) == digits_end(s@, i as int),
        decreases s@.len() - i,
    {
        i = i + 1;
    }
    i
}

} // verus!
