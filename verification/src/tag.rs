//! The name tag: the part of a file name that records by how much the file
//! was shifted, written `__[<sign><seconds>.<hundredths>_Sec<marker>]`.
//! The marker is `-` where only a part of the file was shifted, else `+`.

use vstd::prelude::*;
use vstd::slice::slice_subrange;
use crate::ascii::{
    DOT, FIVE, LBRACKET, LOWER_C, LOWER_E, MINUS, PLUS, RBRACKET, UNDERSCORE, UPPER_S, ZERO,
};
use crate::text::{
    decimal, digits_end, digits_value, lemma_digits_end_run, padded, parse_number, push_decimal,
    push_padded, scan_digits,
};

verus! {

/// The shortest tag: three opening bytes, a sign, a digit, a dot, a digit,
/// `_Sec`, a marker and the closing bracket.
pub const MIN_TAG_LEN: usize = 13;

pub open spec fn is_sign(b: u8) -> bool {
    b == PLUS || b == MINUS
}

/// Where the tag that starts at `p` ends, if one starts there.
pub open spec fn tag_end_at(s: Seq<u8>, p: int) -> Option<int> {
    let a = p + 4;
    let b = digits_end(s, a);
    let c = b + 1;
    let d = digits_end(s, c);
    if 0 <= p && a < s.len() && s[p] == UNDERSCORE && s[p + 1] == UNDERSCORE && s[p + 2]
        == LBRACKET && is_sign(s[p + 3]) && a < b && b < s.len() && s[b] == DOT && c < d && d + 6
        <= s.len() && s[d] == UNDERSCORE && s[d + 1] == UPPER_S && s[d + 2] == LOWER_E && s[d + 3]
        == LOWER_C && is_sign(s[d + 4]) && s[d + 5] == RBRACKET {
        Some(d + 6)
    } else {
        None
    }
}

/// How what a tag holds beyond its hundredths compares with half a
/// hundredth.
#[derive(Clone, Copy, Debug, PartialEq, Eq, Structural)]
pub enum Remainder {
    Below,
    Half,
    Above,
}

pub open spec fn all_zeros(s: Seq<u8>) -> bool {
    forall|i: int| 0 <= i < s.len() ==> #[trigger] s[i] == ZERO
}

/// How the digits after the dot, beyond the second, compare with half a
/// hundredth.
pub open spec fn remainder_of(frac: Seq<u8>) -> Remainder {
    if frac.len() <= 2 || frac[2] < FIVE {
        Remainder::Below
    } else if frac[2] > FIVE || !all_zeros(frac.subrange(3, frac.len() as int)) {
        Remainder::Above
    } else {
        Remainder::Half
    }
}

/// The whole number of hundredths nearest to an amount that lies between
/// `amount` and the next whole number away from it, towards the negative
/// where `negative` is set. Half a hundredth goes to the even number.
pub open spec fn rounded(amount: int, negative: bool, rest: Remainder) -> int {
    let away = if negative {
        amount - 1
    } else {
        amount + 1
    };
    match rest {
        Remainder::Below => amount,
        Remainder::Above => away,
        Remainder::Half => if amount % 2 == 0 {
            amount
        } else {
            away
        },
    }
}

/// The hundredths that the first two digits after the dot denote.
pub open spec fn hundredths_of(frac: Seq<u8>) -> nat {
    if frac.len() >= 2 {
        ((frac[0] - ZERO) * 10 + (frac[1] - ZERO)) as nat
    } else if frac.len() == 1 {
        ((frac[0] - ZERO) * 10) as nat
    } else {
        0
    }
}

/// Whether the tag that starts at `p` bears a minus sign.
pub open spec fn tag_negative(s: Seq<u8>, p: int) -> bool {
    s[p + 3] == MINUS
}

/// How what the tag that starts at `p` holds beyond its hundredths compares
/// with half a hundredth.
pub open spec fn tag_remainder(s: Seq<u8>, p: int) -> Remainder {
    let b = digits_end(s, p + 4);
    let c = b + 1;
    remainder_of(s.subrange(c, digits_end(s, c)))
}

/// The amount of the tag that starts at `p` plus `offset`, to the nearest
/// hundredth of a second: the tag is read with all its digits, and the sum
/// is rounded.
pub open spec fn tag_total(s: Seq<u8>, p: int, offset: int) -> int {
    rounded(tag_value(s, p) + offset, tag_negative(s, p), tag_remainder(s, p))
}

/// The signed amount, in whole hundredths of a second, of the tag that
/// starts at `p`: what it holds beyond its hundredths is left out.
pub open spec fn tag_value(s: Seq<u8>, p: int) -> int {
    let a = p + 4;
    let b = digits_end(s, a);
    let c = b + 1;
    let d = digits_end(s, c);
    let amount = digits_value(s.subrange(a, b)) * 100 + hundredths_of(s.subrange(c, d));
    if s[p + 3] == MINUS {
        -(amount as int)
    } else {
        amount as int
    }
}

pub open spec fn magnitude(h: int) -> nat {
    if h >= 0 {
        h as nat
    } else {
        (-h) as nat
    }
}

pub open spec fn sign_byte(h: int) -> u8 {
    if h >= 0 {
        PLUS
    } else {
        MINUS
    }
}

pub open spec fn marker_byte(partial: bool) -> u8 {
    if partial {
        MINUS
    } else {
        PLUS
    }
}

/// The tag for an amount of `h` hundredths of a second: the sign is always
/// written, the hundredths always with two digits.
pub open spec fn tag_text(h: int, partial: bool) -> Seq<u8> {
    seq![UNDERSCORE, UNDERSCORE, LBRACKET, sign_byte(h)] + decimal(magnitude(h) / 100) + seq![DOT]
        + padded(magnitude(h) % 100, 2) + seq![
        UNDERSCORE,
        UPPER_S,
        LOWER_E,
        LOWER_C,
        marker_byte(partial),
        RBRACKET,
    ]
}

/// The leftmost tag at or after `from`.
pub open spec fn first_tag_from(s: Seq<u8>, from: int) -> Option<(int, int)>
    decreases s.len() - from,
{
    if from < 0 || from >= s.len() {
        None
    } else if tag_end_at(s, from) is Some {
        Some((from, tag_end_at(s, from)->0))
    } else {
        first_tag_from(s, from + 1)
    }
}

/// The leftmost tag of a name.
pub open spec fn first_tag(s: Seq<u8>) -> Option<(int, int)> {
    first_tag_from(s, 0)
}

pub fn sign(b: u8) -> (r: bool)
    ensures
        r == is_sign(b),
{
    b == PLUS || b == MINUS
}

/// Tells whether a tag starts at `p`, and where it ends.
pub fn scan_tag(name: &[u8], p: usize) -> (r: Option<usize>)
    ensures
        match r {
            Some(end) => tag_end_at(name@, p as int) == Some(end as int),
            None => tag_end_at(name@, p as int) is None,
        },
{
    let n = name.len();
    if p > n || n - p < MIN_TAG_LEN {
        return None;
    }
    if name[p] != UNDERSCORE || name[p + 1] != UNDERSCORE || name[p + 2] != LBRACKET || !sign(
        name[p + 3],
    ) {
        return None;
    }
    let a = p + 4;
    let b = scan_digits(name, a);
    if b == a || b >= n || name[b] != DOT {
        return None;
    }
    let c = b + 1;
    let d = scan_digits(name, c);
    if d == c || n - d < 6 {
        return None;
    }
    if name[d] != UNDERSCORE || name[d + 1] != UPPER_S || name[d + 2] != LOWER_E || name[d + 3]
        != LOWER_C || !sign(name[d + 4]) || name[d + 5] != RBRACKET {
        return None;
    }
    Some(d + 6)
}

/// Reads the amount of the tag that starts at `p`. `None` where its whole
/// seconds are beyond 64 bits.
pub fn read_tag(name: &[u8], p: usize) -> (r: Option<i128>)
    requires
        tag_end_at(name@, p as int) is Some,
    ensures
        match r {
            Some(v) => v == tag_value(name@, p as int) && magnitude(v as int) <= 100 * u64::MAX
                + 99,
            None => magnitude(tag_value(name@, p as int)) > 100 * u64::MAX,
        },
{
    let n = name.len();
    assert(p + 4 < n);
    let a = p + 4;
    let b = scan_digits(name, a);
    assert(b < n);
    let c = b + 1;
    let d = scan_digits(name, c);
    proof {
        lemma_digits_end_run(name@, a as int);
        lemma_digits_end_run(name@, c as int);
    }
    let whole = parse_number(slice_subrange(name, a, b));
    match whole {
        None => None,
        Some(w) => {
            let tenths = (name[c] - ZERO) as i128;
            let rest = if d - c >= 2 {
                (name[c + 1] - ZERO) as i128
            } else {
                0
            };
            let amount: i128 = (w as i128) * 100 + tenths * 10 + rest;
            if name[p + 3] == MINUS {
                Some(-amount)
            } else {
                Some(amount)
            }
        },
    }
}

/// Compares what the tag that starts at `p` holds beyond its hundredths
/// with half a hundredth.
pub fn read_remainder(name: &[u8], p: usize) -> (r: Remainder)
    requires
        tag_end_at(name@, p as int) is Some,
    ensures
        r == tag_remainder(name@, p as int),
{
    let n = name.len();
    assert(p + 4 < n);
    let b = scan_digits(name, p + 4);
    assert(b < n);
    let c = b + 1;
    let d = scan_digits(name, c);
    let ghost frac = name@.subrange(c as int, d as int);
    if d - c <= 2 {
        return Remainder::Below;
    }
    proof {
        assert(frac[2] == name@[c + 2]);
    }
    if name[c + 2] < FIVE {
        return Remainder::Below;
    }
    if name[c + 2] > FIVE {
        return Remainder::Above;
    }
    let mut i: usize = c + 3;
    while i < d
        invariant
            c + 3 <= i <= d <= name@.len(),
            frac == name@.subrange(c as int, d as int),
            frac.len() == d - c,
            frac[2] == FIVE,
            tag_remainder(name@, p as int) == remainder_of(frac),
            forall|j: int| c + 3 <= j < i ==> name@[j] == ZERO,
        decreases d - i,
    {
        if name[i] != ZERO {
            proof {
                assert(frac.subrange(3, frac.len() as int)[i - c - 3] == name@[i as int]);
            }
            return Remainder::Above;
        }
        i = i + 1;
    }
    proof {
        assert forall|j: int| 0 <= j < frac.len() - 3 implies #[trigger] frac.subrange(
            3,
            frac.len() as int,
        )[j] == ZERO by {
            assert(frac.subrange(3, frac.len() as int)[j] == name@[c + 3 + j]);
        }
    }
    Remainder::Half
}

/// Rounds to the nearest hundredth.
pub fn round(amount: i128, negative: bool, rest: Remainder) -> (r: i128)
    requires
        i128::MIN < amount < i128::MAX,
    ensures
        r == rounded(amount as int, negative, rest),
{
    let away = if negative {
        amount - 1
    } else {
        amount + 1
    };
    match rest {
        Remainder::Below => amount,
        Remainder::Above => away,
        Remainder::Half => if amount % 2 == 0 {
            amount
        } else {
            away
        },
    }
}

/// Appends the tag for `h` hundredths of a second.
pub fn push_tag(out: &mut Vec<u8>, h: i64, partial: bool)
    ensures
        final(out)@ == old(out)@ + tag_text(h as int, partial),
{
    let m: u64 = if h >= 0 {
        h as u64
    } else {
        (-(h + 1)) as u64 + 1
    };
    out.push(UNDERSCORE);
    out.push(UNDERSCORE);
    out.push(LBRACKET);
    out.push(
        if h >= 0 {
            PLUS
        } else {
            MINUS
        },
    );
    let ghost head = out@;
    push_decimal(out, m / 100);
    out.push(DOT);
    push_padded(out, m % 100, 2);
    out.push(UNDERSCORE);
    out.push(UPPER_S);
    out.push(LOWER_E);
    out.push(LOWER_C);
    out.push(
        if partial {
            MINUS
        } else {
            PLUS
        },
    );
    out.push(RBRACKET);
    proof {
        assert(head =~= old(out)@ + seq![UNDERSCORE, UNDERSCORE, LBRACKET, sign_byte(h as int)]);
        assert(out@ =~= old(out)@ + tag_text(h as int, partial));
    }
}

} // verus!
