//! What holds of naming whatever the name: amounts add up over repeated
//! shifts, and the marker of a tag is independent of its amount.

use vstd::prelude::*;
use crate::ascii::{DOT, LBRACKET, LOWER_C, LOWER_E, MINUS, PLUS, RBRACKET, UNDERSCORE, UPPER_S};
use crate::error::SubError;
use crate::matcher::leftmost_match;
use crate::namer::{compose, matched_name, tagged_name, EXTENSION_LEN, TAG_PATTERN};
use crate::tag::{
    first_tag, first_tag_from, hundredths_of, magnitude, marker_byte, sign_byte, tag_end_at,
    tag_negative, tag_remainder, tag_text, tag_total, tag_value, Remainder,
};
use crate::text::{
    decimal, digits_end, digits_value, is_digit, lemma_decimal, lemma_decimal_small,
    lemma_digits_end, lemma_digits_end_run, lemma_padded, padded,
};

verus! {

/// The name after a shift by `offset`, where the matcher reports the
/// leftmost tag of the tag grammar.
pub open spec fn next_name(name: Seq<u8>, offset: int, partial: bool) -> Result<Seq<u8>, SubError> {
    tagged_name(name, first_tag(name), offset, partial)
}

/// The bytes of a tag, one by one.
pub proof fn lemma_tag_text(h: int, partial: bool)
    ensures
        ({
            let t = tag_text(h, partial);
            let w = decimal(magnitude(h) / 100);
            let f = padded(magnitude(h) % 100, 2);
            let k = w.len() as int;
            &&& f.len() == 2
            &&& k >= 1
            &&& t.len() == k + 13
            &&& t[0] == UNDERSCORE
            &&& t[1] == UNDERSCORE
            &&& t[2] == LBRACKET
            &&& t[3] == sign_byte(h)
            &&& forall|i: int| 0 <= i < k ==> #[trigger] t[4 + i] == w[i]
            &&& t[4 + k] == DOT
            &&& t[5 + k] == f[0]
            &&& t[6 + k] == f[1]
            &&& t[7 + k] == UNDERSCORE
            &&& t[8 + k] == UPPER_S
            &&& t[9 + k] == LOWER_E
            &&& t[10 + k] == LOWER_C
            &&& t[11 + k] == marker_byte(partial)
            &&& t[12 + k] == RBRACKET
        }),
{
    let m = magnitude(h);
    lemma_decimal(m / 100);
    lemma_decimal_small(m % 100);
    lemma_padded(m % 100, 2);
}

/// A tag written into a name is found where it was written, with the amount
/// that was written.
pub proof fn lemma_tag_in_place(s: Seq<u8>, at: int, h: int, partial: bool)
    requires
        0 <= at,
        at + tag_text(h, partial).len() <= s.len(),
        s.subrange(at, at + tag_text(h, partial).len()) == tag_text(h, partial),
    ensures
        tag_end_at(s, at) == Some(at + tag_text(h, partial).len()),
        tag_value(s, at) == h,
        tag_remainder(s, at) == Remainder::Below,
        forall|offset: int| tag_total(s, at, offset) == h + offset,
{
    let t = tag_text(h, partial);
    let m = magnitude(h);
    let w = decimal(m / 100);
    let f = padded(m % 100, 2);
    let k = w.len() as int;
    lemma_tag_text(h, partial);
    lemma_decimal(m / 100);
    lemma_padded(m % 100, 2);
    assert forall|i: int| 0 <= i < t.len() implies s[at + i] == t[i] by {
        assert(s.subrange(at, at + t.len())[i] == s[at + i]);
    }
    let a = at + 4;
    let b = a + k;
    let c = b + 1;
    let d = c + 2;
    assert forall|i: int| a <= i < b implies is_digit(#[trigger] s[i]) by {
        assert(s[at + (4 + (i - a))] == t[4 + (i - a)]);
        assert(t[4 + (i - a)] == w[i - a]);
    }
    assert(s[b] == t[4 + k]);
    lemma_digits_end(s, a, b);
    assert forall|i: int| c <= i < d implies is_digit(#[trigger] s[i]) by {
        if i == c {
            assert(s[c] == t[5 + k]);
        } else {
            assert(s[c + 1] == t[6 + k]);
        }
    }
    assert(s[d] == t[7 + k]);
    lemma_digits_end(s, c, d);
    assert(s[at] == t[0]);
    assert(s[at + 1] == t[1]);
    assert(s[at + 2] == t[2]);
    assert(s[at + 3] == t[3]);
    assert(s[d + 1] == t[8 + k]);
    assert(s[d + 2] == t[9 + k]);
    assert(s[d + 3] == t[10 + k]);
    assert(s[d + 4] == t[11 + k]);
    assert(s[d + 5] == t[12 + k]);
    assert(tag_end_at(s, at) == Some(d + 6));
    assert(s.subrange(a, b) =~= w) by {
        assert forall|i: int| 0 <= i < k implies s.subrange(a, b)[i] == w[i] by {
            assert(s[at + (4 + i)] == t[4 + i]);
        }
    }
    assert(s.subrange(c, d) =~= f) by {
        assert(s[c] == t[5 + k]);
        assert(s[c + 1] == t[6 + k]);
    }
    assert(hundredths_of(f) == m % 100) by {
        assert(f.drop_last().drop_last() =~= Seq::<u8>::empty());
        reveal_with_fuel(digits_value, 3);
    }
    assert(m == (m / 100) * 100 + m % 100);
    assert(tag_value(s, at) == h);
    assert(tag_remainder(s, at) == Remainder::Below) by {
        assert(s.subrange(c, d).len() == 2);
    }
    assert forall|offset: int| tag_total(s, at, offset) == h + offset by {
        assert(tag_remainder(s, at) == Remainder::Below);
    }
}

/// Past its opening bracket a tag holds no opening bracket.
pub proof fn lemma_one_bracket(s: Seq<u8>, p: int, j: int)
    requires
        tag_end_at(s, p) is Some,
        p + 3 <= j < tag_end_at(s, p)->0,
    ensures
        s[j] != LBRACKET,
{
    let a = p + 4;
    lemma_digits_end_run(s, a);
    let b = digits_end(s, a);
    lemma_digits_end_run(s, b + 1);
}

/// A tag is decided by the bytes up to its end.
pub proof fn lemma_tag_by_prefix(s1: Seq<u8>, s2: Seq<u8>, p: int)
    requires
        tag_end_at(s1, p) is Some,
        tag_end_at(s1, p)->0 <= s2.len(),
        forall|i: int| 0 <= i < tag_end_at(s1, p)->0 ==> s1[i] == s2[i],
    ensures
        tag_end_at(s2, p) == tag_end_at(s1, p),
        tag_value(s2, p) == tag_value(s1, p),
        tag_remainder(s2, p) == tag_remainder(s1, p),
        tag_negative(s2, p) == tag_negative(s1, p),
{
    let a = p + 4;
    lemma_digits_end_run(s1, a);
    let b = digits_end(s1, a);
    let c = b + 1;
    lemma_digits_end_run(s1, c);
    let d = digits_end(s1, c);
    lemma_digits_end(s2, a, b);
    lemma_digits_end(s2, c, d);
    assert(s2.subrange(a, b) =~= s1.subrange(a, b));
    assert(s2.subrange(c, d) =~= s1.subrange(c, d));
}

/// What `first_tag_from` returns is a tag, and no tag starts between `from`
/// and it.
pub proof fn lemma_first_tag(s: Seq<u8>, from: int)
    requires
        0 <= from,
    ensures
        match first_tag_from(s, from) {
            Some((p, e)) => from <= p < s.len() && tag_end_at(s, p) == Some(e) && forall|t: int|
                from <= t < p ==> tag_end_at(s, t) is None,
            None => forall|t: int| from <= t ==> tag_end_at(s, t) is None,
        },
    decreases s.len() - from,
{
    if from < s.len() && tag_end_at(s, from) is None {
        lemma_first_tag(s, from + 1);
    }
}

/// The leftmost position at which a tag starts is what `first_tag_from` returns.
pub proof fn lemma_first_tag_is(s: Seq<u8>, from: int, p: int)
    requires
        0 <= from <= p,
        tag_end_at(s, p) is Some,
        forall|t: int| from <= t < p ==> tag_end_at(s, t) is None,
    ensures
        first_tag_from(s, from) == Some((p, tag_end_at(s, p)->0)),
    decreases p - from,
{
    if from < p {
        lemma_first_tag_is(s, from + 1, p);
    }
}

/// In a composed name the leftmost tag is the one that was composed into it,
/// provided that no tag lay before it in the name that the stem came from.
pub proof fn lemma_composed_tag(name: Seq<u8>, stem_end: int, h: int, partial: bool)
    requires
        name.len() >= EXTENSION_LEN,
        0 <= stem_end <= name.len(),
        i64::MIN <= h <= i64::MAX,
        forall|t: int| 0 <= t < stem_end ==> tag_end_at(name, t) is None,
    ensures
        ({
            let out = compose(name, stem_end, h, partial)->Ok_0;
            &&& first_tag(out) == Some((stem_end, stem_end + tag_text(h, partial).len()))
            &&& tag_end_at(out, stem_end) == Some(stem_end + tag_text(h, partial).len())
            &&& tag_value(out, stem_end) == h
            &&& forall|offset: int| tag_total(out, stem_end, offset) == h + offset
            &&& out.len() == stem_end + tag_text(h, partial).len() + EXTENSION_LEN
            &&& out.subrange(0, stem_end) == name.subrange(0, stem_end)
            &&& out.subrange(out.len() - EXTENSION_LEN, out.len() as int) == name.subrange(
                name.len() - EXTENSION_LEN,
                name.len() as int,
            )
        }),
{
    let t = tag_text(h, partial);
    let ext = name.subrange(name.len() - EXTENSION_LEN, name.len() as int);
    let out = name.subrange(0, stem_end) + t + ext;
    lemma_tag_text(h, partial);
    assert(out.subrange(stem_end, stem_end + t.len()) =~= t);
    lemma_tag_in_place(out, stem_end, h, partial);
    assert forall|p: int| 0 <= p < stem_end implies tag_end_at(out, p) is None by {
        if tag_end_at(out, p) is Some {
            let e = tag_end_at(out, p)->0;
            assert(out[stem_end] == t[0]);
            assert(out[stem_end + 1] == t[1]);
            assert(out[stem_end + 2] == t[2]);
            if e > stem_end {
                lemma_one_bracket(out, p, stem_end + 2);
            } else {
                assert forall|i: int| 0 <= i < e implies out[i] == name[i] by {}
                lemma_tag_by_prefix(out, name, p);
            }
        }
    }
    lemma_first_tag_is(out, 0, stem_end);
    assert(out.subrange(0, stem_end) =~= name.subrange(0, stem_end));
    assert(out.subrange(out.len() - EXTENSION_LEN, out.len() as int) =~= ext);
}

/// Adding to the offset adds to the total, unless the tag holds exactly
/// half a hundredth beyond its hundredths and what is added is odd.
pub proof fn lemma_total_adds(name: Seq<u8>, p: int, x: int, y: int)
    requires
        tag_remainder(name, p) != Remainder::Half || y % 2 == 0,
    ensures
        tag_total(name, p, x + y) == tag_total(name, p, x) + y,
{
}

/// Naming accumulates. Where a first shift by `x` names a file, naming the
/// result after a second shift by `y` gives what one shift by `x + y` gives
/// for the first name, whichever markers the two shifts have: the second
/// shift's marker is the one that stays.
///
/// One case is left out, in which the two differ by a hundredth: the tag
/// of the first name holds exactly half a hundredth beyond its hundredths,
/// and `y` is odd. Rounding that half to the even hundredth then goes one
/// way for `x` and the other way for `x + y`.
pub proof fn lemma_naming_accumulates(name: Seq<u8>, x: int, y: int, first: bool, second: bool)
    requires
        next_name(name, x, first) is Ok,
        first_tag(name) matches Some((p, e)) ==> tag_remainder(name, p) != Remainder::Half || y % 2
            == 0,
    ensures
        next_name(next_name(name, x, first)->Ok_0, y, second) == next_name(name, x + y, second),
{
    let found = first_tag(name);
    let cut = name.len() - EXTENSION_LEN;
    let stem_end = match found {
        Some((p, e)) => p,
        None => cut,
    };
    let h = match found {
        Some((p, e)) => tag_total(name, p, x),
        None => x,
    };
    let both = match found {
        Some((p, e)) => tag_total(name, p, x + y),
        None => x + y,
    };
    assert(both == h + y) by {
        match found {
            Some((p, e)) => {
                lemma_total_adds(name, p, x, y);
            },
            None => {},
        }
    }
    let mid = next_name(name, x, first)->Ok_0;
    assert(name.len() >= EXTENSION_LEN);
    assert(0 <= stem_end <= name.len() && forall|t: int|
        0 <= t < stem_end ==> tag_end_at(name, t) is None) by {
        lemma_first_tag(name, 0);
    }
    assert(next_name(name, x, first) == compose(name, stem_end, h, first));
    assert(next_name(name, x + y, second) == compose(name, stem_end, both, second));
    lemma_composed_tag(name, stem_end, h, first);
    let end = stem_end + tag_text(h, first).len();
    assert(next_name(mid, y, second) == compose(mid, stem_end, h + y, second)) by {
        assert(first_tag(mid) == Some((stem_end, end)));
        assert(tag_end_at(mid, stem_end) == Some(end));
        assert(tag_total(mid, stem_end, y) == h + y);
        assert(mid.len() >= EXTENSION_LEN);
        assert(next_name(mid, y, second) == tagged_name(mid, Some((stem_end, end)), y, second));
    }
}

/// Naming through the matcher accumulates, as far as the matcher goes by
/// the tag grammar. Where the matcher's answer is the leftmost tag of the
/// grammar, in the first name and in the name that the first shift gives,
/// what `smart_name` states of two shifts by `x` and then `y` is what it
/// states of one shift by `x + y`. The case of half a hundredth and an odd
/// `y` is left out as in `lemma_naming_accumulates`.
pub proof fn lemma_matched_naming_accumulates(
    name: Seq<u8>,
    x: int,
    y: int,
    first: bool,
    second: bool,
)
    ensures
        ({
            let mid = matched_name(name, x, first)->Ok_0;
            matched_name(name, x, first) is Ok && leftmost_match(TAG_PATTERN@, name) == first_tag(
                name,
            ) && leftmost_match(TAG_PATTERN@, mid) == first_tag(mid) && (first_tag(name) matches Some(
                (p, e),
            ) ==> tag_remainder(name, p) != Remainder::Half || y % 2 == 0) ==> matched_name(
                mid,
                y,
                second,
            ) == matched_name(name, x + y, second)
        }),
{
    let mid = matched_name(name, x, first)->Ok_0;
    if matched_name(name, x, first) is Ok && leftmost_match(TAG_PATTERN@, name) == first_tag(name)
        && leftmost_match(TAG_PATTERN@, mid) == first_tag(mid) && (first_tag(name) matches Some(
        (p, e),
    ) ==> tag_remainder(name, p) != Remainder::Half || y % 2 == 0) {
        assert(matched_name(name, x, first) == next_name(name, x, first));
        lemma_naming_accumulates(name, x, y, first, second);
    }
}

/// A tag is at least thirteen bytes long and ends inside the name.
pub proof fn lemma_tag_span(s: Seq<u8>, p: int)
    requires
        tag_end_at(s, p) is Some,
    ensures
        0 <= p,
        p + 13 <= tag_end_at(s, p)->0 <= s.len(),
        s[p + 2] == LBRACKET,
{
}

/// A name that naming gives bears one tag and no other: the one that
/// stands between its stem and its extension.
pub proof fn lemma_one_tag(name: Seq<u8>, offset: int, partial: bool, at: int)
    requires
        next_name(name, offset, partial) is Ok,
        tag_end_at(next_name(name, offset, partial)->Ok_0, at) is Some,
    ensures
        first_tag(next_name(name, offset, partial)->Ok_0) == Some(
            (at, tag_end_at(next_name(name, offset, partial)->Ok_0, at)->0),
        ),
        tag_end_at(next_name(name, offset, partial)->Ok_0, at)->0 + EXTENSION_LEN == next_name(
            name,
            offset,
            partial,
        )->Ok_0.len(),
{
    let found = first_tag(name);
    let cut = name.len() - EXTENSION_LEN;
    let stem_end = match found {
        Some((p, e)) => p,
        None => cut,
    };
    let h = match found {
        Some((p, e)) => tag_total(name, p, offset),
        None => offset,
    };
    let out = next_name(name, offset, partial)->Ok_0;
    assert(0 <= stem_end <= name.len() && forall|t: int|
        0 <= t < stem_end ==> tag_end_at(name, t) is None) by {
        lemma_first_tag(name, 0);
    }
    assert(next_name(name, offset, partial) == compose(name, stem_end, h, partial));
    lemma_composed_tag(name, stem_end, h, partial);
    lemma_first_tag(out, 0);
    lemma_tag_span(out, at);
    let end = stem_end + tag_text(h, partial).len();
    if at > stem_end {
        if at + 2 < end {
            lemma_one_bracket(out, stem_end, at + 2);
        }
    }
}

/// The marker is the only byte of a name that depends on whether the shift
/// was partial: its amount, its stem and its extension do not.
pub proof fn lemma_marker_only(name: Seq<u8>, found: Option<(int, int)>, offset: int)
    ensures
        match (tagged_name(name, found, offset, false), tagged_name(name, found, offset, true)) {
            (Ok(full), Ok(part)) => {
                &&& full.len() == part.len()
                &&& full.len() >= 6
                &&& full[full.len() - 6] == PLUS
                &&& part == full.update(full.len() - 6, MINUS)
            },
            (Err(a), Err(b)) => a == b,
            _ => false,
        },
{
    if tagged_name(name, found, offset, false) is Ok {
        let h = match found {
            Some((p, e)) => tag_total(name, p, offset),
            None => offset,
        };
        let full = tagged_name(name, found, offset, false)->Ok_0;
        let part = tagged_name(name, found, offset, true)->Ok_0;
        lemma_tag_text(h, false);
        lemma_tag_text(h, true);
        let tf = tag_text(h, false);
        let tp = tag_text(h, true);
        assert(tp =~= tf.update(tf.len() - 2, MINUS));
        assert(part =~= full.update(full.len() - 6, MINUS));
    }
}

} // verus!
