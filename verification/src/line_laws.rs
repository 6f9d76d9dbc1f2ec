//! Reading is the inverse of writing, line by line: the text of a list of
//! lines splits into those lines, and a written timing line reads as the
//! times that were written.

use vstd::prelude::*;
use crate::ascii::{COLON, CR, LF, SPACE};
use crate::bytes::{index_of_from, lemma_index_of_from, lemma_index_of_from_is};
use crate::cue::{is_blank, is_line};
use crate::dialect::Dialect;
use crate::parser::{arrow, index_value, lines_from, lines_of, strip_cr, timing_value, ARROW_LEN};
use crate::serialize::{joined, timing_text};
use crate::text::{all_digits, is_digit};
use crate::timecode::{
    clock_text, lemma_clock_text, lemma_timestamp_roundtrip, timestamp_text, CLOCK_TAIL_LEN,
};

verus! {

/// What is left of a line is a line: it holds no more than the bytes it was
/// cut from, and ends in no carriage return.
pub proof fn lemma_strip_cr(s: Seq<u8>)
    ensures
        strip_cr(s).len() <= s.len(),
        strip_cr(s) == s.take(strip_cr(s).len() as int),
        strip_cr(s).len() > 0 ==> strip_cr(s).last() != CR,
        (s.len() > 0 ==> s.last() != CR) ==> strip_cr(s) == s,
    decreases s.len(),
{
    if s.len() > 0 && s.last() == CR {
        lemma_strip_cr(s.drop_last());
        let t = strip_cr(s.drop_last());
        assert(t =~= s.take(t.len() as int));
    } else {
        assert(s.take(s.len() as int) =~= s);
    }
}

/// Searching in a text that stands behind another finds the same place.
pub proof fn lemma_index_of_from_shift(p: Seq<u8>, t: Seq<u8>, b: u8, j: int)
    requires
        0 <= j <= t.len(),
    ensures
        index_of_from(p + t, b, p.len() + j) == p.len() + index_of_from(t, b, j),
    decreases t.len() - j,
{
    if j < t.len() {
        assert((p + t)[p.len() + j] == t[j]);
        if t[j] != b {
            lemma_index_of_from_shift(p, t, b, j + 1);
        }
    }
}

/// The lines of a text that stands behind another are its own lines.
pub proof fn lemma_lines_from_shift(p: Seq<u8>, t: Seq<u8>, j: int)
    requires
        0 <= j <= t.len(),
    ensures
        lines_from(p + t, p.len() + j) == lines_from(t, j),
    decreases t.len() - j,
{
    let s = p + t;
    lemma_index_of_from_shift(p, t, LF, j);
    lemma_index_of_from(t, LF, j);
    let feed = index_of_from(t, LF, j);
    if feed < t.len() {
        assert(s.subrange(p.len() + j, p.len() + feed) =~= t.subrange(j, feed));
        lemma_lines_from_shift(p, t, feed + 1);
    } else {
        assert(s.subrange(p.len() + j, s.len() as int) =~= t.subrange(j, t.len() as int));
    }
}

/// The text of a list of lines splits into those lines and an empty line
/// behind the last line feed.
pub proof fn lemma_lines_of_joined(lines: Seq<Seq<u8>>)
    requires
        forall|i: int| 0 <= i < lines.len() ==> is_line(#[trigger] lines[i]),
    ensures
        lines_of(joined(lines)) == lines + seq![Seq::<u8>::empty()],
    decreases lines.len(),
{
    let blank = Seq::<u8>::empty();
    if lines.len() == 0 {
        let s = joined(lines);
        assert(s.subrange(0, 0) =~= blank);
        assert(lines_of(s) =~= lines + seq![blank]);
    } else {
        let first = lines[0];
        let rest = lines.skip(1);
        let head = first + seq![LF];
        let s = joined(lines);
        assert(s == head + joined(rest));
        assert forall|i: int| 0 <= i < rest.len() implies is_line(#[trigger] rest[i]) by {
            assert(rest[i] == lines[i + 1]);
        }
        lemma_lines_of_joined(rest);
        assert forall|i: int| 0 <= i < first.len() implies s[i] != LF by {
            assert(s[i] == first[i]);
        }
        assert(s[first.len() as int] == LF);
        lemma_index_of_from_is(s, LF, 0, first.len() as int);
        assert(s.subrange(0, first.len() as int) =~= first);
        lemma_strip_cr(first);
        lemma_lines_from_shift(head, joined(rest), 0);
        assert(lines_of(s) =~= lines + seq![blank]);
    }
}

/// Every line that a text is cut into is a line.
pub proof fn lemma_lines_are_lines(s: Seq<u8>, from: int)
    requires
        0 <= from <= s.len(),
    ensures
        lines_from(s, from).len() >= 1,
        forall|i: int| 0 <= i < lines_from(s, from).len() ==> is_line(#[trigger] lines_from(s, from)[i]),
    decreases s.len() - from,
{
    lemma_index_of_from(s, LF, from);
    let feed = index_of_from(s, LF, from);
    let raw = s.subrange(from, feed);
    lemma_strip_cr(raw);
    let line = strip_cr(raw);
    assert(is_line(line)) by {
        assert forall|i: int| 0 <= i < line.len() implies #[trigger] line[i] != LF by {
            assert(line[i] == raw.take(line.len() as int)[i]);
            assert(raw[i] == s[from + i]);
        }
    }
    if feed < s.len() {
        lemma_lines_are_lines(s, feed + 1);
        let rest = lines_from(s, feed + 1);
        assert forall|i: int| 0 <= i < lines_from(s, from).len() implies is_line(
            #[trigger] lines_from(s, from)[i],
        ) by {
            if i > 0 {
                assert(lines_from(s, from)[i] == rest[i - 1]);
            }
        }
    }
}

/// A timestamp of an instant on the timeline is a line of digits, colons
/// and a separator: it holds no space, and it is neither blank nor a number.
pub proof fn lemma_timestamp_bytes(t: int, dialect: Dialect)
    requires
        0 <= t,
    ensures
        timestamp_text(t, dialect).len() >= 2 + CLOCK_TAIL_LEN,
        forall|i: int|
            0 <= i < timestamp_text(t, dialect).len() ==> {
                let b = #[trigger] timestamp_text(t, dialect)[i];
                is_digit(b) || b == COLON || b == dialect.spec_separator()
            },
        is_digit(timestamp_text(t, dialect).last()),
        exists|i: int|
            0 <= i < timestamp_text(t, dialect).len() && timestamp_text(t, dialect)[i] == COLON,
{
    lemma_clock_text(t as nat, dialect);
    let s = clock_text(t as nat, dialect);
    let h = s.len() - CLOCK_TAIL_LEN;
    assert(s[h] == COLON);
    assert(is_digit(s[h + 9]));
}

/// Two texts without spaces with the arrow between them: the first space
/// of the line is that of the arrow, and the texts stand on its two sides.
pub proof fn lemma_arrow_between(a: Seq<u8>, b: Seq<u8>)
    requires
        a.len() > 0,
        b.len() > 0,
        forall|i: int| 0 <= i < a.len() ==> #[trigger] a[i] != SPACE && a[i] != LF,
        forall|i: int| 0 <= i < b.len() ==> #[trigger] b[i] != LF,
        b.last() != CR,
    ensures
        ({
            let line = a + arrow() + b;
            let k = a.len() as int;
            &&& index_of_from(line, SPACE, 0) == k
            &&& line.len() == k + ARROW_LEN + b.len()
            &&& line.subrange(0, k) == a
            &&& line.subrange(k, k + ARROW_LEN) == arrow()
            &&& line.subrange(k + ARROW_LEN, line.len() as int) == b
            &&& is_line(line)
            &&& !all_digits(line)
            &&& line[0] == a[0]
        }),
{
    let line = a + arrow() + b;
    let k = a.len() as int;
    assert forall|i: int| 0 <= i < k implies line[i] != SPACE by {
        assert(line[i] == a[i]);
    }
    assert(line[k] == arrow()[0]);
    lemma_index_of_from_is(line, SPACE, 0, k);
    assert(line.subrange(0, k) =~= a);
    assert(line.subrange(k, k + ARROW_LEN) =~= arrow());
    assert(line.subrange(k + ARROW_LEN, line.len() as int) =~= b);
    assert(!is_digit(line[k]));
    assert forall|i: int| 0 <= i < line.len() implies #[trigger] line[i] != LF by {
        if i < k {
            assert(line[i] == a[i]);
        } else if i < k + ARROW_LEN {
            assert(line[i] == arrow()[i - k]);
        } else {
            assert(line[i] == b[i - k - ARROW_LEN]);
        }
    }
    assert(line.last() == b.last());
}

/// A written timing line reads as the times that were written. It is a
/// line, it is not blank, and it is not the number of a cue.
pub proof fn lemma_timing_roundtrip(start: int, end: int, dialect: Dialect)
    requires
        0 <= start <= end <= i64::MAX,
    ensures
        timing_value(timing_text(start, end, dialect), dialect) == Some((start, end)),
        is_line(timing_text(start, end, dialect)),
        !is_blank(timing_text(start, end, dialect)),
        index_value(timing_text(start, end, dialect)) is None,
{
    let a = timestamp_text(start, dialect);
    let b = timestamp_text(end, dialect);
    let line = a + arrow() + b;
    assert(line == timing_text(start, end, dialect));
    lemma_timestamp_bytes(start, dialect);
    lemma_timestamp_bytes(end, dialect);
    assert(a.len() > 0 && b.len() > 0);
    assert(b.last() != CR);
    lemma_arrow_between(a, b);
    lemma_timestamp_roundtrip(start, dialect);
    lemma_timestamp_roundtrip(end, dialect);
    assert(!is_blank(line)) by {
        assert(line[0] == a[0]);
        assert(a[0] != SPACE && a[0] != crate::ascii::TAB);
    }
}

} // verus!
