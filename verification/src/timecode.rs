//! An instant on the timeline of a subtitle file, in milliseconds, and its
//! two writings: `hh:mm:ss,mmm` in SubRip and `hh:mm:ss.mmm` in WebVTT.

use vstd::prelude::*;
use vstd::slice::slice_subrange;
use crate::ascii::{COLON, MINUS};
use crate::dialect::Dialect;
use crate::error::SubError;
use crate::text::{
    all_digits, digits_value, is_digit, lemma_decimal_small, lemma_padded, padded, parse_number,
    push_padded,
};

verus! {

pub const MS_PER_SECOND: i64 = 1000;

pub const MS_PER_MINUTE: i64 = 60000;

pub const MS_PER_HOUR: i64 = 3600000;

/// The length of what follows the hours: `:mm:ss`, a separator and `mmm`.
pub const CLOCK_TAIL_LEN: usize = 10;

/// An instant, in milliseconds from the start of the timeline. It may lie
/// before the start.
#[derive(Clone, Copy, Debug, PartialEq, Eq, Structural)]
pub struct TimeCode {
    pub total_milliseconds: i64,
}

impl View for TimeCode {
    type V = int;

    open spec fn view(&self) -> int {
        self.total_milliseconds as int
    }
}

/// The instant that a timestamp denotes.
///
/// A timestamp is two or more digits of hours, a colon, two digits of
/// minutes, a colon, two digits of seconds, the separator of the dialect and
/// three digits of milliseconds. Minutes and seconds are below 60, and the
/// instant fits in 64 bits.
pub open spec fn timestamp_value(s: Seq<u8>, dialect: Dialect) -> Option<int> {
    let n = s.len() as int;
    let h = n - CLOCK_TAIL_LEN;
    if h >= 2 && all_digits(s.subrange(0, h)) && s[h] == COLON && is_digit(s[h + 1]) && is_digit(
        s[h + 2],
    ) && s[h + 3] == COLON && is_digit(s[h + 4]) && is_digit(s[h + 5]) && s[h + 6]
        == dialect.spec_separator() && is_digit(s[h + 7]) && is_digit(s[h + 8]) && is_digit(
        s[h + 9],
    ) {
        let hours = digits_value(s.subrange(0, h));
        let minutes = digits_value(s.subrange(h + 1, h + 3));
        let seconds = digits_value(s.subrange(h + 4, h + 6));
        let millis = digits_value(s.subrange(h + 7, n));
        let total = hours * MS_PER_HOUR + minutes * MS_PER_MINUTE + seconds * MS_PER_SECOND
            + millis;
        if minutes < 60 && seconds < 60 && total <= i64::MAX {
            Some(total)
        } else {
            None
        }
    } else {
        None
    }
}

/// The timestamp of an instant that is not before the start of the timeline.
pub open spec fn clock_text(t: nat, dialect: Dialect) -> Seq<u8> {
    padded(t / (MS_PER_HOUR as nat), 2) + seq![COLON] + padded(
        t / (MS_PER_MINUTE as nat) % 60,
        2,
    ) + seq![COLON] + padded(t / (MS_PER_SECOND as nat) % 60, 2) + seq![dialect.spec_separator()]
        + padded(t % (MS_PER_SECOND as nat), 3)
}

/// The timestamp of an instant: every field filled with zeros to its width,
/// the hours as wide as they need. An instant before the start is written
/// as a minus sign and its distance from the start.
pub open spec fn timestamp_text(t: int, dialect: Dialect) -> Seq<u8> {
    if t < 0 {
        seq![MINUS] + clock_text((-t) as nat, dialect)
    } else {
        clock_text(t as nat, dialect)
    }
}

/// Hours, minutes and seconds as one amount: each part counts sixty times
/// the part behind it.
pub open spec fn weighted(parts: Seq<i64>) -> int
    decreases parts.len(),
{
    if parts.len() == 0 {
        0
    } else {
        weighted(parts.drop_last()) * 60 + parts.last()
    }
}

/// The instant that a time of day gives. The parts are hours, minutes and
/// seconds, or minutes and seconds, or seconds alone, each in thousandths of
/// its unit. More parts, none, or an instant beyond 64 bits give nothing.
pub open spec fn parts_value(parts: Seq<i64>) -> Option<int> {
    if 1 <= parts.len() <= 3 && i64::MIN <= weighted(parts) <= i64::MAX {
        Some(weighted(parts))
    } else {
        None
    }
}

/// The bytes of a timestamp, one by one.
pub proof fn lemma_clock_text(t: nat, dialect: Dialect)
    ensures
        ({
            let s = clock_text(t, dialect);
            let hours = padded(t / (MS_PER_HOUR as nat), 2);
            let h = hours.len() as int;
            &&& h >= 2
            &&& s.len() == h + CLOCK_TAIL_LEN
            &&& s.subrange(0, h) == hours
            &&& s[h] == COLON
            &&& s.subrange(h + 1, h + 3) == padded(t / (MS_PER_MINUTE as nat) % 60, 2)
            &&& s[h + 3] == COLON
            &&& s.subrange(h + 4, h + 6) == padded(t / (MS_PER_SECOND as nat) % 60, 2)
            &&& s[h + 6] == dialect.spec_separator()
            &&& s.subrange(h + 7, h + 10) == padded(t % (MS_PER_SECOND as nat), 3)
            &&& forall|i: int|
                0 <= i < s.len() && i != h && i != h + 3 && i != h + 6 ==> is_digit(#[trigger] s[i])
        }),
{
    let s = clock_text(t, dialect);
    let hours = padded(t / (MS_PER_HOUR as nat), 2);
    let minutes = padded(t / (MS_PER_MINUTE as nat) % 60, 2);
    let seconds = padded(t / (MS_PER_SECOND as nat) % 60, 2);
    let millis = padded(t % (MS_PER_SECOND as nat), 3);
    let h = hours.len() as int;
    lemma_padded(t / (MS_PER_HOUR as nat), 2);
    lemma_padded(t / (MS_PER_MINUTE as nat) % 60, 2);
    lemma_padded(t / (MS_PER_SECOND as nat) % 60, 2);
    lemma_padded(t % (MS_PER_SECOND as nat), 3);
    lemma_decimal_small(t / (MS_PER_MINUTE as nat) % 60);
    lemma_decimal_small(t / (MS_PER_SECOND as nat) % 60);
    lemma_decimal_small(t % (MS_PER_SECOND as nat));
    assert(minutes.len() == 2);
    assert(seconds.len() == 2);
    assert(millis.len() == 3);
    assert(s.subrange(0, h) =~= hours);
    assert(s.subrange(h + 1, h + 3) =~= minutes);
    assert(s.subrange(h + 4, h + 6) =~= seconds);
    assert(s.subrange(h + 7, h + 10) =~= millis);
    assert forall|i: int|
        0 <= i < s.len() && i != h && i != h + 3 && i != h + 6 implies is_digit(
        #[trigger] s[i],
    ) by {
        if i < h {
            assert(s[i] == hours[i]);
        } else if i < h + 3 {
            assert(s[i] == minutes[i - h - 1]);
        } else if i < h + 6 {
            assert(s[i] == seconds[i - h - 4]);
        } else {
            assert(s[i] == millis[i - h - 7]);
        }
    }
}

/// Reading the timestamp of an instant gives the instant back.
pub proof fn lemma_timestamp_roundtrip(t: int, dialect: Dialect)
    requires
        0 <= t <= i64::MAX,
    ensures
        timestamp_value(timestamp_text(t, dialect), dialect) == Some(t),
{
    let n = t as nat;
    let s = clock_text(n, dialect);
    lemma_clock_text(n, dialect);
    let h = s.len() - CLOCK_TAIL_LEN;
    lemma_padded(n / (MS_PER_HOUR as nat), 2);
    lemma_padded(n / (MS_PER_MINUTE as nat) % 60, 2);
    lemma_padded(n / (MS_PER_SECOND as nat) % 60, 2);
    lemma_padded(n % (MS_PER_SECOND as nat), 3);
    assert(is_digit(s[h + 1]));
    assert(is_digit(s[h + 2]));
    assert(is_digit(s[h + 4]));
    assert(is_digit(s[h + 5]));
    assert(is_digit(s[h + 7]));
    assert(is_digit(s[h + 8]));
    assert(is_digit(s[h + 9]));
    assert(s.subrange(h + 7, s.len() as int) == s.subrange(h + 7, h + 10));
    let hours = n / (MS_PER_HOUR as nat);
    let minutes = n / (MS_PER_MINUTE as nat) % 60;
    let seconds = n / (MS_PER_SECOND as nat) % 60;
    let millis = n % (MS_PER_SECOND as nat);
    assert(hours * MS_PER_HOUR + minutes * MS_PER_MINUTE + seconds * MS_PER_SECOND + millis == n)
        by {
        let q1 = n / 1000;
        let q2 = n / 60000;
        let q3 = n / 3600000;
        assert(n == q1 * 1000 + n % 1000);
        assert(q2 == q1 / 60);
        assert(q3 == q2 / 60);
        assert(q1 == q2 * 60 + q1 % 60);
        assert(q2 == q3 * 60 + q2 % 60);
    }
}

fn two_digits(s: &[u8], at: usize) -> (r: Option<u64>)
    requires
        at + 2 <= s@.len(),
    ensures
        match r {
            Some(v) => is_digit(s@[at as int]) && is_digit(s@[at + 1]) && v == digits_value(
                s@.subrange(at as int, at + 2),
            ) && v < 100,
            None => !is_digit(s@[at as int]) || !is_digit(s@[at + 1]),
        },
{
    let n = s.len();
    assert(at + 2 <= n);
    let r = parse_number(slice_subrange(s, at, at + 2));
    proof {
        let part = s@.subrange(at as int, at + 2);
        assert(part[0] == s@[at as int]);
        assert(part[1] == s@[at + 1]);
        if is_digit(s@[at as int]) && is_digit(s@[at + 1]) {
            assert(part.drop_last().drop_last() =~= Seq::<u8>::empty());
            reveal_with_fuel(digits_value, 3);
            assert(digits_value(part) < 100);
        }
    }
    r
}

fn three_digits(s: &[u8], at: usize) -> (r: Option<u64>)
    requires
        at + 3 <= s@.len(),
    ensures
        match r {
            Some(v) => is_digit(s@[at as int]) && is_digit(s@[at + 1]) && is_digit(s@[at + 2]) && v
                == digits_value(s@.subrange(at as int, at + 3)) && v < 1000,
            None => !is_digit(s@[at as int]) || !is_digit(s@[at + 1]) || !is_digit(s@[at + 2]),
        },
{
    let n = s.len();
    assert(at + 3 <= n);
    let r = parse_number(slice_subrange(s, at, at + 3));
    proof {
        let part = s@.subrange(at as int, at + 3);
        assert(part[0] == s@[at as int]);
        assert(part[1] == s@[at + 1]);
        assert(part[2] == s@[at + 2]);
        if is_digit(s@[at as int]) && is_digit(s@[at + 1]) && is_digit(s@[at + 2]) {
            assert(part.drop_last().drop_last().drop_last() =~= Seq::<u8>::empty());
            reveal_with_fuel(digits_value, 4);
            assert(digits_value(part) < 1000);
        }
    }
    r
}

impl TimeCode {
    /// Whether the instant `delta_ms` milliseconds later fits in 64 bits.
    pub open spec fn can_shift(self, delta_ms: i64) -> bool {
        i64::MIN <= self@ + delta_ms <= i64::MAX
    }

    /// The instant of a time of day that is given as hours, minutes and
    /// seconds, the last part being the seconds, each in thousandths of its
    /// unit.
    pub fn from_parts(parts: &[i64]) -> (r: Option<TimeCode>)
        ensures
            match r {
                Some(t) => parts_value(parts@) == Some(t@),
                None => parts_value(parts@) is None,
            },
    {
        let n = parts.len();
        if n < 1 || n > 3 {
            return None;
        }
        let mut total: i128 = 0;
        let mut i: usize = 0;
        while i < n
            invariant
                i <= n <= 3,
                n == parts@.len(),
                total == weighted(parts@.take(i as int)),
                -0x8000_0000_0000_0000 * 3721 <= total <= 0x8000_0000_0000_0000 * 3721,
                i <= 1 ==> -0x8000_0000_0000_0000 <= total <= 0x8000_0000_0000_0000,
                i <= 2 ==> -0x8000_0000_0000_0000 * 61 <= total <= 0x8000_0000_0000_0000 * 61,
            decreases n - i,
        {
            proof {
                assert(parts@.take(i + 1).drop_last() =~= parts@.take(i as int));
            }
            total = total * 60 + parts[i] as i128;
            i = i + 1;
        }
        proof {
            assert(parts@.take(n as int) =~= parts@);
        }
        if total < i64::MIN as i128 || total > i64::MAX as i128 {
            return None;
        }
        Some(TimeCode { total_milliseconds: total as i64 })
    }

    /// Reads a timestamp of the given dialect.
    pub fn parse(text: &[u8], dialect: Dialect) -> (r: Result<TimeCode, SubError>)
        ensures
            match r {
                Ok(t) => timestamp_value(text@, dialect) == Some(t@),
                Err(e) => e == SubError::MalformedTimestamp && timestamp_value(text@, dialect)
                    is None,
            },
    {
        let n = text.len();
        if n < CLOCK_TAIL_LEN + 2 {
            return Err(SubError::MalformedTimestamp);
        }
        let h = n - CLOCK_TAIL_LEN;
        if text[h] != COLON || text[h + 3] != COLON || text[h + 6] != dialect.separator() {
            return Err(SubError::MalformedTimestamp);
        }
        let minutes = match two_digits(text, h + 1) {
            Some(v) => v,
            None => {
                return Err(SubError::MalformedTimestamp);
            },
        };
        let seconds = match two_digits(text, h + 4) {
            Some(v) => v,
            None => {
                return Err(SubError::MalformedTimestamp);
            },
        };
        let millis = match three_digits(text, h + 7) {
            Some(v) => v,
            None => {
                return Err(SubError::MalformedTimestamp);
            },
        };
        let hours = match parse_number(slice_subrange(text, 0, h)) {
            Some(v) => v,
            None => {
                return Err(SubError::MalformedTimestamp);
            },
        };
        if minutes >= 60 || seconds >= 60 {
            return Err(SubError::MalformedTimestamp);
        }
        let total: u128 = (hours as u128) * (MS_PER_HOUR as u128) + (minutes as u128) * (
        MS_PER_MINUTE as u128) + (seconds as u128) * (MS_PER_SECOND as u128) + (millis as u128);
        if total > i64::MAX as u128 {
            return Err(SubError::MalformedTimestamp);
        }
        Ok(TimeCode { total_milliseconds: total as i64 })
    }

    /// Writes the timestamp of this instant in the given dialect.
    pub fn format(self, dialect: Dialect) -> (r: Vec<u8>)
        ensures
            r@ == timestamp_text(self@, dialect),
    {
        let mut out: Vec<u8> = Vec::new();
        self.write(&mut out, dialect);
        out
    }

    /// Appends the timestamp of this instant in the given dialect.
    pub fn write(self, out: &mut Vec<u8>, dialect: Dialect)
        ensures
            final(out)@ == old(out)@ + timestamp_text(self@, dialect),
    {
        let t = self.total_milliseconds;
        let m: u64 = if t >= 0 {
            t as u64
        } else {
            out.push(MINUS);
            (-(t + 1)) as u64 + 1
        };
        let ghost head = out@;
        push_padded(out, m / (MS_PER_HOUR as u64), 2);
        out.push(COLON);
        push_padded(out, m / (MS_PER_MINUTE as u64) % 60, 2);
        out.push(COLON);
        push_padded(out, m / (MS_PER_SECOND as u64) % 60, 2);
        out.push(dialect.separator());
        push_padded(out, m % (MS_PER_SECOND as u64), 3);
        proof {
            assert(out@ =~= head + clock_text(m as nat, dialect));
            if t < 0 {
                assert(head =~= old(out)@ + seq![MINUS]);
                assert(out@ =~= old(out)@ + (seq![MINUS] + clock_text(m as nat, dialect)));
            }
        }
    }

    /// The instant `delta_ms` milliseconds later, or earlier where `delta_ms`
    /// is negative. Nothing is clamped.
    pub fn shift(self, delta_ms: i64) -> (r: TimeCode)
        requires
            self.can_shift(delta_ms),
        ensures
            r@ == self@ + delta_ms,
    {
        TimeCode { total_milliseconds: self.total_milliseconds + delta_ms }
    }
}

} // verus!
