//! Checks of the arguments that come from the command line, each on the
//! UTF-8 bytes of the argument.

use vstd::prelude::*;
use vstd::slice::slice_subrange;
use vstd::string::StringSliceAdditionalSpecFns;
use crate::ascii::{COLON, DOT, LOWER_E};
use crate::bytes::{find_from, index_of_from};
use crate::dialect::{dialect_of_name, Dialect};
use crate::tag::{is_sign, sign};
use crate::text::{digits_end, scan_digits};

verus! {

pub const EXTENSION_MESSAGE: &'static str =
    "incorrect file extension\n\nOnly \u{001b}[32m.srt\u{001b}[0m or \u{001b}[32m.vtt\u{001b}[0m files are allowed.";

pub const NUMBER_MESSAGE: &'static str = "should be a number";

pub const TIMING_MESSAGE: &'static str =
    "incorrect time formatting\n\nUse ':' to separate hours, minutes and seconds, like so:\n    \u{001b}[32mhh:mm:ss\u{001b}[0m to specify hours, minutes and seconds\n       \u{001b}[32mmm:ss\u{001b}[0m to only specify minutes and seconds\n          \u{001b}[32mss\u{001b}[0m to only specify seconds";

/// A time has hours, minutes and seconds at most.
pub const MAX_TIME_PARTS: usize = 3;

pub const WORD_INF: &'static str = "inf";

pub const WORD_INFINITY: &'static str = "infinity";

pub const WORD_NAN: &'static str = "nan";

/// The UTF-8 bytes of a text.
pub open spec fn bytes_of(text: Seq<char>) -> Seq<u8> {
    vstd::utf8::encode_utf8(text)
}

/// An ASCII capital as its small letter, any other byte as itself.
pub open spec fn lower(b: u8) -> u8 {
    if 65 <= b && b <= 90 {
        (b + 32) as u8
    } else {
        b
    }
}

/// `s` is `word` but for the case of its letters; `word` is in small letters.
pub open spec fn is_word(s: Seq<u8>, word: Seq<u8>) -> bool {
    s.len() == word.len() && forall|i: int| 0 <= i < s.len() ==> lower(#[trigger] s[i]) == word[i]
}

/// An exponent: `e` or `E`, an optional sign, one digit or more.
pub open spec fn is_exponent(s: Seq<u8>, from: int) -> bool {
    let digits = if from + 1 < s.len() && is_sign(s[from + 1]) {
        from + 2
    } else {
        from + 1
    };
    0 <= from < s.len() && lower(s[from]) == LOWER_E && digits < s.len() && digits_end(s, digits)
        == s.len()
}

/// A number from `from` on: digits with at most one dot among them and at
/// least one digit, then an optional exponent.
pub open spec fn is_number(s: Seq<u8>, from: int) -> bool {
    let whole_end = digits_end(s, from);
    let has_dot = whole_end < s.len() && s[whole_end] == DOT;
    let mantissa_end = if has_dot {
        digits_end(s, whole_end + 1)
    } else {
        whole_end
    };
    let digits = if has_dot {
        mantissa_end - from - 1
    } else {
        mantissa_end - from
    };
    0 <= from && digits >= 1 && (mantissa_end == s.len() || is_exponent(s, mantissa_end))
}

/// The texts that the standard library reads as a floating-point number: an
/// optional sign, then `inf`, `infinity` or `nan` in any case of letters,
/// or a number.
pub open spec fn is_float_text(s: Seq<u8>) -> bool {
    let from: int = if s.len() > 0 && is_sign(s[0]) {
        1
    } else {
        0
    };
    let body = s.subrange(from, s.len() as int);
    is_word(body, WORD_INF.spec_bytes()) || is_word(body, WORD_INFINITY.spec_bytes()) || is_word(
        body,
        WORD_NAN.spec_bytes(),
    ) || is_number(s, from)
}

/// From `from` on there are at most `parts` parts with colons between
/// them, and every part is a floating-point number.
pub open spec fn is_timing_from(s: Seq<u8>, from: int, parts: int) -> bool
    decreases s.len() - from,
{
    let colon = index_of_from(s, COLON, from);
    if 0 <= from <= colon <= s.len() && parts >= 1 {
        is_float_text(s.subrange(from, colon)) && (colon < s.len() ==> is_timing_from(
            s,
            colon + 1,
            parts - 1,
        ))
    } else {
        false
    }
}

/// A time as the command line takes it: hours, minutes and seconds, or
/// minutes and seconds, or seconds alone, with colons between them, each a
/// floating-point number.
pub open spec fn is_timing_text(s: Seq<u8>) -> bool {
    is_timing_from(s, 0, MAX_TIME_PARTS as int)
}

pub fn to_lower(b: u8) -> (r: u8)
    ensures
        r == lower(b),
{
    if 65 <= b && b <= 90 {
        b + 32
    } else {
        b
    }
}

pub fn matches_word(s: &[u8], word: &[u8]) -> (r: bool)
    ensures
        r == is_word(s@, word@),
{
    if s.len() != word.len() {
        return false;
    }
    let mut i: usize = 0;
    while i < s.len()
        invariant
            i <= s@.len(),
            s@.len() == word@.len(),
            forall|j: int| 0 <= j < i ==> lower(#[trigger] s@[j]) == word@[j],
        decreases s@.len() - i,
    {
        if to_lower(s[i]) != word[i] {
            return false;
        }
        i = i + 1;
    }
    true
}

fn exponent_at(s: &[u8], from: usize) -> (r: bool)
    requires
        from < s@.len(),
    ensures
        r == is_exponent(s@, from as int),
{
    let n = s.len();
    if to_lower(s[from]) != LOWER_E {
        return false;
    }
    let digits = if from + 1 < n && sign(s[from + 1]) {
        from + 2
    } else {
        from + 1
    };
    if digits >= n {
        return false;
    }
    scan_digits(s, digits) == n
}

fn number_at(s: &[u8], from: usize) -> (r: bool)
    requires
        from <= s@.len(),
    ensures
        r == is_number(s@, from as int),
{
    let n = s.len();
    let whole_end = scan_digits(s, from);
    let has_dot = whole_end < n && s[whole_end] == DOT;
    let mantissa_end = if has_dot {
        scan_digits(s, whole_end + 1)
    } else {
        whole_end
    };
    let digits = if has_dot {
        mantissa_end - from - 1
    } else {
        mantissa_end - from
    };
    if digits < 1 {
        return false;
    }
    if mantissa_end == n {
        return true;
    }
    exponent_at(s, mantissa_end)
}

/// Tells whether a byte string reads as a floating-point number.
pub fn float_text(s: &[u8]) -> (r: bool)
    ensures
        r == is_float_text(s@),
{
    let n = s.len();
    let from: usize = if n > 0 && sign(s[0]) {
        1
    } else {
        0
    };
    let body = slice_subrange(s, from, n);
    matches_word(body, WORD_INF.as_bytes()) || matches_word(body, WORD_INFINITY.as_bytes())
        || matches_word(body, WORD_NAN.as_bytes()) || number_at(s, from)
}

/// Tells whether a byte string is one to three floating-point numbers with
/// colons between.
pub fn timing_text(s: &[u8]) -> (r: bool)
    ensures
        r == is_timing_text(s@),
{
    let n = s.len();
    let mut from: usize = 0;
    let mut parts: usize = MAX_TIME_PARTS;
    loop
        invariant
            from <= n,
            n == s@.len(),
            parts <= MAX_TIME_PARTS,
            is_timing_text(s@) == is_timing_from(s@, from as int, parts as int),
        decreases n - from,
    {
        if parts == 0 {
            return false;
        }
        parts = parts - 1;
        let colon = find_from(s, COLON, from);
        if !float_text(slice_subrange(s, from, colon)) {
            return false;
        }
        if colon >= n {
            return true;
        }
        from = colon + 1;
    }
}

/// Accepts a file name that ends in `.srt` or `.vtt`.
pub fn is_srt_or_vtt(input: String) -> (r: Result<(), String>)
    ensures
        r is Ok <==> dialect_of_name(bytes_of(input@)) is Some,
        r matches Err(message) ==> message@ == EXTENSION_MESSAGE@,
{
    match Dialect::of_name(input.as_str().as_bytes()) {
        Some(_) => Ok(()),
        None => Err(EXTENSION_MESSAGE.to_owned()),
    }
}

/// Accepts what reads as a floating-point number.
pub fn is_float(seconds: String) -> (r: Result<(), String>)
    ensures
        r is Ok <==> is_float_text(bytes_of(seconds@)),
        r matches Err(message) ==> message@ == NUMBER_MESSAGE@,
{
    if float_text(seconds.as_str().as_bytes()) {
        Ok(())
    } else {
        Err(NUMBER_MESSAGE.to_owned())
    }
}

/// Accepts a time: hours, minutes and seconds with colons between them,
/// or minutes and seconds, or seconds alone, each of which reads as a
/// floating-point number.
pub fn is_timing(time_string: String) -> (r: Result<(), String>)
    ensures
        r is Ok <==> is_timing_text(bytes_of(time_string@)),
        r matches Err(message) ==> message@ == TIMING_MESSAGE@,
{
    if timing_text(time_string.as_str().as_bytes()) {
        Ok(())
    } else {
        Err(TIMING_MESSAGE.to_owned())
    }
}

} // verus!
