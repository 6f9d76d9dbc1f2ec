//! Names the shifted file after the file it came from. A name that already
//! bears a tag has the tag replaced, with the two amounts added up, so that
//! shifting a shifted file never stacks a second tag.

use vstd::prelude::*;
use vstd::slice::slice_subrange;
use crate::error::SubError;
use crate::matcher::{find_pattern, leftmost_match, pattern_compiles, span_of};
use crate::tag::{
    push_tag, read_remainder, read_tag, round, scan_tag, tag_end_at, tag_text, tag_total,
};
use crate::ascii::MINUS;

verus! {

/// What the matcher is asked to find: a tag, its digits being whatever the
/// matcher counts as decimal digits.
pub const TAG_PATTERN: &'static str = r"__\[[+-]\d+\.\d+_Sec[+-]\]";

/// The length of the extension that a name ends with, dot included.
pub const EXTENSION_LEN: usize = 4;

/// The name that follows `name` after a shift by `offset` hundredths of a
/// second, where the matcher found a tag at `found` or, with `None`, found
/// none.
///
/// The last four bytes are the extension. The new tag stands between the
/// stem and the extension. Without an old tag the stem is all before the
/// extension and the tag holds `offset`; with one the stem is all before the
/// old tag, and the tag holds the old amount plus `offset`, to the nearest
/// hundredth.
pub open spec fn tagged_name(
    name: Seq<u8>,
    found: Option<(int, int)>,
    offset: int,
    partial: bool,
) -> Result<Seq<u8>, SubError> {
    if name.len() < EXTENSION_LEN {
        Err(SubError::InvalidPath)
    } else {
        let cut = name.len() - EXTENSION_LEN;
        match found {
            Some((start, end)) => if tag_end_at(name, start) != Some(end) {
                Err(SubError::MalformedTag)
            } else {
                compose(name, start, tag_total(name, start, offset), partial)
            },
            None => compose(name, cut, offset, partial),
        }
    }
}

/// The stem that ends at `stem_end`, a tag for `total` and the extension,
/// where `total` fits in 64 bits.
pub open spec fn compose(name: Seq<u8>, stem_end: int, total: int, partial: bool) -> Result<
    Seq<u8>,
    SubError,
> {
    if i64::MIN <= total <= i64::MAX {
        Ok(
            name.subrange(0, stem_end) + tag_text(total, partial) + name.subrange(
                name.len() - EXTENSION_LEN,
                name.len() as int,
            ),
        )
    } else {
        Err(SubError::OutOfRange)
    }
}

/// The name that follows `name` as the matcher decides it: what
/// `tagged_name` makes of the matcher's answer, or `SubError::Matcher`
/// where the matcher does not take the tag pattern.
pub open spec fn matched_name(name: Seq<u8>, offset: int, partial: bool) -> Result<
    Seq<u8>,
    SubError,
> {
    if pattern_compiles(TAG_PATTERN@) {
        tagged_name(name, leftmost_match(TAG_PATTERN@, name), offset, partial)
    } else {
        Err(SubError::Matcher)
    }
}

/// Builds the next name from what the matcher found in `name`.
pub fn retag(name: &[u8], found: Option<(usize, usize)>, offset: i64, partial: bool) -> (r: Result<
    Vec<u8>,
    SubError,
>)
    ensures
        match r {
            Ok(out) => tagged_name(name@, span_of(found), offset as int, partial) == Ok::<
                Seq<u8>,
                SubError,
            >(out@),
            Err(e) => tagged_name(name@, span_of(found), offset as int, partial) == Err::<
                Seq<u8>,
                SubError,
            >(e),
        },
{
    let n = name.len();
    if n < EXTENSION_LEN {
        return Err(SubError::InvalidPath);
    }
    let cut = n - EXTENSION_LEN;
    let mut stem_end = cut;
    let mut total: i128 = offset as i128;
    if let Some((start, end)) = found {
        match scan_tag(name, start) {
            Some(e) => {
                if e != end {
                    return Err(SubError::MalformedTag);
                }
            },
            None => {
                return Err(SubError::MalformedTag);
            },
        }
        match read_tag(name, start) {
            Some(v) => {
                total = round(
                    v + offset as i128,
                    name[start + 3] == MINUS,
                    read_remainder(name, start),
                );
            },
            None => {
                return Err(SubError::OutOfRange);
            },
        }
        stem_end = start;
    }
    if total < i64::MIN as i128 || total > i64::MAX as i128 {
        return Err(SubError::OutOfRange);
    }
    let mut out: Vec<u8> = Vec::new();
    out.extend_from_slice(slice_subrange(name, 0, stem_end));
    push_tag(&mut out, total as i64, partial);
    out.extend_from_slice(slice_subrange(name, cut, n));
    proof {
        assert(out@ =~= name@.subrange(0, stem_end as int) + tag_text(total as int, partial)
            + name@.subrange(cut as int, n as int));
        assert(compose(name@, stem_end as int, total as int, partial) == Ok::<Seq<u8>, SubError>(
            out@,
        ));
    }
    Ok(out)
}

/// Names the output of a shift of the file `name` by `offset` hundredths of
/// a second; `partial` tells that only a part of the file is shifted.
///
/// The matcher decides whether `name` bears a tag and where. The result is
/// what `retag` makes of its answer; where the matcher does not take the
/// tag pattern, it is `SubError::Matcher`.
pub fn smart_name(name: &[u8], offset: i64, partial: bool) -> (r: Result<Vec<u8>, SubError>)
    ensures
        match r {
            Ok(out) => matched_name(name@, offset as int, partial) == Ok::<Seq<u8>, SubError>(
                out@,
            ),
            Err(e) => matched_name(name@, offset as int, partial) == Err::<Seq<u8>, SubError>(e),
        },
        pattern_compiles(TAG_PATTERN@) ==> match r {
            Ok(out) => tagged_name(
                name@,
                leftmost_match(TAG_PATTERN@, name@),
                offset as int,
                partial,
            ) == Ok::<Seq<u8>, SubError>(out@),
            Err(e) => tagged_name(
                name@,
                leftmost_match(TAG_PATTERN@, name@),
                offset as int,
                partial,
            ) == Err::<Seq<u8>, SubError>(e),
        },
        !pattern_compiles(TAG_PATTERN@) ==> r == Err::<Vec<u8>, SubError>(SubError::Matcher),
{
    match find_pattern(TAG_PATTERN, name) {
        Ok(found) => retag(name, found, offset, partial),
        Err(_) => Err(SubError::Matcher),
    }
}

} // verus!
