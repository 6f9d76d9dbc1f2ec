//! The pattern matcher that looks for a name tag in a file name.

use vstd::prelude::*;

verus! {

#[verifier::external_type_specification]
#[verifier::external_body]
pub struct ExPatternError(regex::Error);

/// Whether `regex::bytes::Regex::new` accepts a pattern.
pub uninterp spec fn pattern_compiles(pattern: Seq<char>) -> bool;

/// The span of the leftmost match that `regex::bytes::Regex::find` reports
/// for a compiled pattern in a haystack, as byte offsets: `None` where the
/// pattern matches nowhere.
pub uninterp spec fn leftmost_match(pattern: Seq<char>, haystack: Seq<u8>) -> Option<(int, int)>;

/// A span of machine offsets as a span of integers.
pub open spec fn span_of(found: Option<(usize, usize)>) -> Option<(int, int)> {
    match found {
        Some((start, end)) => Some((start as int, end as int)),
        None => None,
    }
}

/// Compiles `pattern` with `regex::bytes::Regex::new` and searches `haystack`
/// with `regex::bytes::Regex::find`. Not proved: that the call fails
/// exactly where the pattern does not compile, which `pattern_compiles`
/// names; that a pattern which compiles yields the span named
/// `leftmost_match`; and that the span lies inside the haystack with its
/// start not after its end.
#[verifier::external_body]
pub(crate) fn find_pattern(pattern: &str, haystack: &[u8]) -> (r: Result<
    Option<(usize, usize)>,
    regex::Error,
>)
    ensures
        r is Ok <==> pattern_compiles(pattern@),
        r matches Ok(found) ==> span_of(found) == leftmost_match(pattern@, haystack@),
        r matches Ok(Some((start, end))) ==> start <= end <= haystack@.len(),
{
    let re = regex::bytes::Regex::new(pattern)?;
    match re.find(haystack) {
        Some(m) => Ok(Some((m.start(), m.end()))),
        None => Ok(None),
    }
}

} // verus!
