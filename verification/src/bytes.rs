//! Searching in byte strings.

use vstd::prelude::*;

verus! {

pub open spec fn has_prefix(s: Seq<u8>, prefix: Seq<u8>) -> bool {
    prefix.len() <= s.len() && s.subrange(0, prefix.len() as int) == prefix
}

pub open spec fn has_suffix(s: Seq<u8>, suffix: Seq<u8>) -> bool {
    suffix.len() <= s.len() && s.subrange(s.len() - suffix.len(), s.len() as int) == suffix
}

/// The last index at which `b` stands.
pub open spec fn last_index_of(s: Seq<u8>, b: u8) -> Option<int>
    decreases s.len(),
{
    if s.len() == 0 {
        None
    } else if s.last() == b {
        Some(s.len() - 1)
    } else {
        last_index_of(s.drop_last(), b)
    }
}

/// The first index at or after `from` at which `b` stands; the length where
/// it stands nowhere.
pub open spec fn index_of_from(s: Seq<u8>, b: u8, from: int) -> int
    decreases s.len() - from,
{
    if 0 <= from < s.len() && s[from] != b {
        index_of_from(s, b, from + 1)
    } else {
        from
    }
}

pub proof fn lemma_index_of_from(s: Seq<u8>, b: u8, from: int)
    requires
        0 <= from <= s.len(),
    ensures
        from <= index_of_from(s, b, from) <= s.len(),
        forall|i: int| from <= i < index_of_from(s, b, from) ==> s[i] != b,
        index_of_from(s, b, from) < s.len() ==> s[index_of_from(s, b, from)] == b,
    decreases s.len() - from,
{
    if from < s.len() && s[from] != b {
        lemma_index_of_from(s, b, from + 1);
    }
}

/// The first `b` at or after `from` is at `to` when none stands before `to`.
pub proof fn lemma_index_of_from_is(s: Seq<u8>, b: u8, from: int, to: int)
    requires
        0 <= from <= to <= s.len(),
        forall|i: int| from <= i < to ==> s[i] != b,
        to < s.len() ==> s[to] == b,
    ensures
        index_of_from(s, b, from) == to,
    decreases to - from,
{
    if from < to {
        lemma_index_of_from_is(s, b, from + 1, to);
    }
}

pub fn starts_with(s: &[u8], prefix: &[u8]) -> (r: bool)
    ensures
        r == has_prefix(s@, prefix@),
{
    let n = prefix.len();
    if s.len() < n {
        return false;
    }
    let mut i: usize = 0;
    while i < n
        invariant
            i <= n,
            n == prefix@.len(),
            n <= s@.len(),
            forall|j: int| 0 <= j < i ==> s@[j] == prefix@[j],
        decreases n - i,
    {
        if s[i] != prefix[i] {
            proof {
                assert(s@.subrange(0, n as int)[i as int] != prefix@[i as int]);
            }
            return false;
        }
        i = i + 1;
    }
    proof {
        assert(s@.subrange(0, n as int) =~= prefix@);
    }
    true
}

pub fn ends_with(s: &[u8], suffix: &[u8]) -> (r: bool)
    ensures
        r == has_suffix(s@, suffix@),
{
    let n = suffix.len();
    let m = s.len();
    if m < n {
        return false;
    }
    let base = m - n;
    let mut i: usize = 0;
    while i < n
        invariant
            i <= n,
            n == suffix@.len(),
            m == s@.len(),
            base == m - n,
            forall|j: int| 0 <= j < i ==> s@[base + j] == suffix@[j],
        decreases n - i,
    {
        if s[base + i] != suffix[i] {
            proof {
                assert(s@.subrange(m - n, m as int)[i as int] != suffix@[i as int]);
            }
            return false;
        }
        i = i + 1;
    }
    proof {
        assert(s@.subrange(m - n, m as int) =~= suffix@);
    }
    true
}

pub fn rfind(s: &[u8], b: u8) -> (r: Option<usize>)
    ensures
        match r {
            Some(k) => last_index_of(s@, b) == Some(k as int) && k < s@.len(),
            None => last_index_of(s@, b) is None,
        },
{
    let mut i: usize = s.len();
    proof {
        assert(s@.take(i as int) =~= s@);
    }
    while i > 0
        invariant
            i <= s@.len(),
            last_index_of(s@, b) == last_index_of(s@.take(i as int), b),
        decreases i,
    {
        if s[i - 1] == b {
            return Some(i - 1);
        }
        proof {
            assert(s@.take(i as int).drop_last() =~= s@.take(i - 1));
        }
        i = i - 1;
    }
    None
}

/// The first index at or after `from` at which `b` stands, or the length.
pub fn find_from(s: &[u8], b: u8, from: usize) -> (r: usize)
    requires
        from <= s@.len(),
    ensures
        r == index_of_from(s@, b, from as int),
        from <= r <= s@.len(),
{
    let mut i: usize = from;
    while i < s.len() && s[i] != b
        invariant
            from <= i <= s@.len(),
            index_of_from(s@, b, from as int) == index_of_from(s@, b, i as int),
        decreases s@.len() - i,
    {
        i = i + 1;
    }
    i
}

} // verus!
