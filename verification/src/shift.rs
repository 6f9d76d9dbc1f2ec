//! Shifts the cues of a document in time.
//!
//! A cue is moved where it starts inside the window, or where there is no
//! window. A moved cue that would end before the start of the timeline is
//! dropped; one that would only start before it starts at zero instead.
//! The cues that stay keep their order and are numbered anew from one.

use vstd::prelude::*;
use crate::cue::{cues_view, Cue, CueView, Document};
use crate::error::SubError;
use crate::timecode::TimeCode;

verus! {

/// The part of the timeline whose cues a shift moves, both ends included.
/// An end that is `None` is open.
#[derive(Clone, Copy, Debug)]
pub struct Window {
    pub start: Option<TimeCode>,
    pub stop: Option<TimeCode>,
}

pub struct WindowView {
    pub start: Option<int>,
    pub stop: Option<int>,
}

impl View for Window {
    type V = WindowView;

    open spec fn view(&self) -> WindowView {
        WindowView {
            start: match self.start {
                Some(t) => Some(t@),
                None => None,
            },
            stop: match self.stop {
                Some(t) => Some(t@),
                None => None,
            },
        }
    }
}

impl Window {
    /// The window that holds every cue.
    pub fn all() -> (w: Window)
        ensures
            w@ == (WindowView { start: None, stop: None }),
    {
        Window { start: None, stop: None }
    }

    /// Whether a cue that starts at `start` is moved.
    pub fn holds(&self, start: TimeCode) -> (r: bool)
        ensures
            r == eligible(start@, self@),
    {
        let after = match self.start {
            Some(t) => t.total_milliseconds <= start.total_milliseconds,
            None => true,
        };
        let before = match self.stop {
            Some(t) => start.total_milliseconds <= t.total_milliseconds,
            None => true,
        };
        after && before
    }
}

/// A cue is moved where its start lies in the window.
pub open spec fn eligible(start: int, window: WindowView) -> bool {
    (window.start matches Some(from) ==> from <= start) && (window.stop matches Some(to) ==> start
        <= to)
}

/// What becomes of one cue: `None` where it is dropped.
pub open spec fn shift_cue(cue: CueView, delta: int, window: WindowView) -> Option<CueView> {
    if !eligible(cue.start, window) {
        Some(cue)
    } else if cue.end + delta < 0 {
        None
    } else {
        Some(
            CueView {
                index: cue.index,
                start: if cue.start + delta < 0 {
                    0
                } else {
                    cue.start + delta
                },
                end: cue.end + delta,
                text: cue.text,
            },
        )
    }
}

/// The times of a moved cue that stays fit in 64 bits.
pub open spec fn cue_fits(cue: CueView, delta: int, window: WindowView) -> bool {
    eligible(cue.start, window) && cue.end + delta >= 0 ==> cue.end + delta <= i64::MAX
        && cue.start + delta <= i64::MAX
}

pub open spec fn shift_fits(cues: Seq<CueView>, delta: int, window: WindowView) -> bool {
    forall|i: int| 0 <= i < cues.len() ==> cue_fits(#[trigger] cues[i], delta, window)
}

/// The cues that stay, moved, in their order.
pub open spec fn survivors(cues: Seq<CueView>, delta: int, window: WindowView) -> Seq<CueView>
    decreases cues.len(),
{
    if cues.len() == 0 {
        Seq::empty()
    } else {
        let before = survivors(cues.drop_last(), delta, window);
        match shift_cue(cues.last(), delta, window) {
            Some(cue) => before.push(cue),
            None => before,
        }
    }
}

/// The same cues, numbered from one.
pub open spec fn renumbered(cues: Seq<CueView>) -> Seq<CueView> {
    Seq::new(
        cues.len(),
        |i: int|
            CueView {
                index: Some((i + 1) as u64),
                start: cues[i].start,
                end: cues[i].end,
                text: cues[i].text,
            },
    )
}

/// The cues of a document after a shift.
pub open spec fn shifted(cues: Seq<CueView>, delta: int, window: WindowView) -> Seq<CueView> {
    renumbered(survivors(cues, delta, window))
}

pub proof fn lemma_survivors_len(cues: Seq<CueView>, delta: int, window: WindowView)
    ensures
        survivors(cues, delta, window).len() <= cues.len(),
    decreases cues.len(),
{
    if cues.len() > 0 {
        lemma_survivors_len(cues.drop_last(), delta, window);
    }
}

fn fits(cue: &Cue, delta_ms: i64, window: &Window) -> (r: bool)
    ensures
        r == cue_fits(cue@, delta_ms as int, window@),
{
    if !window.holds(cue.start) {
        return true;
    }
    let end = cue.end.total_milliseconds as i128 + delta_ms as i128;
    let start = cue.start.total_milliseconds as i128 + delta_ms as i128;
    end < 0 || (end <= i64::MAX as i128 && start <= i64::MAX as i128)
}

fn all_fit(cues: &Vec<Cue>, delta_ms: i64, window: &Window) -> (r: bool)
    ensures
        r == shift_fits(cues_view(cues@), delta_ms as int, window@),
{
    let mut i: usize = 0;
    while i < cues.len()
        invariant
            i <= cues@.len(),
            forall|j: int|
                0 <= j < i ==> cue_fits(#[trigger] cues_view(cues@)[j], delta_ms as int, window@),
        decreases cues@.len() - i,
    {
        if !fits(&cues[i], delta_ms, window) {
            proof {
                assert(cues_view(cues@)[i as int] == cues@[i as int]@);
            }
            return false;
        }
        proof {
            assert(cues_view(cues@)[i as int] == cues@[i as int]@);
        }
        i = i + 1;
    }
    true
}

/// Moves and drops, without numbering. Returns how many cues were dropped.
fn sift(cues: &mut Vec<Cue>, delta_ms: i64, window: &Window) -> (deleted: usize)
    requires
        shift_fits(cues_view(old(cues)@), delta_ms as int, window@),
    ensures
        cues_view(final(cues)@) == survivors(cues_view(old(cues)@), delta_ms as int, window@),
        deleted == old(cues)@.len() - final(cues)@.len(),
{
    let ghost orig = cues_view(cues@);
    let ghost delta = delta_ms as int;
    let ghost w = window@;
    let mut i: usize = 0;
    let mut deleted: usize = 0;
    let total = cues.len();
    proof {
        assert(orig.len() == total);
        assert(orig.take(0) =~= Seq::<CueView>::empty());
        assert(cues_view(cues@) =~= survivors(orig.take(0), delta, w) + orig.skip(0));
    }
    while i < cues.len()
        invariant
            orig.len() == old(cues)@.len(),
            orig.len() <= usize::MAX,
            delta == delta_ms as int,
            w == window@,
            shift_fits(orig, delta, w),
            i + deleted <= orig.len(),
            cues@.len() == orig.len() - deleted,
            i == survivors(orig.take(i + deleted), delta, w).len(),
            cues_view(cues@) == survivors(orig.take(i + deleted), delta, w) + orig.skip(
                i + deleted,
            ),
        decreases cues@.len() - i,
    {
        let ghost k = i + deleted;
        let ghost done = survivors(orig.take(k), delta, w);
        let ghost now = cues_view(cues@);
        proof {
            assert(now[i as int] == orig.skip(k)[0]);
            assert(now[i as int] == cues@[i as int]@);
            assert(orig.take(k + 1).drop_last() =~= orig.take(k));
            assert(orig.take(k + 1).last() == orig[k]);
            assert(cue_fits(orig[k], delta, w));
        }
        if window.holds(cues[i].start) {
            let end = cues[i].end.total_milliseconds as i128 + delta_ms as i128;
            if end < 0 {
                let ghost before = cues@;
                cues.remove(i);
                deleted = deleted + 1;
                proof {
                    assert forall|j: int| 0 <= j < cues@.len() implies cues_view(cues@)[j] == (done
                        + orig.skip(k + 1))[j] by {
                        if j < i {
                            assert(cues@[j] == before[j]);
                            assert(now[j] == before[j]@);
                        } else {
                            assert(cues@[j] == before[j + 1]);
                            assert(now[j + 1] == before[j + 1]@);
                            assert(now[j + 1] == orig.skip(k)[j + 1 - i]);
                        }
                    }
                    assert(cues_view(cues@) =~= done + orig.skip(k + 1));
                }
            } else {
                let start = cues[i].start.total_milliseconds as i128 + delta_ms as i128;
                let ghost before = cues@;
                let cue = &mut cues[i];
                cue.start = TimeCode {
                    total_milliseconds: if start < 0 {
                        0
                    } else {
                        start as i64
                    },
                };
                cue.end = TimeCode { total_milliseconds: end as i64 };
                proof {
                    assert(cues@.len() == before.len());
                    assert(cues@[i as int]@ == shift_cue(orig[k], delta, w)->0);
                    assert forall|j: int| 0 <= j < cues@.len() implies cues_view(cues@)[j] == (
                    done.push(cues@[i as int]@) + orig.skip(k + 1))[j] by {
                        if j != i {
                            assert(cues@[j] == before[j]);
                            assert(now[j] == before[j]@);
                            if j > i {
                                assert(now[j] == orig.skip(k)[j - i]);
                            }
                        }
                    }
                    assert(cues_view(cues@) =~= done.push(cues@[i as int]@) + orig.skip(k + 1));
                }
                i = i + 1;
            }
        } else {
            proof {
                assert(cues_view(cues@) =~= done.push(orig[k]) + orig.skip(k + 1));
            }
            i = i + 1;
        }
    }
    proof {
        assert(orig.take(orig.len() as int) =~= orig);
        assert(orig.skip(orig.len() as int) =~= Seq::<CueView>::empty());
        assert(cues_view(cues@) =~= survivors(orig, delta, w));
    }
    deleted
}

/// Numbers the cues from one.
fn renumber(cues: &mut Vec<Cue>)
    ensures
        cues_view(final(cues)@) == renumbered(cues_view(old(cues)@)),
{
    let ghost orig = cues_view(cues@);
    let mut i: usize = 0;
    while i < cues.len()
        invariant
            i <= cues@.len(),
            cues@.len() == orig.len(),
            forall|j: int| 0 <= j < i ==> #[trigger] cues_view(cues@)[j] == renumbered(orig)[j],
            forall|j: int| i <= j < orig.len() ==> #[trigger] cues_view(cues@)[j] == orig[j],
        decreases cues@.len() - i,
    {
        let ghost before = cues_view(cues@);
        proof {
            assert(before[i as int] == cues@[i as int]@);
        }
        let cue = &mut cues[i];
        cue.index = Some((i + 1) as u64);
        proof {
            let now = cues_view(cues@);
            assert(now[i as int] == cues@[i as int]@);
            assert forall|j: int| 0 <= j < i + 1 implies #[trigger] now[j] == renumbered(orig)[j] by {
                if j < i {
                    assert(now[j] == cues@[j]@);
                    assert(before[j] == renumbered(orig)[j]);
                }
            }
            assert forall|j: int| i + 1 <= j < orig.len() implies #[trigger] now[j] == orig[j] by {
                assert(now[j] == cues@[j]@);
                assert(before[j] == orig[j]);
            }
        }
        i = i + 1;
    }
    proof {
        assert(cues_view(cues@) =~= renumbered(orig));
    }
}

/// Shifts the cues of `doc` by `delta_ms` milliseconds and returns how many
/// cues were dropped. Where a moved cue that stays would not fit in 64 bits,
/// nothing is changed and the shift fails.
pub fn shift(doc: &mut Document, delta_ms: i64, window: &Window) -> (r: Result<usize, SubError>)
    ensures
        final(doc)@.dialect == old(doc)@.dialect,
        final(doc)@.header == old(doc)@.header,
        match r {
            Ok(deleted) => {
                &&& shift_fits(old(doc)@.cues, delta_ms as int, window@)
                &&& final(doc)@.cues == shifted(old(doc)@.cues, delta_ms as int, window@)
                &&& deleted == old(doc)@.cues.len() - final(doc)@.cues.len()
            },
            Err(e) => {
                &&& e == SubError::OutOfRange
                &&& !shift_fits(old(doc)@.cues, delta_ms as int, window@)
                &&& final(doc)@.cues == old(doc)@.cues
            },
        },
{
    if !all_fit(&doc.cues, delta_ms, window) {
        return Err(SubError::OutOfRange);
    }
    let deleted = sift(&mut doc.cues, delta_ms, window);
    renumber(&mut doc.cues);
    Ok(deleted)
}

} // verus!
