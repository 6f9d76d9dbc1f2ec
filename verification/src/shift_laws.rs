//! What holds of every shift.

use vstd::prelude::*;
use crate::cue::CueView;
use crate::shift::{eligible, renumbered, shift_cue, shifted, survivors, WindowView};

verus! {

/// The cues that stay of the first `i` cues open the list of the cues that
/// stay of them all.
pub proof fn lemma_survivors_prefix(cues: Seq<CueView>, delta: int, window: WindowView, i: int)
    requires
        0 <= i <= cues.len(),
    ensures
        survivors(cues.take(i), delta, window).len() <= survivors(cues, delta, window).len(),
        survivors(cues.take(i), delta, window) == survivors(cues, delta, window).take(
            survivors(cues.take(i), delta, window).len() as int,
        ),
    decreases cues.len() - i,
{
    let whole = survivors(cues, delta, window);
    if i == cues.len() {
        assert(cues.take(i) =~= cues);
        assert(whole.take(whole.len() as int) =~= whole);
    } else {
        let part = survivors(cues.take(i), delta, window);
        let next = survivors(cues.take(i + 1), delta, window);
        assert(cues.take(i + 1).drop_last() =~= cues.take(i));
        lemma_survivors_prefix(cues, delta, window, i + 1);
        assert(part =~= next.take(part.len() as int));
        assert(part =~= whole.take(part.len() as int));
    }
}

/// Shifting moves times by `delta` and does nothing else to them but for
/// the two rules at the start of the timeline.
///
/// Of the cue at position `i`: where it starts in the window and its end
/// plus `delta` is negative, it is dropped. Otherwise it stays, behind the
/// cues that stay of those before it, with its text, and numbered by its new
/// position. Where it starts in the window, its end is its old end plus
/// `delta`, and its start its old start plus `delta`, or zero where that is
/// negative; outside the window both times are unchanged.
pub proof fn lemma_shift_monotonic(cues: Seq<CueView>, delta: int, window: WindowView, i: int)
    requires
        0 <= i < cues.len(),
    ensures
        ({
            let before = survivors(cues.take(i), delta, window);
            let at = before.len() as int;
            let out = shifted(cues, delta, window);
            let cue = cues[i];
            if eligible(cue.start, window) && cue.end + delta < 0 {
                survivors(cues.take(i + 1), delta, window) == before
            } else {
                &&& survivors(cues.take(i + 1), delta, window).len() == at + 1
                &&& at < out.len()
                &&& out[at].text == cue.text
                &&& out[at].index == Some((at + 1) as u64)
                &&& eligible(cue.start, window) ==> out[at].end == cue.end + delta && out[at].start
                    == if cue.start + delta < 0 {
                    0
                } else {
                    cue.start + delta
                }
                &&& !eligible(cue.start, window) ==> out[at].end == cue.end && out[at].start
                    == cue.start
            }
        }),
{
    let before = survivors(cues.take(i), delta, window);
    let next = survivors(cues.take(i + 1), delta, window);
    let whole = survivors(cues, delta, window);
    assert(cues.take(i + 1).drop_last() =~= cues.take(i));
    assert(cues.take(i + 1).last() == cues[i]);
    lemma_survivors_prefix(cues, delta, window, i + 1);
    if shift_cue(cues[i], delta, window) is Some {
        assert(next == before.push(shift_cue(cues[i], delta, window)->0));
        assert(whole.take(next.len() as int)[before.len() as int] == whole[before.len() as int]);
    }
}

/// A shift drops exactly as many cues as are missing afterwards, and the
/// cues that stay are numbered from one in the order of the file.
pub proof fn lemma_shift_numbers(cues: Seq<CueView>, delta: int, window: WindowView)
    ensures
        shifted(cues, delta, window).len() == survivors(cues, delta, window).len(),
        shifted(cues, delta, window).len() <= cues.len(),
        forall|k: int|
            0 <= k < shifted(cues, delta, window).len() ==> (#[trigger] shifted(
                cues,
                delta,
                window,
            )[k]).index == Some((k + 1) as u64),
{
    crate::shift::lemma_survivors_len(cues, delta, window);
}

/// A shift by nothing keeps every cue that neither starts nor ends before
/// the start of the timeline, whatever the window: it only numbers them.
pub proof fn lemma_shift_zero(cues: Seq<CueView>, window: WindowView)
    requires
        forall|i: int| 0 <= i < cues.len() ==> 0 <= (#[trigger] cues[i]).start && 0 <= cues[i].end,
    ensures
        survivors(cues, 0, window) == cues,
        shifted(cues, 0, window) == renumbered(cues),
    decreases cues.len(),
{
    if cues.len() > 0 {
        let rest = cues.drop_last();
        assert forall|i: int| 0 <= i < rest.len() implies 0 <= (#[trigger] rest[i]).start && 0
            <= rest[i].end by {
            assert(rest[i] == cues[i]);
        }
        lemma_shift_zero(rest, window);
        let last = cues.last();
        assert(last == cues[cues.len() - 1]);
        assert(shift_cue(last, 0, window) == Some(last));
        assert(rest.push(last) =~= cues);
    } else {
        assert(survivors(cues, 0, window) =~= cues);
    }
}

/// A shift keeps the two times of a cue in order: of cues that end no
/// earlier than they start, every cue that stays does so too, before it is
/// numbered and after.
pub proof fn lemma_shift_keeps_order(cues: Seq<CueView>, delta: int, window: WindowView)
    requires
        forall|i: int| 0 <= i < cues.len() ==> (#[trigger] cues[i]).start <= cues[i].end,
    ensures
        forall|k: int|
            0 <= k < shifted(cues, delta, window).len() ==> (#[trigger] shifted(
                cues,
                delta,
                window,
            )[k]).start <= shifted(cues, delta, window)[k].end,
        forall|k: int|
            0 <= k < survivors(cues, delta, window).len() ==> (#[trigger] survivors(
                cues,
                delta,
                window,
            )[k]).start <= survivors(cues, delta, window)[k].end,
    decreases cues.len(),
{
    if cues.len() > 0 {
        let rest = cues.drop_last();
        assert forall|i: int| 0 <= i < rest.len() implies (#[trigger] rest[i]).start
            <= rest[i].end by {
            assert(rest[i] == cues[i]);
        }
        lemma_shift_keeps_order(rest, delta, window);
        let last = cues[cues.len() - 1];
        assert(last.start <= last.end);
        let before = survivors(rest, delta, window);
        let whole = survivors(cues, delta, window);
        assert forall|k: int| 0 <= k < whole.len() implies (#[trigger] whole[k]).start
            <= whole[k].end by {
            if k < before.len() {
                assert(whole[k] == before[k]);
            }
        }
    }
    let whole = survivors(cues, delta, window);
    assert forall|k: int| 0 <= k < shifted(cues, delta, window).len() implies (#[trigger] shifted(
        cues,
        delta,
        window,
    )[k]).start <= shifted(cues, delta, window)[k].end by {
        assert(whole[k].start <= whole[k].end);
    }
}

} // verus!
