//! Reading is the inverse of writing: a document that is written and read
//! again is the same document, and a text that was read, shifted by nothing
//! and written holds the cues of the text it came from.

use vstd::prelude::*;
use crate::ascii::{LF, UPPER_W};
use crate::bytes::has_prefix;
use crate::cue::{is_blank, is_line, CueView, DocumentView};
use crate::dialect::{vtt_header, Dialect};
use crate::error::SubError;
use crate::line_laws::{lemma_lines_are_lines, lemma_lines_of_joined, lemma_timing_roundtrip};
use crate::parser::{
    block_end, cue_of_block, cues_from, followed_by, index_value, is_header, lemma_block_end,
    lines_of, parsed,
};
use crate::serialize::{
    body_lines, cue_lines, document_lines, head_lines, header_text, number_lines, serialized,
    timing_text,
};
use crate::shift::{renumbered, shift_fits, shifted, WindowView};
use crate::shift_laws::lemma_shift_zero;
use crate::text::{decimal, is_digit, lemma_decimal};
use crate::transform::transformed;

verus! {

/// The number that a cue is read back with: SubRip cues that were written
/// from `first` on bear their numbers, WebVTT cues bear none.
pub open spec fn label(number: int, dialect: Dialect) -> Option<u64> {
    match dialect {
        Dialect::Srt => Some(number as u64),
        Dialect::Vtt => None,
    }
}

/// The cues as they are read back after they were written in `dialect`
/// with numbers from `first` on.
pub open spec fn relabeled(cues: Seq<CueView>, first: int, dialect: Dialect) -> Seq<CueView> {
    Seq::new(
        cues.len(),
        |i: int|
            CueView {
                index: label(first + i, dialect),
                start: cues[i].start,
                end: cues[i].end,
                text: cues[i].text,
            },
    )
}

/// A header line as a file can hold it.
pub open spec fn header_well_formed(header: Option<Seq<u8>>) -> bool {
    header matches Some(line) ==> is_line(line) && is_header(line)
}

/// A run of lines that are not blank, up to a blank line or the end, is a block.
pub proof fn lemma_block_end_is(lines: Seq<Seq<u8>>, from: int, to: int)
    requires
        0 <= from <= to <= lines.len(),
        forall|i: int| from <= i < to ==> !is_blank(#[trigger] lines[i]),
        to < lines.len() ==> is_blank(lines[to]),
    ensures
        block_end(lines, from) == to,
    decreases to - from,
{
    if from < to {
        lemma_block_end_is(lines, from + 1, to);
    }
}

/// The line with a number is a line, is not blank, and reads as the number.
pub proof fn lemma_number_line(number: int)
    requires
        0 <= number <= u64::MAX,
    ensures
        is_line(decimal(number as nat)),
        !is_blank(decimal(number as nat)),
        index_value(decimal(number as nat)) == Some(number as u64),
        decimal(number as nat).len() >= 1,
        is_digit(decimal(number as nat)[0]),
{
    let line = decimal(number as nat);
    lemma_decimal(number as nat);
    assert(is_digit(line[0]));
    assert(is_digit(line.last()));
    assert(is_line(line)) by {
        assert forall|i: int| 0 <= i < line.len() implies #[trigger] line[i] != LF by {
            assert(is_digit(line[i]));
        }
    }
}

/// The lines of a written cue: all but the last are lines that are not
/// blank, the last is empty, and those before it read as the cue.
pub proof fn lemma_cue_block(cue: CueView, number: int, dialect: Dialect)
    requires
        cue.well_formed(),
        0 <= number <= u64::MAX,
    ensures
        ({
            let lines = cue_lines(cue, number, dialect);
            &&& lines.len() >= 2
            &&& lines.last() == Seq::<u8>::empty()
            &&& forall|i: int| 0 <= i < lines.len() ==> is_line(#[trigger] lines[i])
            &&& forall|i: int| 0 <= i < lines.len() - 1 ==> !is_blank(#[trigger] lines[i])
            &&& cue_of_block(lines.drop_last(), dialect) == Some(
                CueView {
                    index: label(number, dialect),
                    start: cue.start,
                    end: cue.end,
                    text: cue.text,
                },
            )
        }),
{
    let numbers = number_lines(number, dialect);
    let timing = timing_text(cue.start, cue.end, dialect);
    let lines = cue_lines(cue, number, dialect);
    let block = lines.drop_last();
    let n = numbers.len() as int;
    lemma_number_line(number);
    lemma_timing_roundtrip(cue.start, cue.end, dialect);
    assert(lines.len() == n + 1 + cue.text.len() + 1);
    assert(lines[n] == timing);
    assert forall|i: int| 0 <= i < lines.len() implies is_line(#[trigger] lines[i]) by {
        if i < n {
            assert(lines[i] == numbers[i]);
        } else if i == n {
        } else if i < n + 1 + cue.text.len() {
            assert(lines[i] == cue.text[i - n - 1]);
        } else {
            assert(lines[i] == Seq::<u8>::empty());
        }
    }
    assert forall|i: int| 0 <= i < lines.len() - 1 implies !is_blank(#[trigger] lines[i]) by {
        if i < n {
            assert(lines[i] == numbers[i]);
        } else if i == n {
        } else {
            assert(lines[i] == cue.text[i - n - 1]);
        }
    }
    assert(block[n] == timing);
    assert(block.subrange(n + 1, block.len() as int) =~= cue.text);
    match dialect {
        Dialect::Srt => {
            assert(block[0] == decimal(number as nat));
        },
        Dialect::Vtt => {
            assert(block[0] == timing);
        },
    }
}

/// Every line of the written cues is a line.
pub proof fn lemma_body_lines(cues: Seq<CueView>, first: int, dialect: Dialect)
    requires
        forall|i: int| 0 <= i < cues.len() ==> (#[trigger] cues[i]).well_formed(),
        0 <= first,
        first + cues.len() <= u64::MAX + 1,
    ensures
        forall|i: int|
            0 <= i < body_lines(cues, first, dialect).len() ==> is_line(
                #[trigger] body_lines(cues, first, dialect)[i],
            ),
    decreases cues.len(),
{
    if cues.len() > 0 {
        let rest = cues.skip(1);
        assert forall|i: int| 0 <= i < rest.len() implies (#[trigger] rest[i]).well_formed() by {
            assert(rest[i] == cues[i + 1]);
        }
        lemma_cue_block(cues[0], first, dialect);
        lemma_body_lines(rest, first + 1, dialect);
        let head = cue_lines(cues[0], first, dialect);
        let tail = body_lines(rest, first + 1, dialect);
        assert forall|i: int| 0 <= i < (head + tail).len() implies is_line(
            #[trigger] (head + tail)[i],
        ) by {
            if i < head.len() {
                assert((head + tail)[i] == head[i]);
            } else {
                assert((head + tail)[i] == tail[i - head.len()]);
            }
        }
    }
}

/// A block that reads as a cue, with a blank line behind it, gives that
/// cue and then what the lines behind the blank line give.
pub proof fn lemma_read_block(
    all: Seq<Seq<u8>>,
    from: int,
    to: int,
    dialect: Dialect,
    position: int,
    read: CueView,
)
    requires
        0 <= from < to < all.len(),
        forall|i: int| from <= i < to ==> !is_blank(#[trigger] all[i]),
        is_blank(all[to]),
        cue_of_block(all.subrange(from, to), dialect) == Some(read),
    ensures
        cues_from(all, from, dialect, position) == followed_by(
            seq![read],
            cues_from(all, to + 1, dialect, position + 1),
        ),
{
    lemma_block_end_is(all, from, to);
    assert(!is_blank(all[from]));
    assert(cues_from(all, to, dialect, position + 1) == cues_from(
        all,
        to + 1,
        dialect,
        position + 1,
    ));
}

/// The lines of a written cue, wherever they stand among other lines, give
/// the cue and then what the lines behind them give.
pub proof fn lemma_read_cue(
    all: Seq<Seq<u8>>,
    from: int,
    cue: CueView,
    number: int,
    dialect: Dialect,
    position: int,
)
    requires
        cue.well_formed(),
        0 <= number <= u64::MAX,
        0 <= from,
        from + cue_lines(cue, number, dialect).len() <= all.len(),
        all.subrange(from, from + cue_lines(cue, number, dialect).len()) == cue_lines(
            cue,
            number,
            dialect,
        ),
    ensures
        cues_from(all, from, dialect, position) == followed_by(
            seq![
                CueView {
                    index: label(number, dialect),
                    start: cue.start,
                    end: cue.end,
                    text: cue.text,
                },
            ],
            cues_from(
                all,
                from + cue_lines(cue, number, dialect).len(),
                dialect,
                position + 1,
            ),
        ),
{
    let lines = cue_lines(cue, number, dialect);
    let to = from + lines.len() - 1;
    let read = CueView {
        index: label(number, dialect),
        start: cue.start,
        end: cue.end,
        text: cue.text,
    };
    lemma_cue_block(cue, number, dialect);
    assert forall|i: int| from <= i <= to implies #[trigger] all[i] == lines[i - from] by {
        assert(all.subrange(from, from + lines.len())[i - from] == all[i]);
    }
    assert forall|i: int| from <= i < to implies !is_blank(#[trigger] all[i]) by {
        assert(all[i] == lines[i - from]);
    }
    assert(all[to] == lines[lines.len() - 1]);
    assert(all.subrange(from, to) =~= lines.drop_last());
    lemma_read_block(all, from, to, dialect, position, read);
}

/// The written cues read back as the cues, whatever lines stand before them.
pub proof fn lemma_read_body(
    prefix: Seq<Seq<u8>>,
    cues: Seq<CueView>,
    first: int,
    dialect: Dialect,
    position: int,
)
    requires
        forall|i: int| 0 <= i < cues.len() ==> (#[trigger] cues[i]).well_formed(),
        0 <= first,
        first + cues.len() <= u64::MAX + 1,
    ensures
        cues_from(
            prefix + body_lines(cues, first, dialect) + seq![Seq::<u8>::empty()],
            prefix.len() as int,
            dialect,
            position,
        ) == Ok::<Seq<CueView>, SubError>(relabeled(cues, first, dialect)),
    decreases cues.len(),
{
    let blank = Seq::<u8>::empty();
    let all = prefix + body_lines(cues, first, dialect) + seq![blank];
    let from = prefix.len() as int;
    if cues.len() == 0 {
        assert(all[from] == blank);
        assert(all.len() == from + 1);
        assert(cues_from(all, from + 1, dialect, position) == Ok::<Seq<CueView>, SubError>(
            Seq::empty(),
        ));
        assert(relabeled(cues, first, dialect) =~= Seq::<CueView>::empty());
    } else {
        let cue = cues[0];
        let rest = cues.skip(1);
        let lines = cue_lines(cue, first, dialect);
        let tail = body_lines(rest, first + 1, dialect);
        let read = CueView {
            index: label(first, dialect),
            start: cue.start,
            end: cue.end,
            text: cue.text,
        };
        assert forall|i: int| 0 <= i < rest.len() implies (#[trigger] rest[i]).well_formed() by {
            assert(rest[i] == cues[i + 1]);
        }
        let next = prefix + lines;
        assert(body_lines(cues, first, dialect) == lines + tail);
        assert(all =~= next + tail + seq![blank]);
        assert(all.subrange(from, from + lines.len()) =~= lines);
        lemma_read_cue(all, from, cue, first, dialect, position);
        lemma_read_body(next, rest, first + 1, dialect, position + 1);
        assert(seq![read] + relabeled(rest, first + 1, dialect) =~= relabeled(
            cues,
            first,
            dialect,
        )) by {
            assert forall|i: int| 0 <= i < cues.len() implies (seq![read] + relabeled(
                rest,
                first + 1,
                dialect,
            ))[i] == relabeled(cues, first, dialect)[i] by {
                if i > 0 {
                    assert(rest[i - 1] == cues[i]);
                }
            }
        }
    }
}

/// A written document reads back as itself: in the dialect it was written
/// in, with the header that was written, and with its cues, which bear
/// their positions as numbers in SubRip and no numbers in WebVTT.
pub proof fn lemma_read_written(doc: DocumentView, target: Dialect)
    requires
        doc.well_formed(),
        header_well_formed(doc.header),
        doc.cues.len() <= usize::MAX,
    ensures
        parsed(serialized(doc, target)) == Ok::<DocumentView, SubError>(
            DocumentView {
                dialect: target,
                header: match target {
                    Dialect::Srt => None,
                    Dialect::Vtt => Some(header_text(doc.header)),
                },
                cues: relabeled(doc.cues, 1, target),
            },
        ),
{
    let blank = Seq::<u8>::empty();
    let head = head_lines(doc.header, target);
    let body = body_lines(doc.cues, 1, target);
    let written = document_lines(doc, target);
    lemma_body_lines(doc.cues, 1, target);
    assert(is_line(vtt_header()));
    assert(has_prefix(vtt_header(), vtt_header())) by {
        assert(vtt_header().subrange(0, vtt_header().len() as int) =~= vtt_header());
    }
    assert forall|i: int| 0 <= i < written.len() implies is_line(#[trigger] written[i]) by {
        if i < head.len() {
            assert(written[i] == head[i]);
        } else {
            assert(written[i] == body[i - head.len()]);
        }
    }
    lemma_lines_of_joined(written);
    let lines = lines_of(serialized(doc, target));
    assert(lines == written + seq![blank]);
    assert(lines =~= head + body + seq![blank]);
    lemma_read_body(head, doc.cues, 1, target, 1);
    match target {
        Dialect::Srt => {
            assert(head.len() == 0);
            if doc.cues.len() == 0 {
                assert(lines[0] == blank);
            } else {
                lemma_cue_block(doc.cues[0], 1, target);
                lemma_number_line(1);
                let first = cue_lines(doc.cues[0], 1, target);
                assert(body == first + body_lines(doc.cues.skip(1), 2, target));
                assert(lines[0] == first[0]);
                assert(first[0] == decimal(1));
                if is_header(lines[0]) {
                    assert(lines[0].subrange(0, vtt_header().len() as int)[0] == lines[0][0]);
                    assert(vtt_header()[0] == UPPER_W);
                }
            }
            assert(!is_header(lines[0]));
        },
        Dialect::Vtt => {
            assert(lines[0] == header_text(doc.header));
            assert(is_header(lines[0]));
            assert(lines[1] == blank);
            assert(cues_from(lines, 1, target, 1) == cues_from(lines, 2, target, 1));
        },
    }
}

/// What a text is read as is well formed, cue by cue.
pub proof fn lemma_cues_well_formed(
    lines: Seq<Seq<u8>>,
    from: int,
    dialect: Dialect,
    position: int,
)
    requires
        0 <= from,
        forall|i: int| 0 <= i < lines.len() ==> is_line(#[trigger] lines[i]),
    ensures
        cues_from(lines, from, dialect, position) matches Ok(cues) ==> forall|j: int|
            0 <= j < cues.len() ==> (#[trigger] cues[j]).well_formed(),
    decreases lines.len() - from,
{
    if from < lines.len() {
        if is_blank(lines[from]) {
            lemma_cues_well_formed(lines, from + 1, dialect, position);
        } else {
            let end = block_end(lines, from);
            lemma_block_end(lines, from + 1);
            let block = lines.subrange(from, end);
            if cue_of_block(block, dialect) is Some {
                let cue = cue_of_block(block, dialect)->0;
                let at: int = if index_value(block[0]) is Some {
                    1
                } else {
                    0
                };
                assert(cue.well_formed()) by {
                    assert forall|i: int| 0 <= i < cue.text.len() implies is_line(
                        #[trigger] cue.text[i],
                    ) && !is_blank(cue.text[i]) by {
                        assert(cue.text[i] == lines[from + at + 1 + i]);
                    }
                }
                lemma_cues_well_formed(lines, end, dialect, position + 1);
                let rest = cues_from(lines, end, dialect, position + 1);
                if rest is Ok {
                    let cues = seq![cue] + rest->Ok_0;
                    assert forall|j: int| 0 <= j < cues.len() implies (
                    #[trigger] cues[j]).well_formed() by {
                        if j > 0 {
                            assert(cues[j] == rest->Ok_0[j - 1]);
                        }
                    }
                }
            }
        }
    }
}

/// What a text is read as is a document as a file can hold it, and it has a
/// header exactly where it is WebVTT.
pub proof fn lemma_parsed_well_formed(input: Seq<u8>)
    ensures
        parsed(input) matches Ok(doc) ==> doc.well_formed() && header_well_formed(doc.header) && (
        doc.dialect == Dialect::Vtt <==> doc.header is Some),
{
    lemma_lines_are_lines(input, 0);
    let lines = lines_of(input);
    lemma_cues_well_formed(lines, 0, Dialect::Srt, 1);
    lemma_cues_well_formed(lines, 1, Dialect::Vtt, 1);
}

/// Numbering anew changes neither what is well formed nor, done twice,
/// what it gave the first time.
pub proof fn lemma_renumbered(cues: Seq<CueView>)
    requires
        forall|i: int| 0 <= i < cues.len() ==> (#[trigger] cues[i]).well_formed(),
    ensures
        forall|i: int| 0 <= i < cues.len() ==> (#[trigger] renumbered(cues)[i]).well_formed(),
        renumbered(cues).len() == cues.len(),
        relabeled(cues, 1, Dialect::Srt) == renumbered(cues),
        relabeled(renumbered(cues), 1, Dialect::Srt) == renumbered(cues),
        renumbered(renumbered(cues)) == renumbered(cues),
{
    assert forall|i: int| 0 <= i < cues.len() implies (#[trigger] renumbered(cues)[i]).well_formed() by {
        assert(cues[i].well_formed());
    }
    assert(relabeled(cues, 1, Dialect::Srt) =~= renumbered(cues));
    assert(relabeled(renumbered(cues), 1, Dialect::Srt) =~= renumbered(cues));
    assert(renumbered(renumbered(cues)) =~= renumbered(cues));
}

/// The round trip. A SubRip text that is read, shifted by nothing in any
/// window, or in none, and written in SubRip loses no cue; the text that
/// comes out reads as the cues of the text that went in, with their times
/// and their text, numbered from one; and doing the same to the text that
/// came out gives that text again, byte for byte.
pub proof fn lemma_roundtrip(input: Seq<u8>, doc: DocumentView, window: WindowView)
    requires
        parsed(input) == Ok::<DocumentView, SubError>(doc),
        doc.dialect == Dialect::Srt,
        doc.cues.len() <= usize::MAX,
    ensures
        ({
            let kept = DocumentView {
                dialect: Dialect::Srt,
                header: None,
                cues: renumbered(doc.cues),
            };
            let out = serialized(kept, Dialect::Srt);
            &&& transformed(input, 0, window, None) == Ok::<(Seq<u8>, int), SubError>((out, 0))
            &&& parsed(out) == Ok::<DocumentView, SubError>(kept)
            &&& transformed(out, 0, window, None) == Ok::<(Seq<u8>, int), SubError>((out, 0))
        }),
{
    let kept = DocumentView { dialect: Dialect::Srt, header: None, cues: renumbered(doc.cues) };
    let out = serialized(kept, Dialect::Srt);
    lemma_parsed_well_formed(input);
    assert(doc.header is None);
    lemma_shift_zero(doc.cues, window);
    lemma_renumbered(doc.cues);
    assert(shift_fits(doc.cues, 0, window));
    assert(kept.well_formed());
    lemma_read_written(kept, Dialect::Srt);
    assert(parsed(out) == Ok::<DocumentView, SubError>(kept));
    lemma_shift_zero(kept.cues, window);
    assert(shift_fits(kept.cues, 0, window));
    assert(shifted(kept.cues, 0, window) == kept.cues);
}

} // verus!
