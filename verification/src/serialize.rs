//! Writes a document.
//!
//! The text is a list of lines, each ended by a line feed. A WebVTT text
//! opens with the header line and an empty line; a SubRip text has no
//! header. Then every cue gives the line with its number (SubRip only), the
//! timing line, its text and an empty line.

use vstd::prelude::*;
use crate::ascii::{GREATER, LF, MINUS, SPACE};
use crate::cue::{lines_view, Cue, CueView, Document, DocumentView};
use crate::dialect::{push_vtt_header, vtt_header, Dialect};
use crate::parser::arrow;
use crate::text::{decimal, push_decimal};
use crate::timecode::timestamp_text;

verus! {

/// The lines, each followed by a line feed.
pub open spec fn joined(lines: Seq<Seq<u8>>) -> Seq<u8>
    decreases lines.len(),
{
    if lines.len() == 0 {
        Seq::empty()
    } else {
        lines[0] + seq![LF] + joined(lines.skip(1))
    }
}

/// The timing line of a cue.
pub open spec fn timing_text(start: int, end: int, dialect: Dialect) -> Seq<u8> {
    timestamp_text(start, dialect) + arrow() + timestamp_text(end, dialect)
}

/// The line with the number of a cue, where the dialect has one.
pub open spec fn number_lines(number: int, dialect: Dialect) -> Seq<Seq<u8>> {
    match dialect {
        Dialect::Srt => seq![decimal(number as nat)],
        Dialect::Vtt => Seq::empty(),
    }
}

/// The lines of the cue that is written as number `number`.
pub open spec fn cue_lines(cue: CueView, number: int, dialect: Dialect) -> Seq<Seq<u8>> {
    number_lines(number, dialect) + seq![timing_text(cue.start, cue.end, dialect)] + cue.text
        + seq![Seq::<u8>::empty()]
}

/// The lines of the cues, the first of which is written as number `first`.
pub open spec fn body_lines(cues: Seq<CueView>, first: int, dialect: Dialect) -> Seq<Seq<u8>>
    decreases cues.len(),
{
    if cues.len() == 0 {
        Seq::empty()
    } else {
        cue_lines(cues[0], first, dialect) + body_lines(cues.skip(1), first + 1, dialect)
    }
}

/// The header line: that of the document, or `WEBVTT` where it has none.
pub open spec fn header_text(header: Option<Seq<u8>>) -> Seq<u8> {
    match header {
        Some(line) => line,
        None => vtt_header(),
    }
}

/// The lines before the cues.
pub open spec fn head_lines(header: Option<Seq<u8>>, dialect: Dialect) -> Seq<Seq<u8>> {
    match dialect {
        Dialect::Srt => Seq::empty(),
        Dialect::Vtt => seq![header_text(header), Seq::<u8>::empty()],
    }
}

/// The lines of a document written in the dialect `target`. The numbers
/// written are the positions of the cues, whatever their own numbers.
pub open spec fn document_lines(doc: DocumentView, target: Dialect) -> Seq<Seq<u8>> {
    head_lines(doc.header, target) + body_lines(doc.cues, 1, target)
}

/// The text of a document written in the dialect `target`.
pub open spec fn serialized(doc: DocumentView, target: Dialect) -> Seq<u8> {
    joined(document_lines(doc, target))
}

/// Joining two lists of lines joins their texts.
pub proof fn lemma_joined_concat(a: Seq<Seq<u8>>, b: Seq<Seq<u8>>)
    ensures
        joined(a + b) == joined(a) + joined(b),
    decreases a.len(),
{
    if a.len() == 0 {
        assert(a + b =~= b);
        assert(joined(a) + joined(b) =~= joined(b));
    } else {
        assert((a + b).skip(1) =~= a.skip(1) + b);
        lemma_joined_concat(a.skip(1), b);
        assert(joined(a + b) =~= joined(a) + joined(b));
    }
}

pub proof fn lemma_joined_one(line: Seq<u8>)
    ensures
        joined(seq![line]) == line + seq![LF],
{
    let one = seq![line];
    assert(one.skip(1) =~= Seq::<Seq<u8>>::empty());
    assert(joined(one.skip(1)) =~= Seq::<u8>::empty());
    assert(one[0] == line);
    assert(joined(one) == line + seq![LF] + joined(one.skip(1)));
    assert(line + seq![LF] + Seq::<u8>::empty() =~= line + seq![LF]);
}

/// The text of a cue is the texts of its parts, one after the other.
pub proof fn lemma_cue_joined(cue: CueView, number: int, dialect: Dialect)
    ensures
        joined(cue_lines(cue, number, dialect)) == joined(number_lines(number, dialect)) + joined(
            seq![timing_text(cue.start, cue.end, dialect)],
        ) + joined(cue.text) + joined(seq![Seq::<u8>::empty()]),
{
    let numbers = number_lines(number, dialect);
    let timing = seq![timing_text(cue.start, cue.end, dialect)];
    let blank = seq![Seq::<u8>::empty()];
    lemma_joined_concat(numbers, timing);
    lemma_joined_concat(numbers + timing, cue.text);
    lemma_joined_concat(numbers + timing + cue.text, blank);
}

/// Appends the lines of a text, each with its line feed.
fn write_lines(out: &mut Vec<u8>, lines: &Vec<Vec<u8>>)
    ensures
        final(out)@ == old(out)@ + joined(lines_view(lines@)),
{
    let ghost all = lines_view(lines@);
    let mut i: usize = 0;
    proof {
        assert(all.take(0) =~= Seq::<Seq<u8>>::empty());
        assert(out@ =~= old(out)@ + joined(all.take(0)));
    }
    while i < lines.len()
        invariant
            i <= lines@.len(),
            all == lines_view(lines@),
            out@ == old(out)@ + joined(all.take(i as int)),
        decreases lines@.len() - i,
    {
        out.extend_from_slice(lines[i].as_slice());
        out.push(LF);
        proof {
            assert(all[i as int] == lines@[i as int]@);
            assert(all.take(i + 1) =~= all.take(i as int) + seq![all[i as int]]);
            lemma_joined_concat(all.take(i as int), seq![all[i as int]]);
            lemma_joined_one(all[i as int]);
            assert(out@ =~= old(out)@ + joined(all.take(i + 1)));
        }
        i = i + 1;
    }
    proof {
        assert(all.take(lines@.len() as int) =~= all);
    }
}

/// Appends the line with the number of a cue, where the dialect has one.
fn write_number(out: &mut Vec<u8>, number: u64, dialect: Dialect)
    ensures
        final(out)@ == old(out)@ + joined(number_lines(number as int, dialect)),
{
    match dialect {
        Dialect::Srt => {
            push_decimal(out, number);
            out.push(LF);
            proof {
                lemma_joined_one(decimal(number as nat));
                assert(out@ =~= old(out)@ + (decimal(number as nat) + seq![LF]));
            }
        },
        Dialect::Vtt => {
            proof {
                assert(out@ =~= old(out)@ + Seq::<u8>::empty());
            }
        },
    }
}

/// Appends the timing line of a cue.
fn write_timing(out: &mut Vec<u8>, cue: &Cue, dialect: Dialect)
    ensures
        final(out)@ == old(out)@ + joined(seq![timing_text(cue@.start, cue@.end, dialect)]),
{
    cue.start.write(out, dialect);
    let ghost started = out@;
    out.push(SPACE);
    out.push(MINUS);
    out.push(MINUS);
    out.push(GREATER);
    out.push(SPACE);
    proof {
        assert(out@ =~= started + arrow());
    }
    cue.end.write(out, dialect);
    out.push(LF);
    proof {
        let timing = timing_text(cue@.start, cue@.end, dialect);
        lemma_joined_one(timing);
        assert(out@ =~= old(out)@ + (timing + seq![LF]));
    }
}

/// Appends the lines of a cue under the number `number`.
fn write_cue(out: &mut Vec<u8>, cue: &Cue, number: u64, dialect: Dialect)
    ensures
        final(out)@ == old(out)@ + joined(cue_lines(cue@, number as int, dialect)),
{
    write_number(out, number, dialect);
    write_timing(out, cue, dialect);
    write_lines(out, &cue.text);
    let ghost texted = out@;
    out.push(LF);
    proof {
        let blank = Seq::<u8>::empty();
        let a = joined(number_lines(number as int, dialect));
        let b = joined(seq![timing_text(cue@.start, cue@.end, dialect)]);
        let c = joined(cue@.text);
        let d = joined(seq![blank]);
        lemma_joined_one(blank);
        assert(d =~= seq![LF]);
        lemma_cue_joined(cue@, number as int, dialect);
        assert(texted == old(out)@ + a + b + c);
        assert(out@ =~= texted + d);
        assert(old(out)@ + a + b + c + d =~= old(out)@ + (a + b + c + d));
    }
}

/// Writes a document in the dialect `target`, which need not be the dialect
/// that it was read in.
pub fn serialize(doc: &Document, target: Dialect) -> (out: Vec<u8>)
    ensures
        out@ == serialized(doc@, target),
{
    let mut out: Vec<u8> = Vec::new();
    let ghost head = head_lines(doc@.header, target);
    let ghost cues = doc@.cues;
    match target {
        Dialect::Srt => {
            proof {
                assert(out@ =~= joined(head));
            }
        },
        Dialect::Vtt => {
            match &doc.header {
                Some(line) => {
                    out.extend_from_slice(line.as_slice());
                },
                None => {
                    push_vtt_header(&mut out);
                },
            }
            out.push(LF);
            out.push(LF);
            proof {
                let first = header_text(doc@.header);
                let blank = Seq::<u8>::empty();
                lemma_joined_one(first);
                lemma_joined_one(blank);
                assert(head =~= seq![first] + seq![blank]);
                lemma_joined_concat(seq![first], seq![blank]);
                assert(out@ =~= joined(head));
            }
        },
    }
    let mut i: usize = 0;
    proof {
        lemma_joined_concat(head, body_lines(cues, 1, target));
        assert(cues.skip(0) =~= cues);
    }
    while i < doc.cues.len()
        invariant
            i <= doc.cues@.len(),
            cues == doc@.cues,
            serialized(doc@, target) == out@ + joined(body_lines(cues.skip(i as int), i + 1, target)),
        decreases doc.cues@.len() - i,
    {
        let ghost before = out@;
        write_cue(&mut out, &doc.cues[i], (i + 1) as u64, target);
        proof {
            let rest = cues.skip(i as int);
            assert(rest[0] == doc.cues@[i as int]@);
            assert(rest.skip(1) =~= cues.skip(i + 1));
            lemma_joined_concat(
                cue_lines(rest[0], i + 1, target),
                body_lines(cues.skip(i + 1), i + 2, target),
            );
            assert(before + joined(body_lines(rest, i + 1, target)) =~= out@ + joined(
                body_lines(cues.skip(i + 1), i + 2, target),
            ));
        }
        i = i + 1;
    }
    proof {
        assert(cues.skip(doc.cues@.len() as int) =~= Seq::<CueView>::empty());
        assert(out@ + joined(Seq::<Seq<u8>>::empty()) =~= out@);
    }
    out
}

} // verus!
