//! Reads a document.
//!
//! The text is cut into lines at line feeds; carriage returns at the end of
//! a line are dropped. A first line that starts with `WEBVTT` is the header
//! and makes the document WebVTT; any other document is SubRip. Blank lines
//! part the rest into blocks, and each block is one cue: an optional line
//! with its number, the timing line, and its text.

use vstd::prelude::*;
use vstd::slice::{slice_subrange, slice_to_vec};
use crate::ascii::{CR, GREATER, LF, MINUS, SPACE};
use crate::bytes::{find_from, index_of_from, starts_with, has_prefix};
use crate::cue::{blank, cues_view, is_blank, lines_view, Cue, CueView, Document, DocumentView};
use crate::dialect::{push_vtt_header, vtt_header, Dialect};
use crate::error::SubError;
use crate::text::{all_digits, digits_value, parse_number};
use crate::timecode::{timestamp_value, TimeCode};

verus! {

/// The length of the arrow between the two timestamps of a timing line.
pub const ARROW_LEN: usize = 5;

/// A line without the carriage returns at its end.
pub open spec fn strip_cr(s: Seq<u8>) -> Seq<u8>
    decreases s.len(),
{
    if s.len() > 0 && s.last() == CR {
        strip_cr(s.drop_last())
    } else {
        s
    }
}

/// The lines of `s` from `from` on, which is the start of a line.
pub open spec fn lines_from(s: Seq<u8>, from: int) -> Seq<Seq<u8>>
    decreases s.len() - from,
{
    let feed = index_of_from(s, LF, from);
    if 0 <= from <= feed < s.len() {
        seq![strip_cr(s.subrange(from, feed))] + lines_from(s, feed + 1)
    } else {
        seq![strip_cr(s.subrange(from, s.len() as int))]
    }
}

/// The lines of a text. What follows the last line feed is a line too, so
/// that there is always one line.
pub open spec fn lines_of(s: Seq<u8>) -> Seq<Seq<u8>> {
    lines_from(s, 0)
}

/// The number on a line that holds the number of a cue and nothing else.
pub open spec fn index_value(line: Seq<u8>) -> Option<u64> {
    if line.len() > 0 && all_digits(line) && digits_value(line) <= u64::MAX {
        Some(digits_value(line) as u64)
    } else {
        None
    }
}

/// ` --> `, which stands between the two timestamps of a timing line.
pub open spec fn arrow() -> Seq<u8> {
    seq![SPACE, MINUS, MINUS, GREATER, SPACE]
}

/// The start and the end that a timing line gives: a timestamp, the arrow,
/// a timestamp, and the first no later than the second.
pub open spec fn timing_value(line: Seq<u8>, dialect: Dialect) -> Option<(int, int)> {
    let k = index_of_from(line, SPACE, 0);
    if k + ARROW_LEN <= line.len() && line.subrange(k, k + ARROW_LEN) == arrow() {
        match (
            timestamp_value(line.subrange(0, k), dialect),
            timestamp_value(line.subrange(k + ARROW_LEN, line.len() as int), dialect),
        ) {
            (Some(start), Some(end)) => if start <= end {
                Some((start, end))
            } else {
                None
            },
            _ => None,
        }
    } else {
        None
    }
}

/// The cue that a block of lines holds. Where the first line is a number,
/// it is the number of the cue and the timing line follows; else the first
/// line is the timing line. The lines after the timing line are the text.
pub open spec fn cue_of_block(block: Seq<Seq<u8>>, dialect: Dialect) -> Option<CueView> {
    if block.len() == 0 {
        None
    } else {
        let at: int = if index_value(block[0]) is Some {
            1
        } else {
            0
        };
        if at < block.len() {
            match timing_value(block[at], dialect) {
                Some((start, end)) => Some(
                    CueView {
                        index: index_value(block[0]),
                        start,
                        end,
                        text: block.subrange(at + 1, block.len() as int),
                    },
                ),
                None => None,
            }
        } else {
            None
        }
    }
}

/// The first blank line at or after `from`, or the number of lines.
pub open spec fn block_end(lines: Seq<Seq<u8>>, from: int) -> int
    decreases lines.len() - from,
{
    if 0 <= from < lines.len() && !is_blank(lines[from]) {
        block_end(lines, from + 1)
    } else {
        from
    }
}

/// `done` followed by what `rest` gives, or the failure of `rest`.
pub open spec fn followed_by(done: Seq<CueView>, rest: Result<Seq<CueView>, SubError>) -> Result<
    Seq<CueView>,
    SubError,
> {
    match rest {
        Ok(cues) => Ok(done + cues),
        Err(e) => Err(e),
    }
}

/// The cues of the blocks from line `from` on, the first of which is block
/// number `position`. The first block that holds no cue fails the whole
/// with its number.
pub open spec fn cues_from(
    lines: Seq<Seq<u8>>,
    from: int,
    dialect: Dialect,
    position: int,
) -> Result<Seq<CueView>, SubError>
    decreases lines.len() - from,
{
    if from < 0 || from >= lines.len() {
        Ok(Seq::empty())
    } else if is_blank(lines[from]) {
        cues_from(lines, from + 1, dialect, position)
    } else {
        let end = block_end(lines, from);
        match cue_of_block(lines.subrange(from, end), dialect) {
            Some(cue) => if from < end <= lines.len() {
                followed_by(seq![cue], cues_from(lines, end, dialect, position + 1))
            } else {
                Ok(Seq::empty())
            },
            None => Err(SubError::MalformedCue(#[verifier::truncate] (position as usize))),
        }
    }
}

/// Whether a first line is the header of a WebVTT document.
pub open spec fn is_header(line: Seq<u8>) -> bool {
    has_prefix(line, vtt_header())
}

/// The document that a text holds. A text without cues is a document
/// without cues.
pub open spec fn parsed(input: Seq<u8>) -> Result<DocumentView, SubError> {
    let lines = lines_of(input);
    let headed = is_header(lines[0]);
    let dialect = if headed {
        Dialect::Vtt
    } else {
        Dialect::Srt
    };
    let from: int = if headed {
        1
    } else {
        0
    };
    match cues_from(lines, from, dialect, 1) {
        Ok(cues) => Ok(
            DocumentView {
                dialect,
                header: if headed {
                    Some(lines[0])
                } else {
                    None
                },
                cues,
            },
        ),
        Err(e) => Err(e),
    }
}

pub proof fn lemma_block_end(lines: Seq<Seq<u8>>, from: int)
    requires
        0 <= from <= lines.len(),
    ensures
        from <= block_end(lines, from) <= lines.len(),
        forall|i: int| from <= i < block_end(lines, from) ==> !is_blank(#[trigger] lines[i]),
        block_end(lines, from) < lines.len() ==> is_blank(lines[block_end(lines, from)]),
    decreases lines.len() - from,
{
    if from < lines.len() && !is_blank(lines[from]) {
        lemma_block_end(lines, from + 1);
    }
}

/// Where the line that starts at `from` ends once the carriage returns at
/// its end are dropped; `to` is where its line feed stands.
fn trim_cr(input: &[u8], from: usize, to: usize) -> (end: usize)
    requires
        from <= to <= input@.len(),
    ensures
        from <= end <= to,
        input@.subrange(from as int, end as int) == strip_cr(
            input@.subrange(from as int, to as int),
        ),
{
    let mut end: usize = to;
    while end > from && input[end - 1] == CR
        invariant
            from <= end <= to,
            to <= input@.len(),
            strip_cr(input@.subrange(from as int, to as int)) == strip_cr(
                input@.subrange(from as int, end as int),
            ),
        decreases end,
    {
        proof {
            assert(input@.subrange(from as int, end as int).drop_last() =~= input@.subrange(
                from as int,
                end - 1,
            ));
        }
        end = end - 1;
    }
    end
}

/// Cuts a text into its lines.
pub fn split_lines(input: &[u8]) -> (lines: Vec<Vec<u8>>)
    ensures
        lines_view(lines@) == lines_of(input@),
        lines@.len() >= 1,
{
    let n = input.len();
    let mut lines: Vec<Vec<u8>> = Vec::new();
    let mut from: usize = 0;
    loop
        invariant
            from <= n,
            n == input@.len(),
            lines_of(input@) == lines_view(lines@) + lines_from(input@, from as int),
        decreases n - from,
    {
        let feed = find_from(input, LF, from);
        let end = trim_cr(input, from, feed);
        let line = slice_to_vec(slice_subrange(input, from, end));
        let ghost before = lines@;
        lines.push(line);
        proof {
            assert(lines_view(lines@) =~= lines_view(before).push(line@));
        }
        if feed >= n {
            proof {
                assert(lines_view(before) + lines_from(input@, from as int) =~= lines_view(
                    lines@,
                ));
            }
            return lines;
        }
        proof {
            assert(lines_view(before) + lines_from(input@, from as int) =~= lines_view(lines@)
                + lines_from(input@, feed + 1));
        }
        from = feed + 1;
    }
}

/// Reads a timing line.
pub fn parse_timing(line: &[u8], dialect: Dialect) -> (r: Option<(TimeCode, TimeCode)>)
    ensures
        match r {
            Some((start, end)) => timing_value(line@, dialect) == Some((start@, end@)),
            None => timing_value(line@, dialect) is None,
        },
{
    let n = line.len();
    let k = find_from(line, SPACE, 0);
    if n - k < ARROW_LEN {
        return None;
    }
    proof {
        assert(line@.subrange(k as int, k + ARROW_LEN) == arrow() <==> (line@[k as int] == SPACE
            && line@[k + 1] == MINUS && line@[k + 2] == MINUS && line@[k + 3] == GREATER && line@[k
            + 4] == SPACE)) by {
            let part = line@.subrange(k as int, k + ARROW_LEN);
            assert(part[0] == line@[k as int]);
            assert(part[1] == line@[k + 1]);
            assert(part[2] == line@[k + 2]);
            assert(part[3] == line@[k + 3]);
            assert(part[4] == line@[k + 4]);
            if line@[k as int] == SPACE && line@[k + 1] == MINUS && line@[k + 2] == MINUS && line@[k
                + 3] == GREATER && line@[k + 4] == SPACE {
                assert(part =~= arrow());
            }
        }
    }
    if line[k] != SPACE || line[k + 1] != MINUS || line[k + 2] != MINUS || line[k + 3] != GREATER
        || line[k + 4] != SPACE {
        return None;
    }
    let start = match TimeCode::parse(slice_subrange(line, 0, k), dialect) {
        Ok(t) => t,
        Err(_) => {
            return None;
        },
    };
    let end = match TimeCode::parse(slice_subrange(line, k + ARROW_LEN, n), dialect) {
        Ok(t) => t,
        Err(_) => {
            return None;
        },
    };
    if start.total_milliseconds > end.total_milliseconds {
        return None;
    }
    Some((start, end))
}

/// Copies the lines from `from` up to `to`.
fn copy_lines(lines: &Vec<Vec<u8>>, from: usize, to: usize) -> (r: Vec<Vec<u8>>)
    requires
        from <= to <= lines@.len(),
    ensures
        lines_view(r@) == lines_view(lines@).subrange(from as int, to as int),
{
    let mut out: Vec<Vec<u8>> = Vec::new();
    let mut i: usize = from;
    while i < to
        invariant
            from <= i <= to,
            to <= lines@.len(),
            lines_view(out@) == lines_view(lines@).subrange(from as int, i as int),
        decreases to - i,
    {
        let line = slice_to_vec(lines[i].as_slice());
        let ghost before = out@;
        out.push(line);
        proof {
            assert(lines_view(out@) =~= lines_view(before).push(line@));
            assert(lines_view(out@) =~= lines_view(lines@).subrange(from as int, i + 1));
        }
        i = i + 1;
    }
    out
}

/// Reads the block of the lines from `from` up to `to`.
fn parse_block(lines: &Vec<Vec<u8>>, from: usize, to: usize, dialect: Dialect) -> (r: Option<Cue>)
    requires
        from < to <= lines@.len(),
    ensures
        match r {
            Some(cue) => cue_of_block(
                lines_view(lines@).subrange(from as int, to as int),
                dialect,
            ) == Some(cue@),
            None => cue_of_block(lines_view(lines@).subrange(from as int, to as int), dialect)
                is None,
        },
{
    let ghost block = lines_view(lines@).subrange(from as int, to as int);
    let index = parse_number(lines[from].as_slice());
    proof {
        assert(block[0] == lines@[from as int]@);
    }
    let at: usize = match index {
        Some(_) => from + 1,
        None => from,
    };
    if at >= to {
        return None;
    }
    proof {
        assert(block[at - from] == lines@[at as int]@);
    }
    match parse_timing(lines[at].as_slice(), dialect) {
        Some((start, end)) => {
            let text = copy_lines(lines, at + 1, to);
            proof {
                assert(lines_view(text@) =~= block.subrange(at - from + 1, block.len() as int));
            }
            Some(Cue { index, start, end, text })
        },
        None => None,
    }
}

/// Finds the first blank line at or after `from`.
fn find_block_end(lines: &Vec<Vec<u8>>, from: usize) -> (end: usize)
    requires
        from <= lines@.len(),
    ensures
        end == block_end(lines_view(lines@), from as int),
        from <= end <= lines@.len(),
{
    let mut i: usize = from;
    while i < lines.len() && !blank(lines[i].as_slice())
        invariant
            from <= i <= lines@.len(),
            block_end(lines_view(lines@), from as int) == block_end(lines_view(lines@), i as int),
        decreases lines@.len() - i,
    {
        i = i + 1;
    }
    i
}

/// Reads a document. A block without a readable timing line fails the whole
/// with the position of the block, counted from one.
pub fn parse(input: &[u8]) -> (r: Result<Document, SubError>)
    ensures
        match r {
            Ok(doc) => parsed(input@) == Ok::<DocumentView, SubError>(doc@),
            Err(e) => parsed(input@) == Err::<DocumentView, SubError>(e),
        },
{
    let lines = split_lines(input);
    let ghost all = lines_view(lines@);
    let mut sentinel: Vec<u8> = Vec::new();
    push_vtt_header(&mut sentinel);
    let headed = starts_with(lines[0].as_slice(), sentinel.as_slice());
    proof {
        assert(all[0] == lines@[0]@);
    }
    let dialect = if headed {
        Dialect::Vtt
    } else {
        Dialect::Srt
    };
    let first: usize = if headed {
        1
    } else {
        0
    };
    let mut cues: Vec<Cue> = Vec::new();
    let mut from: usize = first;
    proof {
        assert(cues_view(cues@) =~= Seq::<CueView>::empty());
        let rest = cues_from(all, first as int, dialect, 1);
        match rest {
            Ok(c) => {
                assert(Seq::<CueView>::empty() + c =~= c);
            },
            Err(_) => {},
        }
    }
    while from < lines.len()
        invariant
            from <= lines@.len(),
            cues@.len() <= from,
            all == lines_view(lines@),
            all == lines_of(input@),
            headed == is_header(all[0]),
            dialect == if headed {
                Dialect::Vtt
            } else {
                Dialect::Srt
            },
            first == if headed {
                1usize
            } else {
                0usize
            },
            cues_from(all, first as int, dialect, 1) == followed_by(
                cues_view(cues@),
                cues_from(all, from as int, dialect, (cues@.len() + 1) as int),
            ),
        decreases lines@.len() - from,
    {
        proof {
            assert(all[from as int] == lines@[from as int]@);
        }
        if blank(lines[from].as_slice()) {
            from = from + 1;
        } else {
            let end = find_block_end(&lines, from);
            proof {
                lemma_block_end(all, from + 1);
            }
            match parse_block(&lines, from, end, dialect) {
                Some(cue) => {
                    let ghost before = cues@;
                    let ghost rest = cues_from(all, end as int, dialect, (before.len() + 2) as int);
                    cues.push(cue);
                    proof {
                        assert(cues_view(cues@) =~= cues_view(before).push(cue@));
                        match rest {
                            Ok(c) => {
                                assert(cues_view(before) + (seq![cue@] + c) =~= cues_view(cues@)
                                    + c);
                            },
                            Err(_) => {},
                        }
                    }
                    from = end;
                },
                None => {
                    return Err(SubError::MalformedCue(cues.len() + 1));
                },
            }
        }
    }
    proof {
        assert(cues_view(cues@) + Seq::<CueView>::empty() =~= cues_view(cues@));
    }
    let header = if headed {
        Some(slice_to_vec(lines[0].as_slice()))
    } else {
        None
    };
    Ok(Document { dialect, header, cues })
}

} // verus!
