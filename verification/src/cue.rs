//! A subtitle document: its cues in the order of the file.

use vstd::prelude::*;
use crate::ascii::{CR, LF, SPACE, TAB};
use crate::dialect::Dialect;
use crate::timecode::TimeCode;

verus! {

/// One subtitle: when it shows and what it shows.
#[derive(Clone, Debug, PartialEq, Eq)]
pub struct Cue {
    /// The number of the cue, if it has one. A number read from a file is
    /// kept as read; shifting numbers the cues anew.
    pub index: Option<u64>,
    pub start: TimeCode,
    pub end: TimeCode,
    /// The lines of text, in order, without their line ends.
    pub text: Vec<Vec<u8>>,
}

pub struct CueView {
    pub index: Option<u64>,
    pub start: int,
    pub end: int,
    pub text: Seq<Seq<u8>>,
}

/// The lines of a list of byte strings.
pub open spec fn lines_view(lines: Seq<Vec<u8>>) -> Seq<Seq<u8>> {
    Seq::new(lines.len(), |i: int| lines[i]@)
}

impl View for Cue {
    type V = CueView;

    open spec fn view(&self) -> CueView {
        CueView {
            index: self.index,
            start: self.start@,
            end: self.end@,
            text: lines_view(self.text@),
        }
    }
}

pub open spec fn cues_view(cues: Seq<Cue>) -> Seq<CueView> {
    Seq::new(cues.len(), |i: int| cues[i]@)
}

/// A document: the dialect it was read in, the header line of a WebVTT
/// file as it stood there, and the cues.
#[derive(Clone, Debug, PartialEq, Eq)]
pub struct Document {
    pub dialect: Dialect,
    pub header: Option<Vec<u8>>,
    pub cues: Vec<Cue>,
}

pub struct DocumentView {
    pub dialect: Dialect,
    pub header: Option<Seq<u8>>,
    pub cues: Seq<CueView>,
}

impl View for Document {
    type V = DocumentView;

    open spec fn view(&self) -> DocumentView {
        DocumentView {
            dialect: self.dialect,
            header: match self.header {
                Some(line) => Some(line@),
                None => None,
            },
            cues: cues_view(self.cues@),
        }
    }
}

/// A line holds no line feed and ends in no carriage return.
pub open spec fn is_line(s: Seq<u8>) -> bool {
    (forall|i: int| 0 <= i < s.len() ==> #[trigger] s[i] != LF) && (s.len() > 0 ==> s.last() != CR)
}

/// A blank line holds nothing but spaces and tabs.
pub open spec fn is_blank(s: Seq<u8>) -> bool {
    forall|i: int| 0 <= i < s.len() ==> #[trigger] s[i] == SPACE || s[i] == TAB
}

impl CueView {
    /// A cue as a file can hold it: it ends no earlier than it starts, it
    /// starts no earlier than the timeline, and its text is lines that are
    /// not blank.
    pub open spec fn well_formed(self) -> bool {
        &&& 0 <= self.start <= self.end <= i64::MAX
        &&& forall|i: int|
            0 <= i < self.text.len() ==> is_line(#[trigger] self.text[i]) && !is_blank(
                self.text[i],
            )
    }
}

impl DocumentView {
    pub open spec fn well_formed(self) -> bool {
        forall|i: int| 0 <= i < self.cues.len() ==> (#[trigger] self.cues[i]).well_formed()
    }
}

pub fn blank(line: &[u8]) -> (r: bool)
    ensures
        r == is_blank(line@),
{
    let mut i: usize = 0;
    while i < line.len()
        invariant
            i <= line@.len(),
            forall|j: int| 0 <= j < i ==> #[trigger] line@[j] == SPACE || line@[j] == TAB,
        decreases line@.len() - i,
    {
        if line[i] != SPACE && line[i] != TAB {
            return false;
        }
        i = i + 1;
    }
    true
}

} // verus!
