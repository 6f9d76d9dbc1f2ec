//! The two textual subtitle grammars.

use vstd::prelude::*;
use vstd::string::StringSliceAdditionalSpecFns;
use crate::ascii::{COMMA, DOT, UPPER_B, UPPER_E, UPPER_T, UPPER_V, UPPER_W};
use crate::bytes::{ends_with, has_suffix};

verus! {

/// The extension of a SubRip file, without its dot.
pub const SRT_EXTENSION: &'static str = "srt";

/// The extension of a WebVTT file, without its dot.
pub const VTT_EXTENSION: &'static str = "vtt";

/// The end of the name of a SubRip file.
pub const SRT_SUFFIX: &'static str = ".srt";

/// The end of the name of a WebVTT file.
pub const VTT_SUFFIX: &'static str = ".vtt";

#[derive(Clone, Copy, Debug, PartialEq, Eq, Structural)]
pub enum Dialect {
    /// SubRip: `hh:mm:ss,mmm` timestamps, numbered cues, no header.
    Srt,
    /// WebVTT: `hh:mm:ss.mmm` timestamps, a header line, cues without numbers.
    Vtt,
}

/// `WEBVTT`, which the line that opens a WebVTT document starts with.
pub open spec fn vtt_header() -> Seq<u8> {
    seq![UPPER_W, UPPER_E, UPPER_B, UPPER_V, UPPER_T, UPPER_T]
}

/// Appends `WEBVTT`.
pub fn push_vtt_header(out: &mut Vec<u8>)
    ensures
        final(out)@ == old(out)@ + vtt_header(),
{
    out.push(UPPER_W);
    out.push(UPPER_E);
    out.push(UPPER_B);
    out.push(UPPER_V);
    out.push(UPPER_T);
    out.push(UPPER_T);
    proof {
        assert(out@ =~= old(out)@ + vtt_header());
    }
}

/// The dialect that the extension of a file name stands for.
pub open spec fn dialect_of_name(name: Seq<u8>) -> Option<Dialect> {
    if has_suffix(name, SRT_SUFFIX.spec_bytes()) {
        Some(Dialect::Srt)
    } else if has_suffix(name, VTT_SUFFIX.spec_bytes()) {
        Some(Dialect::Vtt)
    } else {
        None
    }
}

impl Dialect {
    /// The byte between the seconds and the milliseconds of a timestamp.
    pub open spec fn spec_separator(self) -> u8 {
        match self {
            Dialect::Srt => COMMA,
            Dialect::Vtt => DOT,
        }
    }

    pub open spec fn spec_extension(self) -> Seq<u8> {
        match self {
            Dialect::Srt => SRT_EXTENSION.spec_bytes(),
            Dialect::Vtt => VTT_EXTENSION.spec_bytes(),
        }
    }

    pub fn separator(self) -> (b: u8)
        ensures
            b == self.spec_separator(),
    {
        match self {
            Dialect::Srt => COMMA,
            Dialect::Vtt => DOT,
        }
    }

    /// The extension of a file in this dialect, without its dot.
    pub fn extension(self) -> (e: &'static [u8])
        ensures
            e@ == self.spec_extension(),
    {
        match self {
            Dialect::Srt => SRT_EXTENSION.as_bytes(),
            Dialect::Vtt => VTT_EXTENSION.as_bytes(),
        }
    }

    /// Reads the dialect off the extension of a file name.
    pub fn of_name(name: &[u8]) -> (r: Option<Dialect>)
        ensures
            r == dialect_of_name(name@),
    {
        if ends_with(name, SRT_SUFFIX.as_bytes()) {
            Some(Dialect::Srt)
        } else if ends_with(name, VTT_SUFFIX.as_bytes()) {
            Some(Dialect::Vtt)
        } else {
            None
        }
    }
}

} // verus!
