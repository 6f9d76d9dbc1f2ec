//! The text that tells the user how a run ended. Printing it is left to the
//! caller.

use vstd::prelude::*;
use vstd::string::StringSliceAdditionalSpecFns;
use crate::ascii::LF;
use crate::error::SubError;
use crate::text::{decimal, push_decimal};

verus! {

pub const ERROR_HEAD: &'static str = "\u{001b}[38;5;208mError:\u{001b}[0m ";

pub const USAGE: &'static str =
    "USAGE:\n    submod [FLAGS] [OPTIONS] <INPUT> <SECONDS>\n        INPUT: (Path to) .srt or .vtt subtitle file to convert\n        SECONDS: seconds to add or subtract from time encoding\n\nFor more information try \u{001b}[32m--help\u{001b}[0m\n";

pub const SUCCESS_LINE: &'static str = "\u{001b}[32;1mSuccess.\u{001b}[0m\n";

pub const DELETED_HEAD: &'static str = "    \u{001b}[41;1m ! \u{001b}[0m   ";

pub const ONE_DELETED: &'static str = "One subtitle was deleted at the beginning of the file.\n";

pub const MANY_DELETED: &'static str = " subtitles were deleted at the beginning of the file.\n";

pub const RENAMED_HEAD: &'static str = " The input file was renamed to ";

pub const OVERWRITTEN_LINE: &'static str = " The input file was overwritten.\n";

pub const OUTPUT_HEAD: &'static str = " Output: \u{001b}[1m \u{001b}[48;5;238m ";

pub const OUTPUT_TAIL: &'static str = " \u{001b}[0m\n";

pub const TIMESTAMP_MESSAGE: &'static str = "malformed timestamp";

pub const CUE_MESSAGE: &'static str = "malformed cue in block ";

pub const PATH_MESSAGE: &'static str = "incorrect path";

pub const TAG_MESSAGE: &'static str = "malformed tag in the file name";

pub const RANGE_MESSAGE: &'static str = "time or offset out of range";

pub const MATCHER_MESSAGE: &'static str = "the tag pattern was rejected";

/// What an error is called when the user is told of it.
pub open spec fn message_text(error: SubError) -> Seq<u8> {
    match error {
        SubError::MalformedTimestamp => TIMESTAMP_MESSAGE.spec_bytes(),
        SubError::MalformedCue(position) => CUE_MESSAGE.spec_bytes() + decimal(position as nat),
        SubError::InvalidPath => PATH_MESSAGE.spec_bytes(),
        SubError::MalformedTag => TAG_MESSAGE.spec_bytes(),
        SubError::OutOfRange => RANGE_MESSAGE.spec_bytes(),
        SubError::Matcher => MATCHER_MESSAGE.spec_bytes(),
    }
}

/// Words an error for the user.
pub fn error_message(error: SubError) -> (r: Vec<u8>)
    ensures
        r@ == message_text(error),
{
    let mut out: Vec<u8> = Vec::new();
    match error {
        SubError::MalformedTimestamp => {
            out.extend_from_slice(TIMESTAMP_MESSAGE.as_bytes());
        },
        SubError::MalformedCue(position) => {
            out.extend_from_slice(CUE_MESSAGE.as_bytes());
            push_decimal(&mut out, position as u64);
        },
        SubError::InvalidPath => {
            out.extend_from_slice(PATH_MESSAGE.as_bytes());
        },
        SubError::MalformedTag => {
            out.extend_from_slice(TAG_MESSAGE.as_bytes());
        },
        SubError::OutOfRange => {
            out.extend_from_slice(RANGE_MESSAGE.as_bytes());
        },
        SubError::Matcher => {
            out.extend_from_slice(MATCHER_MESSAGE.as_bytes());
        },
    }
    proof {
        assert(out@ =~= message_text(error));
    }
    out
}

/// The line that complains of `error`, followed by an empty line.
pub open spec fn error_text(error: Seq<u8>) -> Seq<u8> {
    ERROR_HEAD.spec_bytes() + error + seq![LF, LF]
}

/// The line about deleted subtitles: none where nothing was deleted.
pub open spec fn deleted_text(deleted_subs: int) -> Seq<u8> {
    if deleted_subs <= 0 {
        Seq::<u8>::empty()
    } else if deleted_subs == 1 {
        DELETED_HEAD.spec_bytes() + ONE_DELETED.spec_bytes()
    } else {
        DELETED_HEAD.spec_bytes() + decimal(deleted_subs as nat) + MANY_DELETED.spec_bytes()
    }
}

/// The line about what became of the input: renamed where a copy was kept,
/// else overwritten where the output took its place, else none.
pub open spec fn input_text(overwrite: bool, copy: Option<Seq<u8>>) -> Seq<u8> {
    match copy {
        Some(kept) => RENAMED_HEAD.spec_bytes() + kept + seq![LF],
        None => if overwrite {
            OVERWRITTEN_LINE.spec_bytes()
        } else {
            Seq::<u8>::empty()
        },
    }
}

pub open spec fn success_text(
    deleted_subs: int,
    output_path: Seq<u8>,
    overwrite: bool,
    copy: Option<Seq<u8>>,
) -> Seq<u8> {
    SUCCESS_LINE.spec_bytes() + deleted_text(deleted_subs) + input_text(overwrite, copy)
        + OUTPUT_HEAD.spec_bytes() + output_path + OUTPUT_TAIL.spec_bytes()
}

/// What to tell the user of a failure: the complaint, which belongs on the
/// error stream, and the usage, which belongs on the output stream.
pub fn report_error(error: &[u8]) -> (r: (Vec<u8>, Vec<u8>))
    ensures
        r.0@ == error_text(error@),
        r.1@ == USAGE.spec_bytes(),
{
    let mut complaint: Vec<u8> = Vec::new();
    complaint.extend_from_slice(ERROR_HEAD.as_bytes());
    complaint.extend_from_slice(error);
    complaint.push(LF);
    complaint.push(LF);
    let mut usage: Vec<u8> = Vec::new();
    usage.extend_from_slice(USAGE.as_bytes());
    proof {
        assert(complaint@ =~= error_text(error@));
        assert(usage@ =~= USAGE.spec_bytes());
    }
    (complaint, usage)
}

/// What to tell the user of a run that went well.
pub fn report_success(
    deleted_subs: i32,
    output_path: &[u8],
    overwrite: bool,
    copy_opt: Option<&[u8]>,
) -> (r: Vec<u8>)
    ensures
        r@ == success_text(
            deleted_subs as int,
            output_path@,
            overwrite,
            match copy_opt {
                Some(kept) => Some(kept@),
                None => None,
            },
        ),
{
    let mut out: Vec<u8> = Vec::new();
    out.extend_from_slice(SUCCESS_LINE.as_bytes());
    if deleted_subs > 0 {
        out.extend_from_slice(DELETED_HEAD.as_bytes());
        if deleted_subs == 1 {
            out.extend_from_slice(ONE_DELETED.as_bytes());
        } else {
            push_decimal(&mut out, deleted_subs as u64);
            out.extend_from_slice(MANY_DELETED.as_bytes());
        }
    }
    proof {
        assert(out@ =~= SUCCESS_LINE.spec_bytes() + deleted_text(deleted_subs as int));
    }
    let ghost head = out@;
    if let Some(kept) = copy_opt {
        out.extend_from_slice(RENAMED_HEAD.as_bytes());
        out.extend_from_slice(kept);
        out.push(LF);
        proof {
            assert(out@ =~= head + input_text(overwrite, Some(kept@)));
        }
    } else if overwrite {
        out.extend_from_slice(OVERWRITTEN_LINE.as_bytes());
    } else {
        proof {
            assert(out@ =~= head + input_text(overwrite, None));
        }
    }
    out.extend_from_slice(OUTPUT_HEAD.as_bytes());
    out.extend_from_slice(output_path);
    out.extend_from_slice(OUTPUT_TAIL.as_bytes());
    out
}

} // verus!
