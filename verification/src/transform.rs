//! The whole way from the text of a file to the text of the shifted file.

use vstd::prelude::*;
use crate::cue::DocumentView;
use crate::dialect::Dialect;
use crate::error::SubError;
use crate::parser::{parse, parsed};
use crate::serialize::{serialize, serialized};
use crate::shift::{shift, shift_fits, shifted, Window, WindowView};

verus! {

/// The dialect to write in: the one asked for, else that of the document.
pub open spec fn target_dialect(doc: DocumentView, target: Option<Dialect>) -> Dialect {
    match target {
        Some(dialect) => dialect,
        None => doc.dialect,
    }
}

/// The text of the shifted document and the number of cues dropped.
pub open spec fn transformed(
    input: Seq<u8>,
    delta: int,
    window: WindowView,
    target: Option<Dialect>,
) -> Result<(Seq<u8>, int), SubError> {
    match parsed(input) {
        Err(e) => Err(e),
        Ok(doc) => if shift_fits(doc.cues, delta, window) {
            let moved = DocumentView {
                dialect: doc.dialect,
                header: doc.header,
                cues: shifted(doc.cues, delta, window),
            };
            Ok(
                (
                    serialized(moved, target_dialect(doc, target)),
                    doc.cues.len() - moved.cues.len(),
                ),
            )
        } else {
            Err(SubError::OutOfRange)
        },
    }
}

/// Reads `input`, shifts its cues by `delta_ms` milliseconds inside
/// `window`, and writes the result in the dialect `target`, or in its own
/// where `target` is `None`. Returns the text and the number of cues that
/// were dropped. Nothing is written unless the whole document was read and
/// shifted.
pub fn transform(input: &[u8], delta_ms: i64, window: &Window, target: Option<Dialect>) -> (r:
    Result<(Vec<u8>, usize), SubError>)
    ensures
        match r {
            Ok((out, deleted)) => transformed(input@, delta_ms as int, window@, target) == Ok::<
                (Seq<u8>, int),
                SubError,
            >((out@, deleted as int)),
            Err(e) => transformed(input@, delta_ms as int, window@, target) == Err::<
                (Seq<u8>, int),
                SubError,
            >(e),
        },
{
    let mut doc = match parse(input) {
        Ok(doc) => doc,
        Err(e) => {
            return Err(e);
        },
    };
    let ghost read = doc@;
    let deleted = match shift(&mut doc, delta_ms, window) {
        Ok(deleted) => deleted,
        Err(e) => {
            return Err(e);
        },
    };
    let dialect = match target {
        Some(dialect) => dialect,
        None => doc.dialect,
    };
    let out = serialize(&doc, dialect);
    proof {
        assert(doc@ == (DocumentView {
            dialect: read.dialect,
            header: read.header,
            cues: shifted(read.cues, delta_ms as int, window@),
        }));
    }
    Ok((out, deleted))
}

} // verus!
