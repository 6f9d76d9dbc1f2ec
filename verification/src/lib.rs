//! Shifts the timing of subtitle cues in SubRip and WebVTT documents and
//! derives the name of the shifted file.
//!
//! Documents and file names are byte strings throughout. Every function is
//! verified against a contract stated over the mathematical view of its
//! arguments.

pub mod ascii;
pub mod error;
pub mod text;
pub mod matcher;
pub mod tag;
pub mod namer;
pub mod namer_laws;
pub mod bytes;
pub mod dialect;
pub mod paths;
pub mod validate;
pub mod report;
pub mod timecode;
pub mod cue;
pub mod parser;
pub mod shift;
pub mod serialize;
pub mod transform;
pub mod shift_laws;
pub mod line_laws;
pub mod roundtrip;
