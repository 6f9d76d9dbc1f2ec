//! Decides where the output of a shift goes and, where the input file is to
//! be kept, under which name: also where the output goes to a path of the
//! caller's choice, which may be the place of the input. Paths are split and joined by the caller: this
//! module works on the file name alone, and every name it returns belongs
//! into the directory of the input.

use vstd::prelude::*;
use vstd::slice::{slice_subrange, slice_to_vec};
use vstd::string::StringSliceAdditionalSpecFns;
use crate::ascii::DOT;
use crate::bytes::{last_index_of, rfind};
use crate::dialect::Dialect;
use crate::error::SubError;
use crate::matcher::pattern_compiles;
use crate::namer::{matched_name, smart_name, TAG_PATTERN};

verus! {

/// What stands between the stem and the extension in the name under which
/// the input file is kept.
pub const BACKUP_MARK: &'static str = "__[Original].";

/// Where the output goes.
#[derive(Debug, PartialEq, Eq)]
pub enum Target {
    /// To the path that the caller gave, taken as it is.
    Given(Vec<u8>),
    /// To a file of this name beside the input.
    Beside(Vec<u8>),
}

pub enum TargetView {
    Given(Seq<u8>),
    Beside(Seq<u8>),
}

impl View for Target {
    type V = TargetView;

    open spec fn view(&self) -> TargetView {
        match self {
            Target::Given(path) => TargetView::Given(path@),
            Target::Beside(name) => TargetView::Beside(name@),
        }
    }
}

/// The paths of a run.
#[derive(Debug, PartialEq, Eq)]
pub struct Paths {
    pub target: Target,
    /// The name, beside the input, under which the input file is kept.
    pub backup: Option<Vec<u8>>,
}

pub struct PathsView {
    pub target: TargetView,
    pub backup: Option<Seq<u8>>,
}

impl View for Paths {
    type V = PathsView;

    open spec fn view(&self) -> PathsView {
        PathsView {
            target: self.target@,
            backup: match self.backup {
                Some(name) => Some(name@),
                None => None,
            },
        }
    }
}

/// The file name with its extension replaced by that of `convert`.
pub open spec fn converted(name: Seq<u8>, convert: Option<Dialect>) -> Result<Seq<u8>, SubError> {
    match convert {
        None => Ok(name),
        Some(dialect) => match last_index_of(name, DOT) {
            Some(k) => Ok(name.subrange(0, k) + seq![DOT] + dialect.spec_extension()),
            None => Err(SubError::InvalidPath),
        },
    }
}

/// The name under which the input file is kept: stem, mark, extension.
pub open spec fn backup_of(name: Seq<u8>) -> Result<Seq<u8>, SubError> {
    match last_index_of(name, DOT) {
        Some(k) => Ok(
            name.subrange(0, k) + BACKUP_MARK.spec_bytes() + name.subrange(
                k + 1,
                name.len() as int,
            ),
        ),
        None => Err(SubError::InvalidPath),
    }
}

/// The name to keep the input file under, where that is asked for. It
/// stands beside the input, so the input needs a parent and a file name.
pub open spec fn kept_name(has_parent: bool, file_name: Option<Seq<u8>>, copy: bool) -> Result<
    Option<Seq<u8>>,
    SubError,
> {
    if !copy {
        Ok(None)
    } else if !has_parent || file_name is None {
        Err(SubError::InvalidPath)
    } else {
        match backup_of(file_name->0) {
            Ok(kept) => Ok(Some(kept)),
            Err(e) => Err(e),
        }
    }
}

/// The paths of a run, given what names the output: `named` is the result
/// of naming the converted file name.
///
/// A given output path is the target as it stands; otherwise the target is
/// the named file beside the input. Either way the name to keep the input
/// file under is added where `copy` is set.
pub open spec fn resolved(
    has_parent: bool,
    file_name: Option<Seq<u8>>,
    output: Option<Seq<u8>>,
    copy: bool,
    named: Result<Seq<u8>, SubError>,
) -> Result<PathsView, SubError> {
    match output {
        Some(path) => match kept_name(has_parent, file_name, copy) {
            Ok(backup) => Ok(PathsView { target: TargetView::Given(path), backup }),
            Err(e) => Err(e),
        },
        None => if !has_parent || file_name is None {
            Err(SubError::InvalidPath)
        } else {
            match named {
                Err(e) => Err(e),
                Ok(out) => match kept_name(has_parent, file_name, copy) {
                    Ok(backup) => Ok(PathsView { target: TargetView::Beside(out), backup }),
                    Err(e) => Err(e),
                },
            }
        },
    }
}

/// The name of the output as the matcher decides it: the converted file
/// name, tagged.
pub open spec fn output_name(
    file_name: Seq<u8>,
    offset: int,
    partial: bool,
    convert: Option<Dialect>,
) -> Result<Seq<u8>, SubError> {
    match converted(file_name, convert) {
        Ok(renamed) => matched_name(renamed, offset, partial),
        Err(e) => Err(e),
    }
}

pub open spec fn bytes_view(o: Option<&[u8]>) -> Option<Seq<u8>> {
    match o {
        Some(b) => Some(b@),
        None => None,
    }
}

/// Replaces the extension of a file name by that of `convert`, if any.
pub fn converted_name(name: &[u8], convert: Option<Dialect>) -> (r: Result<Vec<u8>, SubError>)
    ensures
        match r {
            Ok(out) => converted(name@, convert) == Ok::<Seq<u8>, SubError>(out@),
            Err(e) => converted(name@, convert) == Err::<Seq<u8>, SubError>(e),
        },
{
    match convert {
        None => Ok(slice_to_vec(name)),
        Some(dialect) => match rfind(name, DOT) {
            Some(k) => {
                let mut out: Vec<u8> = Vec::new();
                out.extend_from_slice(slice_subrange(name, 0, k));
                out.push(DOT);
                out.extend_from_slice(dialect.extension());
                proof {
                    assert(out@ =~= name@.subrange(0, k as int) + seq![DOT]
                        + dialect.spec_extension());
                }
                Ok(out)
            },
            None => Err(SubError::InvalidPath),
        },
    }
}

/// Names the file under which the input file is kept.
pub fn backup_name(name: &[u8]) -> (r: Result<Vec<u8>, SubError>)
    ensures
        match r {
            Ok(out) => backup_of(name@) == Ok::<Seq<u8>, SubError>(out@),
            Err(e) => backup_of(name@) == Err::<Seq<u8>, SubError>(e),
        },
{
    match rfind(name, DOT) {
        Some(k) => {
            let n = name.len();
            let mut out: Vec<u8> = Vec::new();
            out.extend_from_slice(slice_subrange(name, 0, k));
            out.extend_from_slice(BACKUP_MARK.as_bytes());
            out.extend_from_slice(slice_subrange(name, k + 1, n));
            proof {
                assert(out@ =~= name@.subrange(0, k as int) + BACKUP_MARK.spec_bytes()
                    + name@.subrange(k + 1, n as int));
            }
            Ok(out)
        },
        None => Err(SubError::InvalidPath),
    }
}

/// Names the file to keep the input under, where that is asked for.
fn keep(has_parent: bool, file_name: Option<&[u8]>, copy_opt: bool) -> (r: Result<
    Option<Vec<u8>>,
    SubError,
>)
    ensures
        match r {
            Ok(Some(kept)) => kept_name(has_parent, bytes_view(file_name), copy_opt) == Ok::<
                Option<Seq<u8>>,
                SubError,
            >(Some(kept@)),
            Ok(None) => kept_name(has_parent, bytes_view(file_name), copy_opt) == Ok::<
                Option<Seq<u8>>,
                SubError,
            >(None),
            Err(e) => kept_name(has_parent, bytes_view(file_name), copy_opt) == Err::<
                Option<Seq<u8>>,
                SubError,
            >(e),
        },
{
    if !copy_opt {
        return Ok(None);
    }
    if !has_parent {
        return Err(SubError::InvalidPath);
    }
    match file_name {
        Some(name) => match backup_name(name) {
            Ok(kept) => Ok(Some(kept)),
            Err(e) => Err(e),
        },
        None => Err(SubError::InvalidPath),
    }
}

/// Resolves the paths of a run.
///
/// `has_parent` tells whether the input path has a parent directory,
/// `file_name` is its last component. With an output path given, that path
/// is the target. Otherwise the target is a file beside the input: the file
/// name, converted to the extension of `convert_opt` if there is one, and
/// tagged with `offset` hundredths of a second. With `copy_opt` the name to
/// keep the input file under is added, whichever the target.
///
/// The tag that the converted name may bear is found by the matcher; where
/// the matcher does not take the tag pattern, naming fails with
/// `SubError::Matcher`.
pub fn get_paths(
    has_parent: bool,
    file_name: Option<&[u8]>,
    offset: i64,
    partial: bool,
    output_opt: Option<&[u8]>,
    convert_opt: Option<Dialect>,
    copy_opt: bool,
) -> (r: Result<Paths, SubError>)
    ensures
        match r {
            Ok(paths) => resolved(
                has_parent,
                bytes_view(file_name),
                bytes_view(output_opt),
                copy_opt,
                output_name(file_name->0@, offset as int, partial, convert_opt),
            ) == Ok::<PathsView, SubError>(paths@),
            Err(e) => resolved(
                has_parent,
                bytes_view(file_name),
                bytes_view(output_opt),
                copy_opt,
                output_name(file_name->0@, offset as int, partial, convert_opt),
            ) == Err::<PathsView, SubError>(e),
        },
        r matches Err(e) && e == SubError::Matcher ==> !pattern_compiles(TAG_PATTERN@),
{
    if let Some(path) = output_opt {
        return match keep(has_parent, file_name, copy_opt) {
            Ok(backup) => Ok(Paths { target: Target::Given(slice_to_vec(path)), backup }),
            Err(e) => Err(e),
        };
    }
    if !has_parent {
        return Err(SubError::InvalidPath);
    }
    let name = match file_name {
        Some(name) => name,
        None => {
            return Err(SubError::InvalidPath);
        },
    };
    let renamed = match converted_name(name, convert_opt) {
        Ok(renamed) => renamed,
        Err(e) => {
            return Err(e);
        },
    };
    let out = match smart_name(renamed.as_slice(), offset, partial) {
        Ok(out) => out,
        Err(e) => {
            return Err(e);
        },
    };
    match keep(has_parent, file_name, copy_opt) {
        Ok(backup) => Ok(Paths { target: Target::Beside(out), backup }),
        Err(e) => Err(e),
    }
}

} // verus!
