//! Front ends: they read a source file and select the byte ranges of its declarations.
use vstd::prelude::*;

pub mod libclang;

pub use libclang::{ClangConfig, LibClang};

verus! {

/// The error that clang reports when it cannot parse a translation unit.
#[verifier::external_type_specification]
#[verifier::external_body]
pub struct ExClangSourceError(clang::SourceError);

/// A front end failed on the file at `path`.
#[derive(Debug)]
pub struct Error {
    pub path: String,
    pub source: ErrorKind,
}

/// Why a front end failed.
#[derive(Debug)]
pub enum ErrorKind {
    /// The parser could not parse the content.
    Parse(clang::SourceError),
    /// A declaration had no usable source range.
    SourceRange,
}

/// A byte range of the source file to copy into the outputs, with the
/// documentation comment of the declaration it holds.
#[derive(Debug)]
pub struct SourceRange {
    pub range: core::ops::Range<u32>,
    pub comment: Option<String>,
}

/// A copy of a range whose contents are known to be equal to the original.
pub fn copy_range(r: &SourceRange) -> (c: SourceRange)
    ensures
        c == *r,
{
    let comment = match &r.comment {
        Some(text) => Some(text.clone()),
        None => None,
    };
    SourceRange { range: r.range.start..r.range.end, comment }
}

/// The front end that parses the file at `path`, if the settings have one parse
/// files with its extension.
pub fn create_frontend(settings: &crate::cfg::Settings, path: &str) -> (r: Option<LibClang>)
    ensures
        libclang::allowed_extension(settings, path@) ==> (r matches Some(f) && f.source_path@ == path@),
        !libclang::allowed_extension(settings, path@) ==> r is None,
{
    if LibClang::is_allowed_extension(settings, path) {
        Some(LibClang::new(path))
    } else {
        None
    }
}

/// Whether some front end parses the file at `path`.
pub fn is_any_allowed_extension(settings: &crate::cfg::Settings, path: &str) -> (r: bool)
    ensures
        r == libclang::allowed_extension(settings, path@),
{
    LibClang::is_allowed_extension(settings, path)
}

} // verus!
