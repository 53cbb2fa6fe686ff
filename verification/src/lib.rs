//! cgen: generates C/C++ headers from the declarations of source files.
//!
//! A front end selects the byte ranges of the declarations of a source file that a
//! header keeps; a back end assembles them into the header's text.
use vstd::prelude::*;

pub mod ast;
pub mod backends;
pub mod cfg;
pub mod cli;
pub mod frontends;
pub mod once;
pub mod paths;
pub mod seqs;
pub mod source;
pub mod text;
pub mod watch;

use crate::ast::Entity;
use crate::backends::c_header::{assemble, header_of};
use crate::backends::{CHeader, WriteError};
use crate::cfg::{OutputKind, Settings};
use crate::frontends::libclang::{allowed_extension, select_all, select_safe};
use crate::frontends::{create_frontend, ErrorKind, LibClang};
use crate::paths::{extension_of, has_separator, path_extension, with_extension};
use crate::text::trim;

verus! {

/// The version of cgen, which the watermark of a generated file names.
pub open spec fn cgen_version() -> Seq<char> {
    "0.1.0"@
}

/// The version of cgen.
pub fn version() -> (r: &'static str)
    ensures
        r@ == cgen_version(),
{
    "0.1.0"
}

/// Length of a half-open byte range, zero when it is empty.
pub open spec fn span(start: u32, end: u32) -> int {
    if start < end {
        end - start
    } else {
        0
    }
}

/// Generating the outputs of the source file at `path` failed.
#[derive(Debug)]
pub struct CgenError {
    pub path: String,
    pub source: CgenErrorKind,
}

/// Why generating the outputs of a source file failed.
#[derive(Debug)]
pub enum CgenErrorKind {
    /// No front end parses files with this extension.
    DisallowedExtension { extension: String },
    /// The content could not be parsed.
    Parse(clang::SourceError),
    FrontendError(frontends::Error),
    WriteError(WriteError),
    WatchError(watch::WatchError),
}

/// One file to write: its path and its content.
#[derive(Debug)]
pub struct Output {
    pub path: String,
    pub content: String,
}

/// Whether the error is `DisallowedExtension` naming the extension of `path`, or
/// the empty text when it has none.
pub open spec fn names_extension_of(kind: CgenErrorKind, path: Seq<char>) -> bool {
    match kind {
        CgenErrorKind::DisallowedExtension { extension } => extension@ == match extension_of(
            path,
        ) {
            Some(x) => x,
            None => ""@,
        },
        _ => false,
    }
}

/// The front end for the file at `path`, or the error that its extension is not
/// allowed, which names the extension (empty when there is none).
pub fn frontend_for(settings: &Settings, path: &str) -> (r: Result<LibClang, CgenError>)
    ensures
        allowed_extension(settings, path@) ==> (r matches Ok(f) && f.source_path@ == path@),
        !allowed_extension(settings, path@) ==> (r matches Err(e) && e.path@ == path@
            && names_extension_of(e.source, path@)),
{
    match create_frontend(settings, path) {
        Some(f) => Ok(f),
        None => {
            let extension = match path_extension(path) {
                Some(e) => e,
                None => String::from_str(""),
            };
            Err(
                CgenError {
                    path: String::from_str(path),
                    source: CgenErrorKind::DisallowedExtension { extension },
                },
            )
        },
    }
}

/// The outputs of one source file, given what its front end's parser made of it and
/// the content of the file (`None` where it could not be read): one for each
/// enabled output kind, in order. The first failure ends the work: the parse error
/// or a declaration without a source range, then content that could not be read.
pub fn process_file(
    frontend: &LibClang,
    settings: &Settings,
    parsed: Result<Vec<Entity>, clang::SourceError>,
    file_content: Option<&str>,
) -> (r: Result<Vec<Output>, CgenErrorKind>)
    requires
        settings.outputs.enable@.len() > 0 ==> !has_separator(settings.outputs.c_header.extension@),
        settings.outputs.enable@.len() > 0 ==> (parsed matches Ok(nodes) ==> select_safe(nodes@)),
    ensures
        settings.outputs.enable@.len() == 0 ==> (r matches Ok(v) && v@.len() == 0),
        settings.outputs.enable@.len() > 0 ==> match parsed {
            Err(e) => r matches Err(CgenErrorKind::FrontendError(err)) && err.path@
                == frontend.source_path@ && err.source == ErrorKind::Parse(e),
            Ok(nodes) => match select_all(nodes@) {
                None => r matches Err(CgenErrorKind::FrontendError(err)) && err.path@
                    == frontend.source_path@ && err.source is SourceRange,
                Some(ranges) => match file_content {
                    None => r matches Err(CgenErrorKind::WriteError(w)) && w.path@
                        == with_extension(
                        frontend.source_path@,
                        settings.outputs.c_header.extension@,
                    ) && w.source is UnwrapContent,
                    Some(text) => r matches Ok(v) && v@.len() == settings.outputs.enable@.len()
                        && forall|i: int|
                        0 <= i < v@.len() ==> {
                            &&& (#[trigger] v@[i]).path@ == with_extension(
                                frontend.source_path@,
                                settings.outputs.c_header.extension@,
                            )
                            &&& v@[i].content@ == header_of(trim(assemble(text@, ranges)), settings.outputs.all.watermark)
                        },
                },
            },
        },
{
    let mut outputs: Vec<Output> = Vec::new();
    let n = settings.outputs.enable.len();
    if n == 0 {
        return Ok(outputs);
    }
    let ranges = match frontend.generate_ranges(parsed) {
        Ok(ranges) => ranges,
        Err(e) => return Err(CgenErrorKind::FrontendError(e)),
    };
    let ghost text = match file_content {
        Some(t) => t@,
        None => Seq::empty(),
    };
    let mut i: usize = 0;
    while i < n
        invariant
            n == settings.outputs.enable@.len(),
            i <= n,
            !has_separator(settings.outputs.c_header.extension@),
            file_content is None ==> i == 0,
            parsed matches Ok(nodes) && select_all(nodes@) == Some(ranges@),
            file_content matches Some(t) ==> t@ == text,
            outputs@.len() == i,
            forall|j: int|
                0 <= j < i ==> {
                    &&& (#[trigger] outputs@[j]).path@ == with_extension(
                        frontend.source_path@,
                        settings.outputs.c_header.extension@,
                    )
                    &&& outputs@[j].content@ == header_of(trim(assemble(text, ranges@)), settings.outputs.all.watermark)
                },
        decreases n - i,
    {
        match settings.outputs.enable[i] {
            OutputKind::CHeader => {
                let backend = CHeader::new(frontend.source_path(), settings);
                let content = backend.generate_content(file_content, &ranges);
                let content = match backend.write(content) {
                    Ok(c) => c,
                    Err(e) => return Err(CgenErrorKind::WriteError(e)),
                };
                outputs.push(Output { path: backend.generated_path, content });
            },
        }
        i = i + 1;
    }
    Ok(outputs)
}

} // verus!
