//! Back ends: they turn the selected declarations into the files that cgen writes.
use vstd::prelude::*;

pub mod c_header;

pub use c_header::{CHeader, Config as CHeaderConfig};

verus! {

/// Writing the output at `path` failed.
#[derive(Debug)]
pub struct WriteError {
    pub path: String,
    pub source: WriteErrorKind,
}

/// Why writing an output failed.
#[derive(Debug)]
pub enum WriteErrorKind {
    /// There was no content to write: the source file could not be read.
    UnwrapContent,
    /// The file could not be written.
    Io(std::io::Error),
}

/// What to write to `out_path`: the content, or the error that there is none,
/// which is what writing an output decides before the file is written.
pub fn content_to_write(out_path: &str, content: Option<String>) -> (r: Result<String, WriteError>)
    ensures
        match content {
            Some(c) => r matches Ok(w) && w == c,
            None => r matches Err(e) && e.path@ == out_path@ && e.source is UnwrapContent,
        },
{
    match content {
        Some(c) => Ok(c),
        None => Err(WriteError { path: String::from_str(out_path), source: WriteErrorKind::UnwrapContent }),
    }
}

} // verus!
