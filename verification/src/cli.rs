//! The command line of cgen.
use vstd::prelude::*;

use crate::once::{once_get, once_set};
use std::sync::OnceLock;

verus! {

/// The arguments that cgen was started with.
#[derive(Debug)]
pub struct Args {
    /// Files or directories to transform
    pub path: Vec<String>,
    /// Path to config file
    pub config: Option<String>,
    /// Watch for changes in files/directories
    pub watch: bool,
    /// Polling interval for --watch, in milliseconds
    pub watch_interval: u64,
    /// Respect .gitignore and .ignore when transforming directories (on by default)
    pub ignore: bool,
    /// Allow transforming hidden files and directories (off by default)
    pub hidden: bool,
}

impl Args {
    /// The arguments installed in `cell`, where the program keeps them once they are
    /// parsed; `None` before that.
    pub fn global(cell: &'static OnceLock<Args>) -> Option<&'static Args> {
        once_get(cell)
    }
}

/// Installs the parsed arguments in `cell`; `Err(args)` hands them back when
/// arguments were installed before.
pub fn load(cell: &'static OnceLock<Args>, args: Args) -> (r: Result<(), Args>)
    ensures
        r matches Err(a) ==> a == args,
{
    once_set(cell, args)
}

} // verus!
