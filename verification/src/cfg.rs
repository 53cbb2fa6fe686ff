//! The configuration of cgen: which inputs are parsed, which outputs are written,
//! and how a configuration file is told apart by its format.
use vstd::prelude::*;

use crate::backends::CHeaderConfig;
use crate::frontends::ClangConfig;
use crate::once::once_get;
use std::sync::OnceLock;

verus! {

/// The error that reading a file reports.
#[verifier::external_type_specification]
#[verifier::external_body]
pub struct ExIoError(std::io::Error);

/// Why the configuration could not be loaded.
#[derive(Debug)]
pub enum Error {
    /// No configuration file was found.
    NotFound,
    /// The configuration file does not hold valid settings in its format.
    InvalidFormat,
    /// The configuration file's extension names no known format.
    InvalidExtension,
    /// The configuration file could not be read.
    Io(std::io::Error),
}

/// All settings of cgen.
#[derive(Debug)]
pub struct Settings {
    pub inputs: InputsConfig,
    pub outputs: OutputsConfig,
}

/// The settings of the inputs.
#[derive(Debug)]
pub struct InputsConfig {
    pub clang: ClangConfig,
}

/// The kinds of output that cgen can write.
#[derive(Clone, Copy, Debug, PartialEq, Eq, Structural)]
pub enum OutputKind {
    CHeader,
}

/// The settings of all outputs.
#[derive(Debug)]
pub struct AllOutputsConfig {
    /// Adds a watermark displaying cgen version to generated files
    pub watermark: bool,
}

/// The settings of the outputs.
#[derive(Debug)]
pub struct OutputsConfig {
    pub all: AllOutputsConfig,
    /// The outputs to enable
    pub enable: Vec<OutputKind>,
    pub c_header: CHeaderConfig,
}

impl Default for AllOutputsConfig {
    fn default() -> (r: Self)
        ensures
            r.watermark,
    {
        AllOutputsConfig { watermark: true }
    }
}

impl Default for InputsConfig {
    fn default() -> (r: Self)
        ensures
            r.clang.extensions@.map_values(|e: String| e@) == crate::frontends::libclang::default_extensions(),
    {
        InputsConfig { clang: ClangConfig::default() }
    }
}

impl Default for OutputsConfig {
    fn default() -> (r: Self)
        ensures
            r.all.watermark,
            r.enable@ == seq![OutputKind::CHeader],
            r.c_header.extension@ == "h"@,
    {
        let mut enable: Vec<OutputKind> = Vec::new();
        enable.push(OutputKind::CHeader);
        OutputsConfig { all: AllOutputsConfig::default(), enable, c_header: CHeaderConfig::default() }
    }
}

impl Settings {
    /// The settings installed in `cell`, where the program keeps them once they are
    /// loaded; `None` before that.
    pub fn global(cell: &'static OnceLock<Settings>) -> Option<&'static Settings> {
        once_get(cell)
    }
}

/// The formats a configuration file can be written in.
#[derive(Clone, Copy, Debug, PartialEq, Eq, Structural)]
pub enum ConfigFormat {
    Json,
    Yaml,
    Toml,
}

/// A configuration file: its content and the format it is written in.
#[derive(Debug)]
pub struct ConfigFile {
    pub content: String,
    pub format: ConfigFormat,
}

/// The names of the configuration files that cgen looks for, in order, in the
/// current directory and then in each of its ancestors.
pub open spec fn config_file_names() -> Seq<Seq<char>> {
    seq!["cgen.json"@, "cgen.yml"@, "cgen.yaml"@, "cgen.toml"@]
}

/// The format that a file extension names.
pub open spec fn format_of(extension: Seq<char>) -> Option<ConfigFormat> {
    if extension == "json"@ {
        Some(ConfigFormat::Json)
    } else if extension == "yml"@ || extension == "yaml"@ {
        Some(ConfigFormat::Yaml)
    } else if extension == "toml"@ {
        Some(ConfigFormat::Toml)
    } else {
        None
    }
}

/// The names of the configuration files that cgen looks for, in order.
pub fn config_names() -> (r: Vec<&'static str>)
    ensures
        r@.map_values(|s: &str| s@) == config_file_names(),
{
    let mut names: Vec<&'static str> = Vec::new();
    names.push("cgen.json");
    names.push("cgen.yml");
    names.push("cgen.yaml");
    names.push("cgen.toml");
    assert(names@.map_values(|s: &str| s@) =~= config_file_names());
    names
}

/// The search for a configuration file (`search_upwards`), one step at a time: in a
/// directory where the first `tried` names were not found, the name to try next, or
/// `None` when all were tried and the search goes on in the parent directory.
pub fn config_name_to_try(tried: usize) -> (r: Option<&'static str>)
    ensures
        tried < config_file_names().len() ==> (r matches Some(name) && name@ == config_file_names()[tried as int]),
        tried >= config_file_names().len() ==> r is None,
{
    let names = config_names();
    if tried < names.len() {
        assert(names@.map_values(|s: &str| s@)[tried as int] == names@[tried as int]@);
        Some(names[tried])
    } else {
        None
    }
}

/// The format that a file extension names (`format_from_extension`).
pub fn format_from_extension(extension: &str) -> (r: Option<ConfigFormat>)
    ensures
        r == format_of(extension@),
{
    let e = String::from_str(extension);
    if e == String::from_str("json") {
        Some(ConfigFormat::Json)
    } else if e == String::from_str("yml") || e == String::from_str("yaml") {
        Some(ConfigFormat::Yaml)
    } else if e == String::from_str("toml") {
        Some(ConfigFormat::Toml)
    } else {
        None
    }
}

/// The format of a configuration file named on the command line, from the extension
/// of its path (`None` when the path has none, or none in UTF-8).
pub fn format_of_config_path(extension: Option<&str>) -> (r: Result<ConfigFormat, Error>)
    ensures
        match extension {
            Some(e) => match format_of(e@) {
                Some(f) => r matches Ok(g) && g == f,
                None => r matches Err(Error::InvalidExtension),
            },
            None => r matches Err(Error::InvalidExtension),
        },
{
    match extension {
        None => Err(Error::InvalidExtension),
        Some(e) => match format_from_extension(e) {
            Some(f) => Ok(f),
            None => Err(Error::InvalidExtension),
        },
    }
}

/// Installs the settings parsed from a configuration file (`parse_config_file`,
/// once the file has been parsed): `Err(InvalidFormat)` when the file did not hold
/// valid settings; otherwise what installing them gave, `Err(settings)` when
/// settings had been installed before.
pub fn parse_config_file(cell: &'static OnceLock<Settings>, parsed: Option<Settings>) -> (r: Result<
    Result<(), Settings>,
    Error,
>)
    ensures
        parsed is None <==> r matches Err(Error::InvalidFormat),
        parsed is Some ==> r is Ok,
        r matches Ok(Err(s)) ==> parsed == Some(s),
{
    match parsed {
        None => Err(Error::InvalidFormat),
        Some(settings) => Ok(crate::once::once_set(cell, settings)),
    }
}

} // verus!
