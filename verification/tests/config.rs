use cgen::cfg::{
    config_names, format_from_extension, format_of_config_path, parse_config_file, ConfigFormat,
    Error, InputsConfig, OutputKind, OutputsConfig, Settings,
};
use cgen::cli::{load, Args};
use cgen::frontends::{create_frontend, is_any_allowed_extension, ClangConfig, LibClang};
use cgen::{frontend_for, process_file, CgenErrorKind};
use cgen::ast::{Entity, EntityKind, Extent, Linkage, Location};
use cgen::backends::WriteErrorKind;
use cgen::frontends::ErrorKind;
use std::sync::OnceLock;

fn settings() -> Settings {
    Settings { inputs: InputsConfig::default(), outputs: OutputsConfig::default() }
}

fn entity(start: u32, end: u32) -> Entity {
    Entity {
        kind: EntityKind::Other,
        definition: false,
        extent: Some(Extent {
            start: Location { in_file: true, offset: start },
            end: Location { in_file: true, offset: end },
        }),
        linkage: Some(Linkage::External),
        comment: None,
        children: Vec::new(),
    }
}

#[test]
fn formats_follow_the_extension() {
    assert_eq!(format_from_extension("json"), Some(ConfigFormat::Json));
    assert_eq!(format_from_extension("yml"), Some(ConfigFormat::Yaml));
    assert_eq!(format_from_extension("yaml"), Some(ConfigFormat::Yaml));
    assert_eq!(format_from_extension("toml"), Some(ConfigFormat::Toml));
    assert_eq!(format_from_extension("ini"), None);
    assert_eq!(format_from_extension("JSON"), None);
}

#[test]
fn config_paths_need_a_known_extension() {
    assert!(matches!(format_of_config_path(Some("toml")), Ok(ConfigFormat::Toml)));
    assert!(matches!(format_of_config_path(Some("txt")), Err(Error::InvalidExtension)));
    assert!(matches!(format_of_config_path(None), Err(Error::InvalidExtension)));
}

#[test]
fn config_files_are_searched_in_order() {
    assert_eq!(config_names(), vec!["cgen.json", "cgen.yml", "cgen.yaml", "cgen.toml"]);
}

#[test]
fn config_names_are_tried_in_order_then_the_parent() {
    assert_eq!(cgen::cfg::config_name_to_try(0), Some("cgen.json"));
    assert_eq!(cgen::cfg::config_name_to_try(1), Some("cgen.yml"));
    assert_eq!(cgen::cfg::config_name_to_try(2), Some("cgen.yaml"));
    assert_eq!(cgen::cfg::config_name_to_try(3), Some("cgen.toml"));
    assert_eq!(cgen::cfg::config_name_to_try(4), None);
}

#[test]
fn defaults_match_the_documentation() {
    let c = ClangConfig::default();
    assert_eq!(c.extensions, vec!["c", "cpp", "cc", "cxx", "c++", "m", "mm"]);
    let o = OutputsConfig::default();
    assert_eq!(o.enable, vec![OutputKind::CHeader]);
    assert_eq!(o.c_header.extension, "h");
    assert!(o.all.watermark);
    assert_eq!(InputsConfig::default().clang.extensions.len(), 7);
}

#[test]
fn settings_are_installed_once() {
    static CELL: OnceLock<Settings> = OnceLock::new();
    assert!(Settings::global(&CELL).is_none());
    assert!(matches!(parse_config_file(&CELL, None), Err(Error::InvalidFormat)));
    assert!(matches!(parse_config_file(&CELL, Some(settings())), Ok(Ok(()))));
    assert!(Settings::global(&CELL).is_some());
    assert!(matches!(parse_config_file(&CELL, Some(settings())), Ok(Err(_))));
}

#[test]
fn arguments_are_installed_once() {
    static CELL: OnceLock<Args> = OnceLock::new();
    let args = Args {
        path: vec!["src".to_string()],
        config: None,
        watch: false,
        watch_interval: 100,
        ignore: false,
        hidden: false,
    };
    assert!(Args::global(&CELL).is_none());
    assert!(load(&CELL, args).is_ok());
    assert_eq!(Args::global(&CELL).unwrap().path, vec!["src".to_string()]);
    let again = Args { path: vec![], config: None, watch: true, watch_interval: 5, ignore: true, hidden: true };
    let back = load(&CELL, again).unwrap_err();
    assert_eq!(back.watch_interval, 5);
}

#[test]
fn only_configured_extensions_are_parsed() {
    let s = settings();
    assert!(LibClang::is_allowed_extension(&s, "src/a.c"));
    assert!(LibClang::is_allowed_extension(&s, "x/y.c++"));
    assert!(!LibClang::is_allowed_extension(&s, "src/a.h"));
    assert!(!LibClang::is_allowed_extension(&s, "Makefile"));
    assert!(is_any_allowed_extension(&s, "a.mm"));
    assert!(create_frontend(&s, "a.rs").is_none());
    assert_eq!(create_frontend(&s, "b.cc").unwrap().source_path, "b.cc");
}

#[test]
fn disallowed_extensions_name_the_extension() {
    let s = settings();
    match frontend_for(&s, "lib.rs") {
        Err(e) => {
            assert_eq!(e.path, "lib.rs");
            match e.source {
                CgenErrorKind::DisallowedExtension { extension } => assert_eq!(extension, "rs"),
                _ => panic!("wrong error"),
            }
        }
        Ok(_) => panic!("rs is not allowed"),
    }
    match frontend_for(&s, "README") {
        Err(e) => match e.source {
            CgenErrorKind::DisallowedExtension { extension } => assert_eq!(extension, ""),
            _ => panic!("wrong error"),
        },
        Ok(_) => panic!("no extension is not allowed"),
    }
    assert!(frontend_for(&s, "ok.c").is_ok());
}

#[test]
fn process_file_produces_one_header_per_enabled_output() {
    let s = settings();
    let f = LibClang::new("src/counter.c");
    let text = "int count;\nstatic int hidden;\n";
    let mut hidden = entity(11, 28);
    hidden.linkage = Some(Linkage::Internal);
    let outputs = process_file(&f, &s, Ok(vec![entity(0, 9), hidden]), Some(text)).unwrap();
    assert_eq!(outputs.len(), 1);
    assert_eq!(outputs[0].path, "src/counter.h");
    assert!(outputs[0].content.contains("\n\nint count;\n\n#endif"));
    assert!(outputs[0].content.starts_with("// Generated by cgen 0.1.0\n"));
    assert!(!outputs[0].content.contains("hidden"));
}

#[test]
fn process_file_reports_errors_in_order() {
    let s = settings();
    let f = LibClang::new("a.c");
    match process_file(&f, &s, Err(clang::SourceError::Unknown), None) {
        Err(CgenErrorKind::FrontendError(e)) => assert!(matches!(e.source, ErrorKind::Parse(_))),
        _ => panic!("the parse error comes first"),
    }
    match process_file(&f, &s, Ok(vec![entity(0, 3)]), None) {
        Err(CgenErrorKind::WriteError(e)) => {
            assert_eq!(e.path, "a.h");
            assert!(matches!(e.source, WriteErrorKind::UnwrapContent));
        }
        _ => panic!("missing content must be reported"),
    }
    let mut none = s;
    none.outputs.enable.clear();
    assert!(process_file(&f, &none, Err(clang::SourceError::Unknown), None).unwrap().is_empty());
}
