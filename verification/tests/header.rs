use cgen::backends::c_header::{CHeader, Config};
use cgen::backends::{content_to_write, WriteErrorKind};
use cgen::cfg::{InputsConfig, OutputsConfig, Settings};
use cgen::frontends::SourceRange;
use cgen::text::{byte_range, chars_of, trim_end_len, trim_start_len};

fn settings_with_extension(extension: &str) -> Settings {
    let mut outputs = OutputsConfig::default();
    outputs.c_header.extension = extension.to_string();
    Settings { inputs: InputsConfig::default(), outputs }
}

fn expected_header(content: &str, watermark: bool) -> String {
    let mark = if watermark { "// Generated by cgen 0.1.0\n" } else { "" };
    let guard = format!("{:032X}", twox_hash::XxHash3_128::oneshot(content.as_bytes()));
    format!(
        "{m}// clang-format off\n// NOLINTBEGIN\n\n#pragma once\n\n#ifndef __CGEN_{g}_H\n#define __CGEN_{g}_H\n\n{c}\n\n#endif /* __CGEN_{g}_H */\n\n// clang-format on\n// NOLINTEND\n",
        m = mark,
        g = guard,
        c = content
    )
}

fn range(start: u32, end: u32, comment: Option<&str>) -> SourceRange {
    SourceRange { range: start..end, comment: comment.map(|c| c.to_string()) }
}

#[test]
fn restore_semicolons_adds_a_missing_semicolon() {
    let mut s = String::from("int add(int a, int b) ");
    CHeader::restore_semicolons(&mut s);
    assert_eq!(s, "int add(int a, int b);\n\n");
}

#[test]
fn restore_semicolons_keeps_an_existing_semicolon() {
    let mut s = String::from("int x; \t");
    CHeader::restore_semicolons(&mut s);
    assert_eq!(s, "int x; \t\n\n");
}

#[test]
fn restoring_twice_only_adds_an_empty_line() {
    let mut s = String::from("void f(void)");
    CHeader::restore_semicolons(&mut s);
    CHeader::restore_semicolons(&mut s);
    assert_eq!(s, "void f(void);\n\n\n\n");
}

#[test]
fn restore_semicolons_on_blank_text() {
    let mut s = String::from(" \n\u{3000}");
    CHeader::restore_semicolons(&mut s);
    assert_eq!(s, ";\n\n");
}

#[test]
fn header_with_hash_names_the_guard_in_upper_case_hex() {
    let h = CHeader::header_with_hash("int x;".to_string(), 0xABCDEF, false);
    let guard = "00000000000000000000000000ABCDEF";
    assert_eq!(
        h,
        format!("// clang-format off\n// NOLINTBEGIN\n\n#pragma once\n\n#ifndef __CGEN_{0}_H\n#define __CGEN_{0}_H\n\nint x;\n\n#endif /* __CGEN_{0}_H */\n\n// clang-format on\n// NOLINTEND\n", guard)
    );
    let full = CHeader::header_with_hash(String::new(), u128::MAX, false);
    assert!(full.contains("__CGEN_FFFFFFFFFFFFFFFFFFFFFFFFFFFFFFFF_H"));
}

#[test]
fn boilerplate_hashes_the_content() {
    let h = CHeader::add_header_boilerplate("int add(int a, int b);".to_string(), false);
    assert_eq!(h, expected_header("int add(int a, int b);", false));
    let other = CHeader::add_header_boilerplate("int sub(int a, int b);".to_string(), false);
    assert_ne!(h.lines().nth(5), other.lines().nth(5));
}

#[test]
fn generate_content_assembles_the_declarations() {
    let source = "static int a = 1;\nint add(int a, int b) { return a + b; }\nint x = 3;\n";
    let header = CHeader::new("lib/add.c", &settings_with_extension("h"));
    let ranges = vec![
        range(18, 39, Some("/// Adds two numbers.")),
        range(58, 68, None),
    ];
    let content = header.generate_content(Some(source), &ranges).unwrap();
    let body = "/// Adds two numbers.\nint add(int a, int b);\n\nint x = 3;";
    assert_eq!(content, expected_header(body, true));
}

#[test]
fn the_watermark_names_the_version_first() {
    let h = CHeader::header_with_hash("int x;".to_string(), 1, true);
    assert!(h.starts_with("// Generated by cgen 0.1.0\n// clang-format off\n"));
    assert_eq!(cgen::version(), "0.1.0");
    let marked = CHeader::add_header_boilerplate("int y;".to_string(), true);
    assert_eq!(marked, expected_header("int y;", true));
}

#[test]
fn the_watermark_can_be_turned_off() {
    let mut s = settings_with_extension("h");
    s.outputs.all.watermark = false;
    let header = CHeader::new("a.c", &s);
    assert!(!header.watermark);
    let content = header.generate_content(Some("int x;"), &vec![range(0, 6, None)]).unwrap();
    assert_eq!(content, expected_header("int x;", false));
}

#[test]
fn extensions_with_separators_are_detected() {
    assert!(cgen::paths::extension_has_separator("x/y"));
    assert!(cgen::paths::extension_has_separator("/"));
    assert!(!cgen::paths::extension_has_separator("hpp"));
    assert!(!cgen::paths::extension_has_separator(""));
}

#[test]
fn generate_content_without_source_is_none() {
    let header = CHeader::new("lib/add.c", &settings_with_extension("h"));
    assert!(header.generate_content(None, &Vec::new()).is_none());
}

#[test]
fn generate_content_with_no_ranges_has_an_empty_body() {
    let header = CHeader::new("a.c", &settings_with_extension("h"));
    let content = header.generate_content(Some("int x;"), &Vec::new()).unwrap();
    assert_eq!(content, expected_header("", true));
}

#[test]
fn ranges_that_cut_characters_keep_only_their_comment() {
    // "é" takes two bytes: offset 1 lies inside it.
    let source = "é;int y;";
    let header = CHeader::new("a.c", &settings_with_extension("h"));
    let ranges = vec![range(1, 3, Some("// cut")), range(3, 9, None), range(5, 40, None)];
    let content = header.generate_content(Some(source), &ranges).unwrap();
    assert_eq!(content, expected_header("// cut\nint y;", true));
}

#[test]
fn the_header_goes_next_to_the_source() {
    let h = CHeader::new("src/util/list.cpp", &settings_with_extension("hpp"));
    assert_eq!(h.out_path(), "src/util/list.hpp");
    assert_eq!(h.source_path, "src/util/list.cpp");
    let h = CHeader::new("Makefile", &settings_with_extension("h"));
    assert_eq!(h.out_path(), "Makefile.h");
}

#[test]
fn writing_without_content_fails() {
    let h = CHeader::new("a.c", &settings_with_extension("h"));
    match h.write(None) {
        Err(e) => {
            assert_eq!(e.path, "a.h");
            assert!(matches!(e.source, WriteErrorKind::UnwrapContent));
        }
        Ok(_) => panic!("no content must be an error"),
    }
    assert_eq!(h.write(Some("x".to_string())).unwrap(), "x");
    assert_eq!(content_to_write("o.h", Some("y".to_string())).unwrap(), "y");
}

#[test]
fn default_header_extension_is_h() {
    assert_eq!(Config::default().extension, "h");
}

#[test]
fn byte_ranges_follow_str_get() {
    let s = "aé€b";
    assert_eq!(byte_range(s, 0, 1), Some("a"));
    assert_eq!(byte_range(s, 1, 3), Some("é"));
    assert_eq!(byte_range(s, 3, 6), Some("€"));
    assert_eq!(byte_range(s, 2, 3), None);
    assert_eq!(byte_range(s, 3, 2), None);
    assert_eq!(byte_range(s, 6, 8), None);
    assert_eq!(byte_range(s, 7, 7), Some(""));
}

#[test]
fn trimming_counts_unicode_white_space() {
    let cs = chars_of("\u{a0}\t x y\u{2003}\n");
    let end = trim_end_len(&cs);
    assert_eq!(end, 6);
    assert_eq!(trim_start_len(&cs, end), 3);
}
