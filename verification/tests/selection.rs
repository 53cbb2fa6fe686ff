use cgen::ast::{find_function_body_range, Entity, EntityKind, Extent, Linkage, Location};
use cgen::frontends::libclang::{
    contains_larger_range, delete_function_body, find_overlapping_ranges, range_from_node,
    remove_overlapping_ranges, select_ranges, selection_is_safe,
};
use cgen::frontends::{ErrorKind, LibClang, SourceRange};
use cgen::source::{get_source_range_from_node, ranges_from_ast};

fn extent(start: u32, end: u32) -> Option<Extent> {
    Some(Extent {
        start: Location { in_file: true, offset: start },
        end: Location { in_file: true, offset: end },
    })
}

fn entity(kind: EntityKind, start: u32, end: u32) -> Entity {
    Entity {
        kind,
        definition: false,
        extent: extent(start, end),
        linkage: Some(Linkage::External),
        comment: None,
        children: Vec::new(),
    }
}

fn definition(start: u32, end: u32, body_start: u32) -> Entity {
    let mut f = entity(EntityKind::FunctionDecl, start, end);
    f.definition = true;
    f.children.push(entity(EntityKind::Other, start, start + 1));
    f.children.push(entity(EntityKind::CompoundStmt, body_start, end));
    f
}

fn range(start: u32, end: u32) -> SourceRange {
    SourceRange { range: start..end, comment: None }
}

fn bounds(ranges: &[SourceRange]) -> Vec<(u32, u32)> {
    ranges.iter().map(|r| (r.range.start, r.range.end)).collect()
}

#[test]
fn body_range_of_a_definition_is_its_compound_statement() {
    let f = definition(0, 30, 12);
    let body = find_function_body_range(&f).unwrap();
    assert_eq!(body.start.offset, 12);
    assert_eq!(body.end.offset, 30);
}

#[test]
fn declarations_have_no_body_range() {
    let mut f = definition(0, 30, 12);
    f.definition = false;
    assert!(find_function_body_range(&f).is_none());
    let v = entity(EntityKind::Other, 0, 10);
    assert!(find_function_body_range(&v).is_none());
}

#[test]
fn deleting_a_body_stops_before_it() {
    let f = definition(4, 30, 20);
    let mut r = 4..31;
    delete_function_body(&f, &mut r);
    assert_eq!(r, 4..19);
    let d = entity(EntityKind::FunctionDecl, 4, 30);
    let mut r = 4..31;
    delete_function_body(&d, &mut r);
    assert_eq!(r, 4..31);
}

#[test]
fn overlapping_ranges_are_found_in_order() {
    let ranges = vec![range(0, 5), range(10, 20), range(18, 25), range(30, 40)];
    let found = find_overlapping_ranges(&ranges, &12, &19);
    let idx: Vec<usize> = found.iter().map(|p| p.0).collect();
    assert_eq!(idx, vec![1, 2]);
    assert!(find_overlapping_ranges(&ranges, &5, &10).is_empty());
}

#[test]
fn a_shorter_overlapping_range_is_detected() {
    let ranges = vec![range(0, 3), range(0, 50)];
    let found = find_overlapping_ranges(&ranges, &0, &10);
    assert!(contains_larger_range(&found, &0, &10));
    let long = vec![range(0, 50)];
    let found = find_overlapping_ranges(&long, &0, &10);
    assert!(!contains_larger_range(&found, &0, &10));
}

#[test]
fn overlapping_ranges_are_removed() {
    let ranges = vec![range(0, 5), range(10, 20), range(18, 25), range(30, 40)];
    let found = find_overlapping_ranges(&ranges, &12, &19);
    let kept = remove_overlapping_ranges(&ranges, found);
    assert_eq!(bounds(&kept), vec![(0, 5), (30, 40)]);
}

#[test]
fn a_new_declaration_is_added_with_its_comment() {
    let mut d = entity(EntityKind::Other, 0, 9);
    d.comment = Some("/// A counter.".to_string());
    let r = range_from_node(Vec::new(), &d).unwrap();
    assert_eq!(bounds(&r), vec![(0, 10)]);
    assert_eq!(r[0].comment.as_deref(), Some("/// A counter."));
}

#[test]
fn a_declaration_without_file_location_fails() {
    let mut d = entity(EntityKind::Other, 0, 9);
    d.extent.as_mut().unwrap().end.in_file = false;
    assert!(range_from_node(Vec::new(), &d).is_none());
    let mut e = entity(EntityKind::Other, 0, 9);
    e.extent = None;
    assert!(range_from_node(Vec::new(), &e).is_none());
}

#[test]
fn the_narrower_of_overlapping_declarations_wins() {
    // A wide declaration replaces nothing when a narrower one already stands.
    let narrow = range_from_node(Vec::new(), &entity(EntityKind::Other, 10, 14)).unwrap();
    let after = range_from_node(narrow, &entity(EntityKind::Other, 0, 40)).unwrap();
    assert_eq!(bounds(&after), vec![(10, 15)]);
    // A narrow declaration replaces a wider one that it meets.
    let wide = range_from_node(Vec::new(), &entity(EntityKind::Other, 0, 40)).unwrap();
    let after = range_from_node(wide, &entity(EntityKind::Other, 10, 14)).unwrap();
    assert_eq!(bounds(&after), vec![(10, 15)]);
}

#[test]
fn function_definitions_lose_their_bodies() {
    // int add(int a, int b) { return a + b; }
    let f = definition(0, 38, 22);
    let r = range_from_node(Vec::new(), &f).unwrap();
    assert_eq!(bounds(&r), vec![(0, 21)]);
}

#[test]
fn static_declarations_are_passed_over() {
    let mut s = entity(EntityKind::Other, 0, 17);
    s.linkage = Some(Linkage::Internal);
    let g = entity(EntityKind::Other, 18, 30);
    let r = select_ranges(&vec![s, g]).unwrap();
    assert_eq!(bounds(&r), vec![(18, 31)]);
}

#[test]
fn generate_ranges_reports_parse_errors_with_the_path() {
    let f = LibClang::new("src/main.c");
    match f.generate_ranges(Err(clang::SourceError::Crash)) {
        Err(e) => {
            assert_eq!(e.path, "src/main.c");
            assert!(matches!(e.source, ErrorKind::Parse(clang::SourceError::Crash)));
        }
        Ok(_) => panic!("a parse error must be reported"),
    }
}

#[test]
fn generate_ranges_reports_declarations_without_range() {
    let f = LibClang::new("a.c");
    let mut d = entity(EntityKind::Other, 0, 4);
    d.extent = None;
    match f.generate_ranges(Ok(vec![entity(EntityKind::Other, 0, 4), d])) {
        Err(e) => {
            assert_eq!(e.path, "a.c");
            assert!(matches!(e.source, ErrorKind::SourceRange));
        }
        Ok(_) => panic!("a declaration without range must be reported"),
    }
}

#[test]
fn generate_ranges_selects_in_order() {
    let f = LibClang::new("a.c");
    let nodes = vec![
        entity(EntityKind::Other, 0, 9),
        definition(11, 40, 30),
        entity(EntityKind::Other, 42, 50),
    ];
    let r = f.generate_ranges(Ok(nodes)).unwrap();
    assert_eq!(bounds(&r), vec![(0, 10), (11, 29), (42, 51)]);
    assert_eq!(f.source_path(), "a.c");
}

#[test]
fn the_wider_selection_keeps_the_wider_declaration() {
    let first = get_source_range_from_node(Vec::new(), entity(EntityKind::Other, 10, 14)).unwrap();
    let after = get_source_range_from_node(first, entity(EntityKind::Other, 0, 40)).unwrap();
    assert_eq!(after.len(), 1);
    assert_eq!(after[0].0, 0..41);
    assert_eq!(after[0].1.extent.unwrap().start.offset, 0);
    let wide = get_source_range_from_node(Vec::new(), entity(EntityKind::Other, 0, 40)).unwrap();
    let after = get_source_range_from_node(wide, entity(EntityKind::Other, 10, 14)).unwrap();
    assert_eq!(after.len(), 1);
    assert_eq!(after[0].0, 0..41);
    assert_eq!(after[0].len(), 41);
}

#[test]
fn ranges_from_ast_skips_static_and_keeps_bodies() {
    let mut s = entity(EntityKind::Other, 0, 5);
    s.linkage = Some(Linkage::Internal);
    let r = ranges_from_ast(vec![s, definition(6, 30, 20), entity(EntityKind::Other, 31, 35)]).unwrap();
    let b: Vec<(u32, u32)> = r.iter().map(|x| (x.0.start, x.0.end)).collect();
    assert_eq!(b, vec![(6, 31), (31, 36)]);
    let mut d = entity(EntityKind::Other, 0, 4);
    d.extent = None;
    assert!(ranges_from_ast(vec![d]).is_none());
}

#[test]
fn reversed_extents_are_handled_when_they_meet_nothing() {
    let r = range_from_node(Vec::new(), &entity(EntityKind::Other, 9, 3)).unwrap();
    assert_eq!(bounds(&r), vec![(9, 4)]);
    let w = get_source_range_from_node(Vec::new(), entity(EntityKind::Other, 9, 3)).unwrap();
    assert_eq!(w[0].0, 9..4);
}

#[test]
fn selection_safety_is_checked() {
    assert!(selection_is_safe(&vec![entity(EntityKind::Other, 0, 9), entity(EntityKind::Other, 20, 30)]));
    // A reversed extent that meets a selected range would underflow its length.
    assert!(!selection_is_safe(&vec![entity(EntityKind::Other, 0, 9), entity(EntityKind::Other, 5, 2)]));
    // One that meets nothing is fine.
    assert!(selection_is_safe(&vec![entity(EntityKind::Other, 0, 9), entity(EntityKind::Other, 40, 20)]));
    // An end at the last offset overflows.
    assert!(!selection_is_safe(&vec![entity(EntityKind::Other, 0, u32::MAX)]));
    // A function body at offset zero underflows.
    assert!(!selection_is_safe(&vec![definition(0, 30, 0)]));
    // After a cursor without extent nothing more is selected.
    let mut gone = entity(EntityKind::Other, 0, 4);
    gone.extent = None;
    assert!(selection_is_safe(&vec![gone, entity(EntityKind::Other, 0, u32::MAX)]));
    // Internal cursors are not selected.
    let mut hidden = entity(EntityKind::Other, 0, u32::MAX);
    hidden.linkage = Some(Linkage::Internal);
    assert!(selection_is_safe(&vec![hidden]));
}
