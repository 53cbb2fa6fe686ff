//! The clang front end: from the top-level cursors of a translation unit to the
//! byte ranges of the declarations that a header keeps.
use vstd::prelude::*;

use crate::ast::{body_extent, find_function_body_range, in_file, Entity, Extent};
use crate::cfg::Settings;
use crate::frontends::{copy_range, Error, ErrorKind, SourceRange};
use crate::paths::{extension_of, path_extension};
use crate::seqs::{lemma_without_indices_is_filter, without_indices};
use crate::span;
use std::collections::HashSet;

verus! {

broadcast use vstd::std_specs::hash::group_hash_axioms;

/// Whether the range `r` meets the declaration that starts at `start` and ends at `end`.
pub open spec fn overlaps(r: core::ops::Range<u32>, start: u32, end: u32) -> bool {
    r.start < end && start < r.end
}

/// The predicate that keeps the ranges that do not meet `start..end`.
pub open spec fn misses(start: u32, end: u32) -> spec_fn(SourceRange) -> bool {
    |r: SourceRange| !overlaps(r.range, start, end)
}

/// The bytes of a declaration that a header keeps: from its start to its last byte,
/// or, for a function definition, up to the byte before the start of its body.
pub open spec fn kept_range(node: Entity, x: Extent) -> core::ops::Range<u32> {
    core::ops::Range {
        start: x.start.offset,
        end: match body_extent(node) {
            Some(b) => (b.start.offset - 1) as u32,
            None => (x.end.offset + 1) as u32,
        },
    }
}

/// One step of declaration selection: what the list of selected ranges becomes when
/// `node` is considered. `None` when the node has no extent in a file. A node that
/// meets no selected range is added; one that meets a selected range shorter than
/// itself is skipped; otherwise it replaces every selected range that it meets.
pub open spec fn select_step(ranges: Seq<SourceRange>, node: Entity) -> Option<Seq<SourceRange>> {
    match node.extent {
        None => None,
        Some(x) => if !in_file(x) {
            None
        } else {
            let s = x.start.offset;
            let e = x.end.offset;
            let added = SourceRange { range: kept_range(node, x), comment: node.comment };
            if forall|i: int| 0 <= i < ranges.len() ==> !overlaps(#[trigger] ranges[i].range, s, e) {
                Some(ranges.push(added))
            } else if exists|i: int|
                0 <= i < ranges.len() && overlaps(#[trigger] ranges[i].range, s, e) && span(
                    ranges[i].range.start,
                    ranges[i].range.end,
                ) < e - s {
                Some(ranges)
            } else {
                Some(ranges.filter(misses(s, e)).push(added))
            }
        },
    }
}

/// Declaration selection over a sequence of top-level cursors, left to right:
/// cursors with internal linkage are passed over, and the first cursor without
/// an extent in a file makes the whole selection fail.
pub open spec fn select_all(nodes: Seq<Entity>) -> Option<Seq<SourceRange>>
    decreases nodes.len(),
{
    if nodes.len() == 0 {
        Some(Seq::empty())
    } else {
        match select_all(nodes.drop_last()) {
            None => None,
            Some(ranges) => if nodes.last().is_internal() {
                Some(ranges)
            } else {
                select_step(ranges, nodes.last())
            },
        }
    }
}

/// Whether index `i` is listed as the first component of some pair.
pub open spec fn listed(pairs: Seq<(usize, &SourceRange)>, i: int) -> bool {
    exists|k: int| 0 <= k < pairs.len() && pairs[k].0 == i
}

/// A declaration with internal linkage (a `static` one in C) never changes what is
/// selected: appending one to the cursors leaves the selection as it was.
pub proof fn law_internal_declarations_ignored(nodes: Seq<Entity>, node: Entity)
    requires
        node.is_internal(),
    ensures
        select_all(nodes.push(node)) == select_all(nodes),
{
    assert(nodes.push(node).drop_last() =~= nodes);
}

/// Only cursors with internal linkage are passed over: a cursor whose linkage is
/// anything else (automatic, as for a `typedef`, external, unique external, or
/// none) that has an extent in a file meeting no selected range is appended to the
/// selection, with its kept range and its comment.
pub proof fn law_only_internal_cursors_are_passed_over(nodes: Seq<Entity>, node: Entity)
    requires
        node.linkage != Some(crate::ast::Linkage::Internal),
        select_all(nodes) is Some,
        node.extent is Some,
        node.extent->0.start.in_file && node.extent->0.end.in_file,
        forall|i: int|
            0 <= i < select_all(nodes)->0.len() ==> !((#[trigger] select_all(nodes)->0[i]).range.start
                < node.extent->0.end.offset && node.extent->0.start.offset < select_all(
                nodes,
            )->0[i].range.end),
    ensures
        select_all(nodes.push(node)) == Some(
            select_all(nodes)->0.push(
                SourceRange {
                    range: kept_range(node, node.extent->0),
                    comment: node.comment,
                },
            ),
        ),
{
    assert(nodes.push(node).drop_last() =~= nodes);
    let prev = select_all(nodes)->0;
    let x = node.extent->0;
    assert forall|i: int| 0 <= i < prev.len() implies !overlaps(
        #[trigger] prev[i].range,
        x.start.offset,
        x.end.offset,
    ) by {}
}

/// Among overlapping declarations the narrower wins: a cursor in a file that meets
/// selected ranges all at least as long as itself replaces every one of them, and
/// keeps every range it does not meet, in order; one that meets a shorter selected
/// range leaves the selection as it was.
pub proof fn law_narrower_declaration_wins(ranges: Seq<SourceRange>, node: Entity, k: int)
    requires
        node.extent is Some,
        node.extent->0.start.in_file && node.extent->0.end.in_file,
        node.extent->0.start.offset <= node.extent->0.end.offset,
        0 <= k < ranges.len(),
        ranges[k].range.start < node.extent->0.end.offset && node.extent->0.start.offset
            < ranges[k].range.end,
    ensures
        (exists|i: int|
            0 <= i < ranges.len() && (#[trigger] ranges[i]).range.start < node.extent->0.end.offset
                && node.extent->0.start.offset < ranges[i].range.end && ranges[i].range.start
                <= ranges[i].range.end && ranges[i].range.end - ranges[i].range.start
                < node.extent->0.end.offset - node.extent->0.start.offset) ==> select_step(ranges, node)
            == Some(ranges),
        (forall|i: int|
            0 <= i < ranges.len() && (#[trigger] ranges[i]).range.start < node.extent->0.end.offset
                && node.extent->0.start.offset < ranges[i].range.end ==> span(
                ranges[i].range.start,
                ranges[i].range.end,
            ) >= node.extent->0.end.offset - node.extent->0.start.offset) ==> {
            &&& select_step(ranges, node) matches Some(rs)
            &&& rs.len() >= 1
            &&& rs.last() == (SourceRange {
                range: kept_range(node, node.extent->0),
                comment: node.comment,
            })
            &&& forall|j: int|
                0 <= j < rs.len() - 1 ==> !((#[trigger] rs[j]).range.start < node.extent->0.end.offset
                    && node.extent->0.start.offset < rs[j].range.end)
            &&& forall|j: int|
                0 <= j < ranges.len() && !((#[trigger] ranges[j]).range.start
                    < node.extent->0.end.offset && node.extent->0.start.offset < ranges[j].range.end)
                    ==> rs.drop_last().contains(ranges[j])
        },
{
    broadcast use vstd::seq_lib::group_filter_ensures;

    let x = node.extent->0;
    let s = x.start.offset;
    let e = x.end.offset;
    assert(overlaps(ranges[k].range, s, e));
    if exists|i: int|
        0 <= i < ranges.len() && (#[trigger] ranges[i]).range.start < e && s < ranges[i].range.end
            && ranges[i].range.start <= ranges[i].range.end && ranges[i].range.end
            - ranges[i].range.start < e - s {
        let i = choose|i: int|
            0 <= i < ranges.len() && (#[trigger] ranges[i]).range.start < e && s < ranges[i].range.end
                && ranges[i].range.start <= ranges[i].range.end && ranges[i].range.end
                - ranges[i].range.start < e - s;
        assert(overlaps(ranges[i].range, s, e));
    }
    if forall|i: int|
        0 <= i < ranges.len() && (#[trigger] ranges[i]).range.start < e && s < ranges[i].range.end
            ==> span(ranges[i].range.start, ranges[i].range.end) >= e - s {
        let f = ranges.filter(misses(s, e));
        let rs = select_step(ranges, node)->0;
        assert(rs == f.push(SourceRange { range: kept_range(node, x), comment: node.comment }));
        assert(rs.drop_last() =~= f);
        assert forall|j: int| 0 <= j < rs.len() - 1 implies !((#[trigger] rs[j]).range.start < e
            && s < rs[j].range.end) by {
            assert(rs[j] == f[j]);
            assert(misses(s, e)(f[j]));
        }
        assert forall|j: int|
            0 <= j < ranges.len() && !((#[trigger] ranges[j]).range.start < e && s
                < ranges[j].range.end) implies rs.drop_last().contains(ranges[j]) by {
            assert(misses(s, e)(ranges[j]));
        }
    }
}

/// A function definition that is selected is kept only up to the byte before its
/// body, with its comment: considering it either leaves the selection as it was or
/// appends that range.
pub proof fn law_definition_stops_before_body(ranges: Seq<SourceRange>, node: Entity, b: Extent)
    requires
        body_extent(node) == Some(b),
    ensures
        select_step(ranges, node) matches Some(rs) ==> rs == ranges || (rs.last().range.start
            == node.extent->0.start.offset && rs.last().range.end == (b.start.offset - 1) as u32
            && rs.last().comment == node.comment),
{
}

/// The range that a step adds meets none of the ranges that stay selected beside it,
/// and a step adds at most one range.
pub proof fn law_added_range_stands_alone(ranges: Seq<SourceRange>, node: Entity)
    ensures
        select_step(ranges, node) matches Some(rs) ==> {
            &&& rs.len() <= ranges.len() + 1
            &&& (rs == ranges || forall|i: int|
                0 <= i < rs.len() - 1 ==> !overlaps(
                    #[trigger] rs[i].range,
                    node.extent->0.start.offset,
                    node.extent->0.end.offset,
                ))
        },
{
    broadcast use vstd::seq_lib::group_filter_ensures;

    if let Some(x) = node.extent {
        if in_file(x) {
            let s = x.start.offset;
            let e = x.end.offset;
            let f = ranges.filter(misses(s, e));
            assert forall|i: int| 0 <= i < f.len() implies !overlaps(#[trigger] f[i].range, s, e) by {
                assert(misses(s, e)(f[i]));
            }
            if let Some(rs) = select_step(ranges, node) {
                if rs != ranges && !(forall|i: int| 0 <= i < ranges.len() ==> !overlaps(#[trigger] ranges[i].range, s, e)) {
                    assert forall|i: int| 0 <= i < rs.len() - 1 implies !overlaps(#[trigger] rs[i].range, s, e) by {
                        assert(rs[i] == f[i]);
                    }
                }
            }
        }
    }
}

/// Whether `r` is the kept range, with the comment, of one of the cursors that do not
/// have internal linkage.
pub open spec fn drawn_from(r: SourceRange, nodes: Seq<Entity>) -> bool {
    exists|j: int|
        0 <= j < nodes.len() && !(#[trigger] nodes[j]).is_internal() && nodes[j].extent is Some
            && r == (SourceRange {
            range: kept_range(nodes[j], nodes[j].extent->0),
            comment: nodes[j].comment,
        })
}

/// Every selected range is the kept range of a declaration of the translation unit
/// that does not have internal linkage, with that declaration's comment.
pub proof fn law_selected_ranges_come_from_declarations(nodes: Seq<Entity>)
    ensures
        select_all(nodes) matches Some(rs) ==> forall|i: int|
            0 <= i < rs.len() ==> drawn_from(#[trigger] rs[i], nodes),
    decreases nodes.len(),
{
    if nodes.len() > 0 {
        let front = nodes.drop_last();
        law_selected_ranges_come_from_declarations(front);
        if let Some(prev) = select_all(front) {
            assert forall|i: int| 0 <= i < prev.len() implies drawn_from(#[trigger] prev[i], nodes) by {
                let j = choose|j: int|
                    0 <= j < front.len() && !(#[trigger] front[j]).is_internal() && front[j].extent is Some
                        && prev[i] == (SourceRange {
                        range: kept_range(front[j], front[j].extent->0),
                        comment: front[j].comment,
                    });
                assert(nodes[j] == front[j]);
            }
            let node = nodes.last();
            assert(nodes[nodes.len() - 1] == node);
            if let Some(rs) = select_all(nodes) {
                if !node.is_internal() {
                    let x = node.extent->0;
                    let st = x.start.offset;
                    let en = x.end.offset;
                    let added = SourceRange { range: kept_range(node, x), comment: node.comment };
                    let f = prev.filter(misses(st, en));
                    if forall|i: int| 0 <= i < prev.len() ==> !overlaps(#[trigger] prev[i].range, st, en) {
                        assert(rs == prev.push(added));
                        assert forall|i: int| 0 <= i < rs.len() implies drawn_from(#[trigger] rs[i], nodes) by {
                            if i < prev.len() {
                                assert(rs[i] == prev[i]);
                            }
                        }
                    } else if exists|i: int|
                        0 <= i < prev.len() && overlaps(#[trigger] prev[i].range, st, en) && span(
                            prev[i].range.start,
                            prev[i].range.end,
                        ) < en - st {
                        assert(rs == prev);
                    } else {
                        assert(rs == f.push(added));
                        assert forall|i: int| 0 <= i < rs.len() implies drawn_from(#[trigger] rs[i], nodes) by {
                            if i < f.len() {
                                assert(rs[i] == f[i]);
                                assert(f.contains(f[i]));
                                prev.lemma_filter_contains_rev(misses(st, en), f[i]);
                                let k = choose|k: int| 0 <= k < prev.len() && prev[k] == f[i];
                                assert(drawn_from(prev[k], nodes));
                            }
                        }
                    }
                }
            }
        }
    }
}

/// The configuration of the clang front end.
#[derive(Debug)]
pub struct ClangConfig {
    /// The extensions which are parsed by Clang
    pub extensions: Vec<String>,
}

/// The extensions that the clang front end parses unless configured otherwise.
pub open spec fn default_extensions() -> Seq<Seq<char>> {
    seq!["c"@, "cpp"@, "cc"@, "cxx"@, "c++"@, "m"@, "mm"@]
}

impl Default for ClangConfig {
    fn default() -> (r: Self)
        ensures
            r.extensions@.map_values(|e: String| e@) == default_extensions(),
    {
        let mut extensions: Vec<String> = Vec::new();
        extensions.push(String::from_str("c"));
        extensions.push(String::from_str("cpp"));
        extensions.push(String::from_str("cc"));
        extensions.push(String::from_str("cxx"));
        extensions.push(String::from_str("c++"));
        extensions.push(String::from_str("m"));
        extensions.push(String::from_str("mm"));
        let r = ClangConfig { extensions };
        assert(r.extensions@.map_values(|e: String| e@) =~= default_extensions());
        r
    }
}

/// Lists, in increasing order, the indices of the ranges that meet `start..end`,
/// each with its range (`find_overlapping_ranges`).
pub fn find_overlapping_ranges<'r>(ranges: &'r [SourceRange], start: &u32, end: &u32) -> (r: Vec<
    (usize, &'r SourceRange),
>)
    ensures
        forall|k: int|
            0 <= k < r@.len() ==> {
                &&& 0 <= (#[trigger] r@[k]).0 < ranges@.len()
                &&& *r@[k].1 == ranges@[r@[k].0 as int]
                &&& overlaps(ranges@[r@[k].0 as int].range, *start, *end)
            },
        forall|k: int, l: int| 0 <= k < l < r@.len() ==> (#[trigger] r@[k]).0 < (#[trigger] r@[l]).0,
        forall|i: int|
            0 <= i < ranges@.len() && overlaps(#[trigger] ranges@[i].range, *start, *end) ==> listed(
                r@,
                i,
            ),
{
    let mut found: Vec<(usize, &'r SourceRange)> = Vec::new();
    let n = ranges.len();
    let mut i: usize = 0;
    while i < n
        invariant
            n == ranges@.len(),
            i <= n,
            forall|k: int|
                0 <= k < found@.len() ==> {
                    &&& 0 <= (#[trigger] found@[k]).0 < i
                    &&& *found@[k].1 == ranges@[found@[k].0 as int]
                    &&& overlaps(ranges@[found@[k].0 as int].range, *start, *end)
                },
            forall|k: int, l: int|
                0 <= k < l < found@.len() ==> (#[trigger] found@[k]).0 < (#[trigger] found@[l]).0,
            forall|j: int|
                0 <= j < i && overlaps(#[trigger] ranges@[j].range, *start, *end) ==> listed(
                    found@,
                    j,
                ),
        decreases n - i,
    {
        let r = &ranges[i];
        if r.range.start < *end && *start < r.range.end {
            let ghost before = found@;
            found.push((i, r));
            assert forall|j: int|
                0 <= j < i + 1 && overlaps(#[trigger] ranges@[j].range, *start, *end) implies listed(
                found@,
                j,
            ) by {
                if j == i {
                    assert(found@[found@.len() - 1].0 == j);
                } else {
                    let k = choose|k: int| 0 <= k < before.len() && before[k].0 == j;
                    assert(found@[k] == before[k]);
                }
            }
        }
        i = i + 1;
    }
    found
}

/// Whether some listed range is shorter than the declaration `start..end`
/// (`contains_larger_range`).
pub fn contains_larger_range(ranges: &[(usize, &SourceRange)], start: &u32, end: &u32) -> (r: bool)
    requires
        *start <= *end,
    ensures
        r == exists|k: int|
            0 <= k < ranges@.len() && span(
                (#[trigger] ranges@[k]).1.range.start,
                ranges@[k].1.range.end,
            ) < *end - *start,
{
    let range_length = *end - *start;
    let n = ranges.len();
    let mut i: usize = 0;
    while i < n
        invariant
            n == ranges@.len(),
            i <= n,
            range_length == *end - *start,
            forall|k: int|
                0 <= k < i ==> span((#[trigger] ranges@[k]).1.range.start, ranges@[k].1.range.end)
                    >= range_length,
        decreases n - i,
    {
        let r = &ranges[i].1.range;
        let len: u32 = if r.start < r.end {
            r.end - r.start
        } else {
            0
        };
        if len < range_length {
            assert(span(ranges@[i as int].1.range.start, ranges@[i as int].1.range.end) < range_length);
            return true;
        }
        i = i + 1;
    }
    false
}

/// The ranges whose index is not listed in `overlapping_ranges`, in order
/// (`remove_overlapping_ranges`).
pub fn remove_overlapping_ranges(
    ranges: &[SourceRange],
    overlapping_ranges: Vec<(usize, &SourceRange)>,
) -> (r: Vec<SourceRange>)
    ensures
        r@ == without_indices(ranges@, |i: int| listed(overlapping_ranges@, i)),
{
    let mut overlapping_indices: HashSet<usize> = HashSet::new();
    let m = overlapping_ranges.len();
    let mut k: usize = 0;
    while k < m
        invariant
            m == overlapping_ranges@.len(),
            k <= m,
            forall|i: usize|
                #[trigger] overlapping_indices@.contains(i) <==> exists|j: int|
                    0 <= j < k && overlapping_ranges@[j].0 == i,
        decreases m - k,
    {
        let index = overlapping_ranges[k].0;
        overlapping_indices.insert(index);
        assert forall|i: usize| #[trigger]
            overlapping_indices@.contains(i) <==> exists|j: int|
                0 <= j < k + 1 && overlapping_ranges@[j].0 == i by {
            if i == index {
                assert(overlapping_ranges@[k as int].0 == i);
            }
        }
        k = k + 1;
    }
    let ghost drop = |i: int| listed(overlapping_ranges@, i);
    let mut kept: Vec<SourceRange> = Vec::new();
    let n = ranges.len();
    let mut i: usize = 0;
    while i < n
        invariant
            n == ranges@.len(),
            i <= n,
            m == overlapping_ranges@.len(),
            drop == (|i: int| listed(overlapping_ranges@, i)),
            forall|j: usize|
                #[trigger] overlapping_indices@.contains(j) <==> exists|l: int|
                    0 <= l < m && overlapping_ranges@[l].0 == j,
            kept@ == without_indices(ranges@.take(i as int), drop),
        decreases n - i,
    {
        assert(ranges@.take(i + 1).drop_last() =~= ranges@.take(i as int));
        let listed_here = overlapping_indices.contains(&i);
        assert(listed_here == drop(i as int)) by {
            if drop(i as int) {
                let l = choose|l: int| 0 <= l < overlapping_ranges@.len() && overlapping_ranges@[l].0 == i;
                assert(overlapping_indices@.contains(i));
            }
        }
        if !listed_here {
            kept.push(copy_range(&ranges[i]));
        }
        i = i + 1;
    }
    assert(ranges@.take(n as int) =~= ranges@);
    kept
}

/// Cuts a function definition's range off before its body (`delete_function_body`).
pub fn delete_function_body(node: &Entity, function_range: &mut core::ops::Range<u32>)
    requires
        body_extent(*node) matches Some(b) ==> b.start.offset >= 1,
    ensures
        *final(function_range) == match body_extent(*node) {
            Some(b) => core::ops::Range { start: old(function_range).start, end: (b.start.offset - 1) as u32 },
            None => *old(function_range),
        },
{
    let body_range = find_function_body_range(node);
    match body_range {
        None => {},
        Some(b) => {
            function_range.end = b.start.offset - 1;
        },
    }
}

/// Whether the cursor has an extent in a file that meets some selected range.
pub open spec fn meets_selected(ranges: Seq<SourceRange>, node: Entity) -> bool {
    node.extent matches Some(x) && in_file(x) && exists|i: int|
        0 <= i < ranges.len() && overlaps(#[trigger] ranges[i].range, x.start.offset, x.end.offset)
}

/// What [`range_from_node`] needs to select `node` without an overflow: the cursor
/// is well formed, and where it meets a selected range (so that its length is
/// computed) its start does not follow its end.
pub open spec fn step_safe(ranges: Seq<SourceRange>, node: Entity) -> bool {
    &&& node.well_formed()
    &&& meets_selected(ranges, node) ==> node.extent->0.start.offset <= node.extent->0.end.offset
}

/// Whether every step of [`select_all`] that is taken is [`step_safe`].
pub open spec fn select_safe(nodes: Seq<Entity>) -> bool
    decreases nodes.len(),
{
    if nodes.len() == 0 {
        true
    } else {
        &&& select_safe(nodes.drop_last())
        &&& match select_all(nodes.drop_last()) {
            Some(ranges) => nodes.last().is_internal() || step_safe(ranges, nodes.last()),
            None => true,
        }
    }
}

/// Updates the selected ranges with one top-level cursor (`range_from_node`).
pub fn range_from_node(ranges: Vec<SourceRange>, node: &Entity) -> (r: Option<Vec<SourceRange>>)
    requires
        step_safe(ranges@, *node),
    ensures
        match select_step(ranges@, *node) {
            Some(s) => r matches Some(v) && v@ == s,
            None => r is None,
        },
{
    let mut ranges = ranges;
    let x = match node.extent {
        Some(x) => x,
        None => return None,
    };
    if !x.start.in_file || !x.end.in_file {
        return None;
    }
    let start = x.start.offset;
    let end = x.end.offset;
    let ghost old_ranges = ranges@;
    let overlapping_ranges = find_overlapping_ranges(ranges.as_slice(), &start, &end);
    let mut range = start..end + 1;
    delete_function_body(node, &mut range);
    let comment = match &node.comment {
        Some(c) => Some(c.clone()),
        None => None,
    };
    let added = SourceRange { range, comment };
    assert(added == SourceRange { range: kept_range(*node, x), comment: node.comment });
    if overlapping_ranges.len() == 0 {
        assert forall|i: int| 0 <= i < old_ranges.len() implies !overlaps(
            #[trigger] old_ranges[i].range,
            start,
            end,
        ) by {
            if overlaps(old_ranges[i].range, start, end) {
                assert(listed(overlapping_ranges@, i));
            }
        }
        ranges.push(added);
        return Some(ranges);
    }
    let ghost some_overlap = overlapping_ranges@[0].0 as int;
    assert(overlaps(old_ranges[some_overlap].range, start, end));
    if contains_larger_range(overlapping_ranges.as_slice(), &start, &end) {
        proof {
            let k = choose|k: int|
                0 <= k < overlapping_ranges@.len() && span(
                    (#[trigger] overlapping_ranges@[k]).1.range.start,
                    overlapping_ranges@[k].1.range.end,
                ) < end - start;
            let i = overlapping_ranges@[k].0 as int;
            assert(overlaps(old_ranges[i].range, start, end));
        }
        return Some(ranges);
    }
    assert(!(exists|i: int|
        0 <= i < old_ranges.len() && overlaps(#[trigger] old_ranges[i].range, start, end) && span(
            old_ranges[i].range.start,
            old_ranges[i].range.end,
        ) < end - start)) by {
        if exists|i: int|
            0 <= i < old_ranges.len() && overlaps(#[trigger] old_ranges[i].range, start, end)
                && span(old_ranges[i].range.start, old_ranges[i].range.end) < end - start {
            let i = choose|i: int|
                0 <= i < old_ranges.len() && overlaps(#[trigger] old_ranges[i].range, start, end)
                    && span(old_ranges[i].range.start, old_ranges[i].range.end) < end - start;
            assert(listed(overlapping_ranges@, i));
            let k = choose|k: int|
                0 <= k < overlapping_ranges@.len() && overlapping_ranges@[k].0 == i;
            assert(span(overlapping_ranges@[k].1.range.start, overlapping_ranges@[k].1.range.end)
                < end - start);
        }
    }
    let ghost pairs = overlapping_ranges@;
    let mut kept = remove_overlapping_ranges(ranges.as_slice(), overlapping_ranges);
    proof {
        let drop = |i: int| listed(pairs, i);
        assert forall|i: int| 0 <= i < old_ranges.len() implies (drop(i) <==> !misses(start, end)(
            #[trigger] old_ranges[i],
        )) by {
            if drop(i) {
                let k = choose|k: int| 0 <= k < pairs.len() && pairs[k].0 == i;
                assert(pairs[k].0 == i);
            }
        }
        lemma_without_indices_is_filter(old_ranges, drop, misses(start, end));
    }
    kept.push(added);
    Some(kept)
}

/// Whether the settings have the clang front end parse files with the extension of
/// `path`.
pub open spec fn allowed_extension(settings: &Settings, path: Seq<char>) -> bool {
    match extension_of(path) {
        Some(e) => exists|i: int|
            0 <= i < settings.inputs.clang.extensions@.len()
                && (#[trigger] settings.inputs.clang.extensions@[i])@ == e,
        None => false,
    }
}

/// The clang front end for one source file.
pub struct LibClang {
    pub source_path: String,
}

impl LibClang {
    /// A front end for the file at `source_path`.
    pub fn new(source_path: &str) -> (r: Self)
        ensures
            r.source_path@ == source_path@,
    {
        LibClang { source_path: String::from_str(source_path) }
    }

    /// The path of the file that this front end reads.
    pub fn source_path(&self) -> (r: &str)
        ensures
            r@ == self.source_path@,
    {
        self.source_path.as_str()
    }

    /// Whether the settings have the clang front end parse files with the extension
    /// of `path`.
    pub fn is_allowed_extension(settings: &Settings, path: &str) -> (r: bool)
        ensures
            r == allowed_extension(settings, path@),
    {
        let extension = match path_extension(path) {
            Some(e) => e,
            None => return false,
        };
        let extensions = &settings.inputs.clang.extensions;
        let n = extensions.len();
        let mut i: usize = 0;
        while i < n
            invariant
                n == extensions@.len(),
                i <= n,
                extension_of(path@) == Some(extension@),
                extensions == &settings.inputs.clang.extensions,
                forall|j: int| 0 <= j < i ==> (#[trigger] extensions@[j])@ != extension@,
            decreases n - i,
        {
            if extensions[i] == extension {
                return true;
            }
            i = i + 1;
        }
        false
    }

    /// The ranges of the declarations to keep, given what clang made of the file:
    /// the top-level cursors of its translation unit, or the error it reported
    /// (the part of `generate_ranges` that follows the parse).
    pub fn generate_ranges(&self, parsed: Result<Vec<Entity>, clang::SourceError>) -> (r: Result<
        Vec<SourceRange>,
        Error,
    >)
        requires
            parsed matches Ok(nodes) ==> select_safe(nodes@),
        ensures
            match parsed {
                Err(e) => r matches Err(err) && err.path@ == self.source_path@ && err.source
                    == ErrorKind::Parse(e),
                Ok(nodes) => match select_all(nodes@) {
                    Some(s) => r matches Ok(v) && v@ == s,
                    None => r matches Err(err) && err.path@ == self.source_path@ && err.source
                        is SourceRange,
                },
            },
    {
        match parsed {
            Err(e) => Err(Error { path: self.source_path.clone(), source: ErrorKind::Parse(e) }),
            Ok(nodes) => match select_ranges(&nodes) {
                Some(ranges) => Ok(ranges),
                None => Err(Error { path: self.source_path.clone(), source: ErrorKind::SourceRange }),
            },
        }
    }
}

/// Folds [`range_from_node`] over the top-level cursors that do not have internal
/// linkage, stopping at the first one without an extent in a file.
pub fn select_ranges(nodes: &Vec<Entity>) -> (r: Option<Vec<SourceRange>>)
    requires
        select_safe(nodes@),
    ensures
        match select_all(nodes@) {
            Some(s) => r matches Some(v) && v@ == s,
            None => r is None,
        },
{
    let n = nodes.len();
    let mut ranges: Vec<SourceRange> = Vec::new();
    let mut i: usize = 0;
    assert(nodes@.take(0) =~= Seq::<Entity>::empty());
    while i < n
        invariant
            n == nodes@.len(),
            i <= n,
            select_safe(nodes@),
            select_all(nodes@.take(i as int)) == Some(ranges@),
        decreases n - i,
    {
        assert(nodes@.take(i + 1).drop_last() =~= nodes@.take(i as int));
        assert(nodes@.take(i + 1).last() == nodes@[i as int]);
        proof {
            lemma_safe_prefix(nodes@, i + 1);
        }
        let node = &nodes[i];
        if !node.internal() {
            match range_from_node(ranges, node) {
                Some(next) => {
                    ranges = next;
                },
                None => {
                    proof {
                        lemma_select_all_fails(nodes@, i as int);
                    }
                    return None;
                },
            }
        }
        i = i + 1;
    }
    assert(nodes@.take(n as int) =~= nodes@);
    Some(ranges)
}

/// Whether selecting over the cursors `nodes` takes only steps that are
/// [`step_safe`]: the test to make before [`select_ranges`] or
/// [`LibClang::generate_ranges`].
pub fn selection_is_safe(nodes: &Vec<Entity>) -> (r: bool)
    ensures
        r == select_safe(nodes@),
{
    let n = nodes.len();
    let mut ranges: Vec<SourceRange> = Vec::new();
    let mut i: usize = 0;
    assert(nodes@.take(0) =~= Seq::<Entity>::empty());
    while i < n
        invariant
            n == nodes@.len(),
            i <= n,
            select_safe(nodes@.take(i as int)),
            select_all(nodes@.take(i as int)) == Some(ranges@),
        decreases n - i,
    {
        assert(nodes@.take(i + 1).drop_last() =~= nodes@.take(i as int));
        assert(nodes@.take(i + 1).last() == nodes@[i as int]);
        let node = &nodes[i];
        if !node.internal() {
            if !step_is_safe(&ranges, node) {
                proof {
                    if select_safe(nodes@) {
                        lemma_safe_prefix(nodes@, i + 1);
                    }
                }
                return false;
            }
            match range_from_node(ranges, node) {
                Some(next) => {
                    ranges = next;
                },
                None => {
                    proof {
                        lemma_safe_after_failure(nodes@, i + 1);
                    }
                    return true;
                },
            }
        }
        i = i + 1;
    }
    assert(nodes@.take(n as int) =~= nodes@);
    true
}

/// Whether one step of the selection is [`step_safe`].
fn step_is_safe(ranges: &Vec<SourceRange>, node: &Entity) -> (r: bool)
    ensures
        r == step_safe(ranges@, *node),
{
    let x = match node.extent {
        Some(x) => x,
        None => return true,
    };
    if !x.start.in_file || !x.end.in_file {
        return true;
    }
    if x.end.offset == u32::MAX {
        return false;
    }
    match find_function_body_range(node) {
        Some(b) => {
            if b.start.offset < 1 {
                return false;
            }
        },
        None => {},
    }
    let found = find_overlapping_ranges(ranges.as_slice(), &x.start.offset, &x.end.offset);
    if found.len() == 0 {
        assert(!meets_selected(ranges@, *node)) by {
            if meets_selected(ranges@, *node) {
                let i = choose|i: int|
                    0 <= i < ranges@.len() && overlaps(#[trigger] ranges@[i].range, x.start.offset, x.end.offset);
                assert(listed(found@, i));
            }
        }
        true
    } else {
        let ghost k = found@[0].0 as int;
        assert(overlaps(ranges@[k].range, x.start.offset, x.end.offset));
        x.start.offset <= x.end.offset
    }
}

/// Selection that is safe over some cursors is safe over each of their prefixes.
proof fn lemma_safe_prefix(nodes: Seq<Entity>, k: int)
    requires
        select_safe(nodes),
        0 <= k <= nodes.len(),
    ensures
        select_safe(nodes.take(k)),
    decreases nodes.len() - k,
{
    if k == nodes.len() {
        assert(nodes.take(k) =~= nodes);
    } else {
        lemma_safe_prefix(nodes, k + 1);
        assert(nodes.take(k + 1).drop_last() =~= nodes.take(k));
    }
}

/// Once selection has failed on a prefix, the cursors after it take no step, so the
/// selection over all of them is safe when it was on that prefix.
proof fn lemma_safe_after_failure(nodes: Seq<Entity>, k: int)
    requires
        0 < k <= nodes.len(),
        select_safe(nodes.take(k)),
        select_all(nodes.take(k)) is None,
    ensures
        select_safe(nodes),
    decreases nodes.len() - k,
{
    if k == nodes.len() {
        assert(nodes.take(k) =~= nodes);
    } else {
        assert(nodes.take(k + 1).drop_last() =~= nodes.take(k));
        lemma_safe_after_failure(nodes, k + 1);
    }
}

/// Once selection fails on a prefix, it fails on the whole sequence.
proof fn lemma_select_all_fails(nodes: Seq<Entity>, i: int)
    requires
        0 <= i < nodes.len(),
        select_all(nodes.take(i + 1)) is None,
    ensures
        select_all(nodes) is None,
    decreases nodes.len() - i,
{
    if i + 1 == nodes.len() {
        assert(nodes.take(i + 1) =~= nodes);
    } else {
        assert(nodes.take(i + 2).drop_last() =~= nodes.take(i + 1));
        lemma_select_all_fails(nodes, i + 1);
    }
}

} // verus!
