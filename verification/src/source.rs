//! Declaration selection that keeps each selected cursor with its range and, among
//! overlapping declarations, prefers the wider one.
use vstd::prelude::*;

use crate::ast::{in_file, Entity};
use crate::seqs::{lemma_without_indices_is_filter, without_indices};
use crate::span;
use std::collections::HashSet;

verus! {

broadcast use vstd::std_specs::hash::group_hash_axioms;

/// A selected byte range together with the cursor it was taken from.
#[derive(Debug)]
pub struct SourceRange(pub core::ops::Range<u32>, pub Entity);

impl SourceRange {
    /// The number of bytes in the range.
    pub fn len(&self) -> (r: u32)
        requires
            self.0.start <= self.0.end,
        ensures
            r == self.0.end - self.0.start,
    {
        self.0.end - self.0.start
    }
}

/// Whether the range `r` meets the declaration that starts at `start` and ends at `end`.
pub open spec fn meets(r: SourceRange, start: u32, end: u32) -> bool {
    r.0.start < end && start < r.0.end
}

/// The predicate that keeps the ranges that do not meet `start..end`.
pub open spec fn apart_from(start: u32, end: u32) -> spec_fn(SourceRange) -> bool {
    |r: SourceRange| !meets(r, start, end)
}

/// What one step of the selection needs of a cursor in a file, or the arithmetic on
/// offsets would overflow: its end is not the last representable offset; where it
/// meets a selected range, its start does not follow its end; and each range that it
/// meets, up to the first one shorter than it, does not end before it starts (the
/// lengths are compared in order until one is shorter).
pub open spec fn widest_step_safe(ranges: Seq<SourceRange>, node: Entity) -> bool {
    match node.extent {
        Some(x) => in_file(x) ==> {
            let s = x.start.offset;
            let e = x.end.offset;
            &&& e < u32::MAX
            &&& (exists|i: int| 0 <= i < ranges.len() && meets(#[trigger] ranges[i], s, e)) ==> s <= e
            &&& forall|i: int|
                0 <= i < ranges.len() && meets(ranges[i], s, e) && #[trigger] none_shorter_before(
                    ranges,
                    i,
                    s,
                    e,
                ) ==> ranges[i].0.start <= ranges[i].0.end
        },
        None => true,
    }
}

/// One step of the selection: a node that meets no selected range is added; one
/// that meets only ranges at least as long as itself is skipped; otherwise it
/// replaces every selected range that it meets. `None` when the node has no
/// extent in a file.
pub open spec fn widest_step(ranges: Seq<SourceRange>, node: Entity) -> Option<Seq<SourceRange>> {
    match node.extent {
        None => None,
        Some(x) => if !in_file(x) {
            None
        } else {
            let s = x.start.offset;
            let e = x.end.offset;
            let added = SourceRange(core::ops::Range { start: s, end: (e + 1) as u32 }, node);
            if forall|i: int| 0 <= i < ranges.len() ==> !meets(#[trigger] ranges[i], s, e) {
                Some(ranges.push(added))
            } else if !exists|i: int|
                0 <= i < ranges.len() && meets(#[trigger] ranges[i], s, e) && span(
                    ranges[i].0.start,
                    ranges[i].0.end,
                ) < e - s {
                Some(ranges)
            } else {
                Some(ranges.filter(apart_from(s, e)).push(added))
            }
        },
    }
}

/// The selection over a sequence of top-level cursors, left to right, passing over
/// cursors with internal linkage and failing at the first cursor without an
/// extent in a file.
pub open spec fn widest_all(nodes: Seq<Entity>) -> Option<Seq<SourceRange>>
    decreases nodes.len(),
{
    if nodes.len() == 0 {
        Some(Seq::empty())
    } else {
        match widest_all(nodes.drop_last()) {
            None => None,
            Some(ranges) => if nodes.last().is_internal() {
                Some(ranges)
            } else {
                widest_step(ranges, nodes.last())
            },
        }
    }
}

/// Whether none of the ranges before index `i` that meet `s..e` is shorter than it.
pub open spec fn none_shorter_before(ranges: Seq<SourceRange>, i: int, s: u32, e: u32) -> bool {
    forall|j: int|
        0 <= j < i && meets(#[trigger] ranges[j], s, e) ==> span(ranges[j].0.start, ranges[j].0.end)
            >= e - s
}

/// Whether every step of [`widest_all`] that is taken is [`widest_step_safe`].
pub open spec fn widest_safe(nodes: Seq<Entity>) -> bool
    decreases nodes.len(),
{
    if nodes.len() == 0 {
        true
    } else {
        &&& widest_safe(nodes.drop_last())
        &&& match widest_all(nodes.drop_last()) {
            Some(ranges) => nodes.last().is_internal() || widest_step_safe(ranges, nodes.last()),
            None => true,
        }
    }
}

/// Selection that is safe over some cursors is safe over each of their prefixes.
proof fn lemma_widest_safe_prefix(nodes: Seq<Entity>, k: int)
    requires
        widest_safe(nodes),
        0 <= k <= nodes.len(),
    ensures
        widest_safe(nodes.take(k)),
    decreases nodes.len() - k,
{
    if k == nodes.len() {
        assert(nodes.take(k) =~= nodes);
    } else {
        lemma_widest_safe_prefix(nodes, k + 1);
        assert(nodes.take(k + 1).drop_last() =~= nodes.take(k));
    }
}

/// Among overlapping declarations the wider wins: a cursor in a file that meets a
/// selected range shorter than itself (wherever that range starts) replaces every
/// selected range that it meets by its own range, from its start to one past its
/// end, kept with the cursor; the ranges it does not meet stay. One that meets only
/// selected ranges at least as long as itself leaves the selection as it was.
pub proof fn law_wider_declaration_wins(ranges: Seq<SourceRange>, node: Entity, k: int)
    requires
        node.extent is Some,
        node.extent->0.start.in_file && node.extent->0.end.in_file,
        0 <= k < ranges.len(),
        ranges[k].0.start < node.extent->0.end.offset && node.extent->0.start.offset
            < ranges[k].0.end,
    ensures
        ranges[k].0.start <= ranges[k].0.end && ranges[k].0.end - ranges[k].0.start
            < node.extent->0.end.offset - node.extent->0.start.offset ==> {
            &&& widest_step(ranges, node) matches Some(rs)
            &&& rs.len() >= 1
            &&& rs.last() == SourceRange(
                core::ops::Range {
                    start: node.extent->0.start.offset,
                    end: (node.extent->0.end.offset + 1) as u32,
                },
                node,
            )
            &&& forall|j: int|
                0 <= j < rs.len() - 1 ==> !((#[trigger] rs[j]).0.start < node.extent->0.end.offset
                    && node.extent->0.start.offset < rs[j].0.end)
            &&& forall|j: int|
                0 <= j < ranges.len() && !((#[trigger] ranges[j]).0.start < node.extent->0.end.offset
                    && node.extent->0.start.offset < ranges[j].0.end) ==> rs.drop_last().contains(
                    ranges[j],
                )
        },
        (forall|i: int|
            0 <= i < ranges.len() && (#[trigger] ranges[i]).0.start < node.extent->0.end.offset
                && node.extent->0.start.offset < ranges[i].0.end ==> span(
                ranges[i].0.start,
                ranges[i].0.end,
            ) >= node.extent->0.end.offset - node.extent->0.start.offset) ==> widest_step(
            ranges,
            node,
        ) == Some(ranges),
{
    broadcast use vstd::seq_lib::group_filter_ensures;

    let x = node.extent->0;
    let st = x.start.offset;
    let en = x.end.offset;
    assert(meets(ranges[k], st, en));
    if ranges[k].0.start <= ranges[k].0.end && ranges[k].0.end - ranges[k].0.start < en - st {
        assert(span(ranges[k].0.start, ranges[k].0.end) < en - st);
        let f = ranges.filter(apart_from(st, en));
        let rs = widest_step(ranges, node)->0;
        assert(rs == f.push(SourceRange(core::ops::Range { start: st, end: (en + 1) as u32 }, node)));
        assert(rs.drop_last() =~= f);
        assert forall|j: int| 0 <= j < rs.len() - 1 implies !((#[trigger] rs[j]).0.start < en && st
            < rs[j].0.end) by {
            assert(rs[j] == f[j]);
            assert(apart_from(st, en)(f[j]));
        }
        assert forall|j: int|
            0 <= j < ranges.len() && !((#[trigger] ranges[j]).0.start < en && st < ranges[j].0.end)
                implies rs.drop_last().contains(ranges[j]) by {
            assert(apart_from(st, en)(ranges[j]));
        }
    }
}

/// Only cursors with internal linkage are passed over: a cursor whose linkage is
/// anything else that has an extent in a file meeting no selected range is
/// appended with its range, from its start to one past its end.
pub proof fn law_only_internal_cursors_are_passed_over_widest(nodes: Seq<Entity>, node: Entity)
    requires
        node.linkage != Some(crate::ast::Linkage::Internal),
        widest_all(nodes) is Some,
        node.extent is Some,
        node.extent->0.start.in_file && node.extent->0.end.in_file,
        forall|i: int|
            0 <= i < widest_all(nodes)->0.len() ==> !((#[trigger] widest_all(nodes)->0[i]).0.start
                < node.extent->0.end.offset && node.extent->0.start.offset < widest_all(
                nodes,
            )->0[i].0.end),
    ensures
        widest_all(nodes.push(node)) == Some(
            widest_all(nodes)->0.push(
                SourceRange(
                    core::ops::Range {
                        start: node.extent->0.start.offset,
                        end: (node.extent->0.end.offset + 1) as u32,
                    },
                    node,
                ),
            ),
        ),
{
    assert(nodes.push(node).drop_last() =~= nodes);
    let prev = widest_all(nodes)->0;
    let x = node.extent->0;
    assert forall|i: int| 0 <= i < prev.len() implies !meets(
        #[trigger] prev[i],
        x.start.offset,
        x.end.offset,
    ) by {}
}

/// Updates the selected ranges with one top-level cursor
/// (`get_source_range_from_node`).
pub fn get_source_range_from_node(ranges: Vec<SourceRange>, node: Entity) -> (r: Option<
    Vec<SourceRange>,
>)
    requires
        widest_step_safe(ranges@, node),
    ensures
        match widest_step(ranges@, node) {
            Some(s) => r matches Some(v) && v@ == s,
            None => r is None,
        },
{
    let x = match node.extent {
        Some(x) => x,
        None => return None,
    };
    if !x.start.in_file || !x.end.in_file {
        return None;
    }
    let start = x.start.offset;
    let end = x.end.offset;
    let ghost old_ranges = ranges@;
    let mut overlapping: HashSet<usize> = HashSet::new();
    let mut any_overlap = false;
    let mut any_shorter = false;
    let n = ranges.len();
    let mut i: usize = 0;
    while i < n
        invariant
            n == ranges@.len(),
            i <= n,
            node.extent == Some(x),
            in_file(x),
            start == x.start.offset,
            end == x.end.offset,
            widest_step_safe(ranges@, node),
            forall|j: usize|
                #[trigger] overlapping@.contains(j) <==> (j < i && meets(ranges@[j as int], start, end)),
            any_overlap == exists|j: int| 0 <= j < i && meets(#[trigger] ranges@[j], start, end),
            any_shorter == exists|j: int|
                0 <= j < i && meets(#[trigger] ranges@[j], start, end) && span(
                    ranges@[j].0.start,
                    ranges@[j].0.end,
                ) < end - start,
        decreases n - i,
    {
        let r = &ranges[i];
        if r.0.start < end && start < r.0.end {
            overlapping.insert(i);
            any_overlap = true;
            if !any_shorter {
                assert(meets(ranges@[i as int], start, end));
                assert(none_shorter_before(ranges@, i as int, start, end));
                let range_length = end - start;
                if r.len() < range_length {
                    any_shorter = true;
                }
            }
        }
        i = i + 1;
    }
    let added = SourceRange(start..end + 1, node);
    if !any_overlap {
        let mut ranges = ranges;
        ranges.push(added);
        return Some(ranges);
    }
    if !any_shorter {
        return Some(ranges);
    }
    let ghost drop = |j: int| meets(old_ranges[j], start, end);
    let mut rest = ranges;
    let mut kept: Vec<SourceRange> = Vec::new();
    let mut k: usize = 0;
    while k < n
        invariant
            n == old_ranges.len(),
            k <= n,
            rest@ == old_ranges.skip(k as int),
            drop == (|j: int| meets(old_ranges[j], start, end)),
            forall|j: usize|
                #[trigger] overlapping@.contains(j) <==> (j < n && meets(old_ranges[j as int], start, end)),
            kept@ == without_indices(old_ranges.take(k as int), drop),
        decreases n - k,
    {
        assert(old_ranges.take(k + 1).drop_last() =~= old_ranges.take(k as int));
        assert(old_ranges.skip(k as int)[0] == old_ranges[k as int]);
        let r = rest.remove(0);
        assert(rest@ =~= old_ranges.skip(k + 1));
        if !overlapping.contains(&k) {
            kept.push(r);
        }
        k = k + 1;
    }
    proof {
        assert(old_ranges.take(n as int) =~= old_ranges);
        assert forall|j: int| 0 <= j < old_ranges.len() implies (drop(j) <==> !apart_from(
            start,
            end,
        )(#[trigger] old_ranges[j])) by {}
        lemma_without_indices_is_filter(old_ranges, drop, apart_from(start, end));
    }
    kept.push(added);
    Some(kept)
}

/// Selects the ranges of the top-level cursors of a translation unit
/// (`ranges_from_ast`).
pub fn ranges_from_ast(nodes: Vec<Entity>) -> (r: Option<Vec<SourceRange>>)
    requires
        widest_safe(nodes@),
    ensures
        match widest_all(nodes@) {
            Some(s) => r matches Some(v) && v@ == s,
            None => r is None,
        },
{
    let ghost all = nodes@;
    let n = nodes.len();
    let mut rest = nodes;
    let mut ranges: Vec<SourceRange> = Vec::new();
    let mut i: usize = 0;
    assert(all.take(0) =~= Seq::<Entity>::empty());
    assert(all.skip(0) =~= all);
    while i < n
        invariant
            n == all.len(),
            i <= n,
            rest@ == all.skip(i as int),
            all == nodes@,
            widest_safe(all),
            widest_all(all.take(i as int)) == Some(ranges@),
        decreases n - i,
    {
        proof {
            lemma_widest_safe_prefix(all, i + 1);
        }
        assert(all.take(i + 1).drop_last() =~= all.take(i as int));
        assert(all.take(i + 1).last() == all[i as int]);
        assert(all.skip(i as int)[0] == all[i as int]);
        let node = rest.remove(0);
        assert(rest@ =~= all.skip(i + 1));
        assert(node == all[i as int]);
        if !node.internal() {
            match get_source_range_from_node(ranges, node) {
                Some(next) => {
                    ranges = next;
                },
                None => {
                    proof {
                        assert(widest_all(all.take(i + 1)) is None);
                        lemma_widest_all_fails(all, i as int);
                        assert(widest_all(all) is None);
                    }
                    return None;
                },
            }
        }
        i = i + 1;
    }
    assert(all.take(n as int) =~= all);
    Some(ranges)
}

/// Once the selection fails on a prefix, it fails on the whole sequence.
proof fn lemma_widest_all_fails(nodes: Seq<Entity>, i: int)
    requires
        0 <= i < nodes.len(),
        widest_all(nodes.take(i + 1)) is None,
    ensures
        widest_all(nodes) is None,
    decreases nodes.len() - i,
{
    if i + 1 == nodes.len() {
        assert(nodes.take(i + 1) =~= nodes);
    } else {
        assert(nodes.take(i + 2).drop_last() =~= nodes.take(i + 1));
        lemma_widest_all_fails(nodes, i + 1);
    }
}

} // verus!
