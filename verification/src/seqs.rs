//! Facts about sequences that range selection relies on.
use vstd::prelude::*;

verus! {

/// The elements of `rs` whose index `drop` does not hold of, in order.
pub open spec fn without_indices<T>(rs: Seq<T>, drop: spec_fn(int) -> bool) -> Seq<T>
    decreases rs.len(),
{
    if rs.len() == 0 {
        rs
    } else {
        let front = without_indices(rs.drop_last(), drop);
        if drop(rs.len() - 1) {
            front
        } else {
            front.push(rs.last())
        }
    }
}

/// Dropping the indices of the elements that fail `keep` is filtering by `keep`.
pub proof fn lemma_without_indices_is_filter<T>(
    rs: Seq<T>,
    drop: spec_fn(int) -> bool,
    keep: spec_fn(T) -> bool,
)
    requires
        forall|i: int| 0 <= i < rs.len() ==> (drop(i) <==> !keep(#[trigger] rs[i])),
    ensures
        without_indices(rs, drop) == rs.filter(keep),
    decreases rs.len(),
{
    reveal(Seq::filter);
    if rs.len() > 0 {
        assert forall|i: int| 0 <= i < rs.drop_last().len() implies (drop(i) <==> !keep(
            #[trigger] rs.drop_last()[i],
        )) by {
            assert(rs.drop_last()[i] == rs[i]);
        }
        lemma_without_indices_is_filter(rs.drop_last(), drop, keep);
        assert(!keep(rs[rs.len() - 1]) == drop(rs.len() - 1));
    }
}

} // verus!
