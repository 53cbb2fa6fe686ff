//! Cells that are written once and read many times, where the program keeps its
//! settings and its command line.
use vstd::prelude::*;
use std::sync::OnceLock;

verus! {

/// A cell that can be written once.
#[verifier::external_type_specification]
#[verifier::external_body]
#[verifier::reject_recursive_types(T)]
pub struct ExOnceLock<T>(OnceLock<T>);

/// `OnceLock::get`: the value in the cell, `None` while it is empty. What it holds
/// depends on whether the cell was written before, which no clause states.
#[verifier::external_body]
pub(crate) fn once_get<T>(cell: &OnceLock<T>) -> Option<&T> {
    cell.get()
}

/// `OnceLock::set`: writes `value` into the cell if it is empty; otherwise hands
/// `value` back as the error. Whether the cell was empty no clause states.
#[verifier::external_body]
pub(crate) fn once_set<T>(cell: &OnceLock<T>, value: T) -> (r: Result<(), T>)
    ensures
        r matches Err(v) ==> v == value,
{
    cell.set(value)
}

} // verus!
