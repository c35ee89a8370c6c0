//! Two-qubit exchange gates as single operations.
use vstd::prelude::*;
use crate::operator::atomic::{AtomicOpDispatch, Gate};
use crate::operator::single::rotate::checked;
use crate::operator::single::{OpView, SingleOp};

verus! {

/// SWAP of the two qubits of `ab_mask`.
pub fn swap(ab_mask: usize) -> (r: Option<SingleOp>)
    ensures
        r is Some <==> Gate::Swap(ab_mask).is_valid(),
        r matches Some(s) ==> s@ == OpView::of(Gate::Swap(ab_mask)),
{
    checked(AtomicOpDispatch::Swap(ab_mask))
}

/// Square root of SWAP of the two qubits of `ab_mask`.
pub fn sqrt_swap(ab_mask: usize) -> (r: Option<SingleOp>)
    ensures
        r is Some <==> Gate::SqrtSwap(ab_mask, false).is_valid(),
        r matches Some(s) ==> s@ == OpView::of(Gate::SqrtSwap(ab_mask, false)),
{
    checked(AtomicOpDispatch::SqrtSwap(ab_mask, false))
}

/// iSWAP of the two qubits of `ab_mask`.
pub fn i_swap(ab_mask: usize) -> (r: Option<SingleOp>)
    ensures
        r is Some <==> Gate::ISwap(ab_mask, false).is_valid(),
        r matches Some(s) ==> s@ == OpView::of(Gate::ISwap(ab_mask, false)),
{
    checked(AtomicOpDispatch::ISwap(ab_mask, false))
}

/// Square root of iSWAP of the two qubits of `ab_mask`.
pub fn sqrt_i_swap(ab_mask: usize) -> (r: Option<SingleOp>)
    ensures
        r is Some <==> Gate::SqrtISwap(ab_mask, false).is_valid(),
        r matches Some(s) ==> s@ == OpView::of(Gate::SqrtISwap(ab_mask, false)),
{
    checked(AtomicOpDispatch::SqrtISwap(ab_mask, false))
}

} // verus!
