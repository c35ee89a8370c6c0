//! Rotation gates as single operations.
use vstd::prelude::*;
use crate::operator::angle::Angle;
use crate::operator::atomic::{AtomicOp, AtomicOpDispatch, Gate};
use crate::operator::single::{OpView, SingleOp};

verus! {

/// The operation of `op` when its masks are valid for it, else `None`.
pub fn checked(op: AtomicOpDispatch) -> (r: Option<SingleOp>)
    ensures
        r is Some <==> op@.is_valid(),
        r matches Some(s) ==> s@ == OpView::of(op@),
{
    if op.is_valid() {
        Some(SingleOp::from(op))
    } else {
        None
    }
}

/// Rotation by `phase` about the X axis of the one qubit of `a_mask`.
pub fn rx(a_mask: usize, phase: Angle) -> (r: Option<SingleOp>)
    ensures
        r is Some <==> Gate::RX(a_mask, phase).is_valid(),
        r matches Some(s) ==> s@ == OpView::of(Gate::RX(a_mask, phase)),
{
    checked(AtomicOpDispatch::RX(a_mask, phase))
}

/// Ising XX coupling by `phase` of the two qubits of `ab_mask`.
pub fn rxx(ab_mask: usize, phase: Angle) -> (r: Option<SingleOp>)
    ensures
        r is Some <==> Gate::RXX(ab_mask, phase).is_valid(),
        r matches Some(s) ==> s@ == OpView::of(Gate::RXX(ab_mask, phase)),
{
    checked(AtomicOpDispatch::RXX(ab_mask, phase))
}

/// Rotation by `phase` about the Y axis of the one qubit of `a_mask`.
pub fn ry(a_mask: usize, phase: Angle) -> (r: Option<SingleOp>)
    ensures
        r is Some <==> Gate::RY(a_mask, phase).is_valid(),
        r matches Some(s) ==> s@ == OpView::of(Gate::RY(a_mask, phase)),
{
    checked(AtomicOpDispatch::RY(a_mask, phase))
}

/// Ising YY coupling by `phase` of the two qubits of `ab_mask`.
pub fn ryy(ab_mask: usize, phase: Angle) -> (r: Option<SingleOp>)
    ensures
        r is Some <==> Gate::RYY(ab_mask, phase).is_valid(),
        r matches Some(s) ==> s@ == OpView::of(Gate::RYY(ab_mask, phase)),
{
    checked(AtomicOpDispatch::RYY(ab_mask, phase))
}

/// Rotation by `phase` about the Z axis of the one qubit of `a_mask`.
pub fn rz(a_mask: usize, phase: Angle) -> (r: Option<SingleOp>)
    ensures
        r is Some <==> Gate::RZ(a_mask, phase).is_valid(),
        r matches Some(s) ==> s@ == OpView::of(Gate::RZ(a_mask, phase)),
{
    checked(AtomicOpDispatch::RZ(a_mask, phase))
}

/// Ising ZZ coupling by `phase` of the two qubits of `ab_mask`.
pub fn rzz(ab_mask: usize, phase: Angle) -> (r: Option<SingleOp>)
    ensures
        r is Some <==> Gate::RZZ(ab_mask, phase).is_valid(),
        r matches Some(s) ==> s@ == OpView::of(Gate::RZZ(ab_mask, phase)),
{
    checked(AtomicOpDispatch::RZZ(ab_mask, phase))
}

} // verus!
