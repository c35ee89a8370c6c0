//! Pauli and phase gates as single operations.
use vstd::prelude::*;
use crate::operator::angle::Angle;
use crate::math::union_all;
use crate::operator::atomic::{phase_masks, AtomicOp, AtomicOpDispatch, Gate};
use crate::operator::single::{OpView, SingleOp};

verus! {

/// Pauli X (NOT) on every qubit of `a_mask`.
pub fn x(a_mask: usize) -> (r: SingleOp)
    ensures
        r@ == OpView::of(Gate::X(a_mask)),
{
    SingleOp::from(AtomicOpDispatch::X(a_mask))
}

/// Pauli Y on every qubit of `a_mask`.
pub fn y(a_mask: usize) -> (r: SingleOp)
    ensures
        r@ == OpView::of(Gate::Y(a_mask)),
{
    SingleOp::from(AtomicOpDispatch::Y(a_mask))
}

/// Pauli Z on every qubit of `a_mask`.
pub fn z(a_mask: usize) -> (r: SingleOp)
    ensures
        r@ == OpView::of(Gate::Z(a_mask)),
{
    SingleOp::from(AtomicOpDispatch::Z(a_mask))
}

/// The S gate (square root of Z) on every qubit of `a_mask`.
pub fn s(a_mask: usize) -> (r: SingleOp)
    ensures
        r@ == OpView::of(Gate::S(a_mask, false)),
{
    SingleOp::from(AtomicOpDispatch::S(a_mask, false))
}

/// The T gate (fourth root of Z) on every qubit of `a_mask`.
pub fn t(a_mask: usize) -> (r: SingleOp)
    ensures
        r@ == OpView::of(Gate::T(a_mask, false)),
{
    SingleOp::from(AtomicOpDispatch::T(a_mask, false))
}

/// Phase shifts: each `(angle, mask)` shifts by `angle` the phase of every qubit of `mask`.
/// When no mask holds a qubit, this is the identity.
pub fn phi(phases: Vec<(Angle, usize)>) -> (r: SingleOp)
    ensures
        r@ == if union_all(phase_masks(phases@)) == 0 {
            OpView::of(Gate::Id)
        } else {
            OpView::of(Gate::Phi(phases@))
        },
{
    let g = AtomicOpDispatch::Phi(phases);
    if g.acts_on() == 0 {
        SingleOp::from(AtomicOpDispatch::Id)
    } else {
        SingleOp::from(g)
    }
}

} // verus!
