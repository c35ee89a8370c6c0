//! Quantum operations (gates) and the functions that build them.
//!
//! Gates are addressed by bitmasks: each set bit of a mask names one qubit.
//! Every function here returns a [`MultiOp`], a queue of operations.
use vstd::prelude::*;
use crate::math::{popcount, union_all};
use crate::operator::angle::Angle;
use crate::operator::atomic::{phase_masks, Gate};
use crate::operator::multi::{of_single, MultiOp};
use crate::operator::single::{pauli, rotate, OpView};

pub mod amplitude;
pub mod angle;
pub mod atomic;
pub mod identities;
pub mod single;
pub mod multi;

verus! {

/// The identity: an empty queue.
pub fn id() -> (r: MultiOp)
    ensures
        r@ == Seq::<OpView>::empty(),
{
    MultiOp::default()
}

/// Pauli X (NOT) on the qubits of `a_mask`.
pub fn x(a_mask: usize) -> (r: MultiOp)
    ensures
        r@ == seq![OpView::of(Gate::X(a_mask))],
{
    let r = MultiOp::from(pauli::x(a_mask));
    proof {
        assert(of_single(OpView::of(Gate::X(a_mask))) =~= seq![OpView::of(Gate::X(a_mask))]);
    }
    r
}

/// Rotation by `phase` about the X axis of the one qubit of `a_mask`.
pub fn rx(phase: Angle, a_mask: usize) -> (r: MultiOp)
    requires
        popcount(a_mask) == 1,
    ensures
        r@ == seq![OpView::of(Gate::RX(a_mask, phase))],
{
    let r = MultiOp::from(rotate::rx(a_mask, phase).unwrap());
    proof {
        assert(r@ =~= seq![OpView::of(Gate::RX(a_mask, phase))]);
    }
    r
}

/// Ising XX coupling by `phase` of the two qubits of `ab_mask`.
pub fn rxx(phase: Angle, ab_mask: usize) -> (r: MultiOp)
    requires
        popcount(ab_mask) == 2,
    ensures
        r@ == seq![OpView::of(Gate::RXX(ab_mask, phase))],
{
    let r = MultiOp::from(rotate::rxx(ab_mask, phase).unwrap());
    proof {
        assert(r@ =~= seq![OpView::of(Gate::RXX(ab_mask, phase))]);
    }
    r
}

/// Pauli Y on the qubits of `a_mask`.
pub fn y(a_mask: usize) -> (r: MultiOp)
    ensures
        r@ == seq![OpView::of(Gate::Y(a_mask))],
{
    let r = MultiOp::from(pauli::y(a_mask));
    proof {
        assert(r@ =~= seq![OpView::of(Gate::Y(a_mask))]);
    }
    r
}

/// Rotation by `phase` about the Y axis of the one qubit of `a_mask`.
pub fn ry(phase: Angle, a_mask: usize) -> (r: MultiOp)
    requires
        popcount(a_mask) == 1,
    ensures
        r@ == seq![OpView::of(Gate::RY(a_mask, phase))],
{
    let r = MultiOp::from(rotate::ry(a_mask, phase).unwrap());
    proof {
        assert(r@ =~= seq![OpView::of(Gate::RY(a_mask, phase))]);
    }
    r
}

/// Ising YY coupling by `phase` of the two qubits of `ab_mask`.
pub fn ryy(phase: Angle, ab_mask: usize) -> (r: MultiOp)
    requires
        popcount(ab_mask) == 2,
    ensures
        r@ == seq![OpView::of(Gate::RYY(ab_mask, phase))],
{
    let r = MultiOp::from(rotate::ryy(ab_mask, phase).unwrap());
    proof {
        assert(r@ =~= seq![OpView::of(Gate::RYY(ab_mask, phase))]);
    }
    r
}

/// Pauli Z on the qubits of `a_mask`.
pub fn z(a_mask: usize) -> (r: MultiOp)
    ensures
        r@ == seq![OpView::of(Gate::Z(a_mask))],
{
    let r = MultiOp::from(pauli::z(a_mask));
    proof {
        assert(r@ =~= seq![OpView::of(Gate::Z(a_mask))]);
    }
    r
}

/// The S gate (square root of Z) on the qubits of `a_mask`.
pub fn s(a_mask: usize) -> (r: MultiOp)
    ensures
        r@ == seq![OpView::of(Gate::S(a_mask, false))],
{
    let r = MultiOp::from(pauli::s(a_mask));
    proof {
        assert(r@ =~= seq![OpView::of(Gate::S(a_mask, false))]);
    }
    r
}

/// The T gate (fourth root of Z) on the qubits of `a_mask`.
pub fn t(a_mask: usize) -> (r: MultiOp)
    ensures
        r@ == seq![OpView::of(Gate::T(a_mask, false))],
{
    let r = MultiOp::from(pauli::t(a_mask));
    proof {
        assert(r@ =~= seq![OpView::of(Gate::T(a_mask, false))]);
    }
    r
}

/// Rotation by `phase` about the Z axis of the one qubit of `a_mask`.
pub fn rz(phase: Angle, a_mask: usize) -> (r: MultiOp)
    requires
        popcount(a_mask) == 1,
    ensures
        r@ == seq![OpView::of(Gate::RZ(a_mask, phase))],
{
    let r = MultiOp::from(rotate::rz(a_mask, phase).unwrap());
    proof {
        assert(r@ =~= seq![OpView::of(Gate::RZ(a_mask, phase))]);
    }
    r
}

/// Ising ZZ coupling by `phase` of the two qubits of `ab_mask`.
pub fn rzz(phase: Angle, ab_mask: usize) -> (r: MultiOp)
    requires
        popcount(ab_mask) == 2,
    ensures
        r@ == seq![OpView::of(Gate::RZZ(ab_mask, phase))],
{
    let r = MultiOp::from(rotate::rzz(ab_mask, phase).unwrap());
    proof {
        assert(r@ =~= seq![OpView::of(Gate::RZZ(ab_mask, phase))]);
    }
    r
}

/// Phase shifts: each `(angle, mask)` shifts by `angle` the phase of every qubit of `mask`.
/// When no mask holds a qubit, this is the identity: the empty queue.
pub fn phi(phases: Vec<(Angle, usize)>) -> (r: MultiOp)
    ensures
        r@ == if union_all(phase_masks(phases@)) == 0 {
            Seq::<OpView>::empty()
        } else {
            seq![OpView::of(Gate::Phi(phases@))]
        },
{
    let ghost p = phases@;
    let r = MultiOp::from(pauli::phi(phases));
    proof {
        if union_all(phase_masks(p)) == 0 {
            assert(r@ =~= Seq::<OpView>::empty());
        } else {
            assert(r@ =~= seq![OpView::of(Gate::Phi(p))]);
        }
    }
    r
}

/// SWAP of the two qubits of `ab_mask`.
pub fn swap(ab_mask: usize) -> (r: MultiOp)
    requires
        popcount(ab_mask) == 2,
    ensures
        r@ == seq![OpView::of(Gate::Swap(ab_mask))],
{
    let r = MultiOp::from(single::swap::swap(ab_mask).unwrap());
    proof {
        assert(r@ =~= seq![OpView::of(Gate::Swap(ab_mask))]);
    }
    r
}

/// Square root of SWAP of the two qubits of `ab_mask`.
pub fn sqrt_swap(ab_mask: usize) -> (r: MultiOp)
    requires
        popcount(ab_mask) == 2,
    ensures
        r@ == seq![OpView::of(Gate::SqrtSwap(ab_mask, false))],
{
    let r = MultiOp::from(single::swap::sqrt_swap(ab_mask).unwrap());
    proof {
        assert(r@ =~= seq![OpView::of(Gate::SqrtSwap(ab_mask, false))]);
    }
    r
}

/// iSWAP of the two qubits of `ab_mask`.
pub fn i_swap(ab_mask: usize) -> (r: MultiOp)
    requires
        popcount(ab_mask) == 2,
    ensures
        r@ == seq![OpView::of(Gate::ISwap(ab_mask, false))],
{
    let r = MultiOp::from(single::swap::i_swap(ab_mask).unwrap());
    proof {
        assert(r@ =~= seq![OpView::of(Gate::ISwap(ab_mask, false))]);
    }
    r
}

/// Square root of iSWAP of the two qubits of `ab_mask`.
pub fn sqrt_i_swap(ab_mask: usize) -> (r: MultiOp)
    requires
        popcount(ab_mask) == 2,
    ensures
        r@ == seq![OpView::of(Gate::SqrtISwap(ab_mask, false))],
{
    let r = MultiOp::from(single::swap::sqrt_i_swap(ab_mask).unwrap());
    proof {
        assert(r@ =~= seq![OpView::of(Gate::SqrtISwap(ab_mask, false))]);
    }
    r
}

/// The Hadamard transform on the qubits of `a_mask`.
pub fn h(a_mask: usize) -> (r: MultiOp)
    ensures
        r@ == multi::h::h_ops(a_mask),
{
    multi::h::h(a_mask)
}

/// The first universal gate, U1(lam): the Z rotation by `lam`.
pub fn u1(lam: Angle, a_mask: usize) -> (r: MultiOp)
    requires
        popcount(a_mask) == 1,
    ensures
        r@ == seq![OpView::of(Gate::RZ(a_mask, lam))],
{
    rz(lam, a_mask)
}

/// The second universal gate, U2(phi, lam): U3(pi/2, phi, lam).
pub fn u2(phi: Angle, lam: Angle, a_mask: usize) -> (r: MultiOp)
    requires
        popcount(a_mask) == 1,
    ensures
        r@ == seq![
            OpView::of(Gate::RZ(a_mask, lam)),
            OpView::of(Gate::RY(a_mask, Angle::pi_over_pow2_spec(1))),
            OpView::of(Gate::RZ(a_mask, phi)),
        ],
{
    let r = rz(lam, a_mask) * ry(Angle::pi_over_pow2(1), a_mask) * rz(phi, a_mask);
    proof {
        assert(r@ =~= seq![
            OpView::of(Gate::RZ(a_mask, lam)),
            OpView::of(Gate::RY(a_mask, Angle::pi_over_pow2_spec(1))),
            OpView::of(Gate::RZ(a_mask, phi)),
        ]);
    }
    r
}

/// The third universal gate, U3(the, phi, lam): Z rotation by `lam`, Y rotation by
/// `the`, Z rotation by `phi`.
pub fn u3(the: Angle, phi: Angle, lam: Angle, a_mask: usize) -> (r: MultiOp)
    requires
        popcount(a_mask) == 1,
    ensures
        r@ == seq![
            OpView::of(Gate::RZ(a_mask, lam)),
            OpView::of(Gate::RY(a_mask, the)),
            OpView::of(Gate::RZ(a_mask, phi)),
        ],
{
    let r = rz(lam, a_mask) * ry(the, a_mask) * rz(phi, a_mask);
    proof {
        assert(r@ =~= seq![
            OpView::of(Gate::RZ(a_mask, lam)),
            OpView::of(Gate::RY(a_mask, the)),
            OpView::of(Gate::RZ(a_mask, phi)),
        ]);
    }
    r
}

/// The discrete Fourier transform of the amplitudes over the qubits of `a_mask`.
pub fn qft(a_mask: usize) -> (r: MultiOp)
    ensures
        r@ == multi::qft::qft_ops(a_mask),
{
    multi::qft::qft(a_mask)
}

/// The Fourier transform in the natural order of the amplitudes' indices: the
/// qubits' order is reversed by swaps before it.
pub fn qft_swapped(a_mask: usize) -> (r: MultiOp)
    ensures
        r@ == multi::qft::qft_swapped_ops(a_mask),
{
    multi::qft::qft_swapped(a_mask)
}

} // verus!
