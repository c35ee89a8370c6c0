//! The quantum Fourier transform on a set of qubits.
use vstd::prelude::*;
use std::collections::VecDeque;
use crate::math::{
    count_bits, lemma_pair_popcount, lemma_qubits_disjoint_later, lemma_qubits_from_len,
    lemma_qubits_single, lemma_small_popcount, popcount, qubit_list, qubits, union_all,
};
use crate::operator::angle::{Angle, EXPONENT_UNIT, PI_BITS};
use crate::operator::atomic::{phase_masks, Gate};
use crate::operator::multi::h::{h, h_ops};
use crate::operator::multi::{act_on_all, acts, MultiOp};
use crate::operator::single::pauli::phi;
use crate::operator::single::swap::swap;
use crate::operator::single::{OpView, SingleOp};

verus! {

/// The phase shifts controlled by qubit `i` of `bits`: qubit `i + 1 + k` is
/// shifted by pi / 2^(k + 1).
pub open spec fn qft_phases(bits: Seq<usize>, i: int) -> Seq<(Angle, usize)> {
    Seq::new(
        (bits.len() - i - 1) as nat,
        |k: int| (Angle::pi_over_pow2_spec((k + 1) as nat), bits[i + 1 + k]),
    )
}

/// The controlled phase operation that follows the Hadamard gate on qubit `i` of `bits`.
pub open spec fn qft_phase_op(bits: Seq<usize>, i: int) -> OpView {
    OpView { act: union_all(bits.skip(i + 1)), ctrl: bits[i], gate: Gate::Phi(qft_phases(bits, i)) }
}

/// The operations of the Fourier transform from qubit `i` of `bits` on: a Hadamard
/// gate on each qubit, each but the last followed by its controlled phase shifts.
pub open spec fn qft_from(bits: Seq<usize>, i: int) -> Seq<OpView>
    decreases bits.len() - i,
{
    if i < 0 || i >= bits.len() {
        seq![]
    } else if i + 1 == bits.len() {
        seq![OpView::of(Gate::H1(bits[i]))]
    } else {
        seq![OpView::of(Gate::H1(bits[i])), qft_phase_op(bits, i)] + qft_from(bits, i + 1)
    }
}

/// The operations of the Fourier transform on the qubits of `a_mask`.
pub open spec fn qft_ops(a_mask: usize) -> Seq<OpView> {
    qft_from(qubits(a_mask), 0)
}

/// The swaps that reverse the order of the qubits `bits`: the `i`-th first with the `i`-th last.
pub open spec fn reversal_swaps(bits: Seq<usize>) -> Seq<OpView> {
    Seq::new(
        bits.len() / 2,
        |i: int| OpView::of(Gate::Swap(bits[i] | bits[bits.len() - 1 - i])),
    )
}

/// The swaps that reverse the order of the qubits of `a_mask`, followed by the
/// operations of the Fourier transform on them.
pub open spec fn qft_swapped_ops(a_mask: usize) -> Seq<OpView> {
    reversal_swaps(qubits(a_mask)) + qft_ops(a_mask)
}

proof fn lemma_qft_from_union(bits: Seq<usize>, i: int)
    requires
        0 <= i <= bits.len(),
    ensures
        act_on_all(qft_from(bits, i)) == union_all(bits.skip(i)),
    decreases bits.len() - i,
{
    let ops = qft_from(bits, i);
    if i == bits.len() {
        assert(acts(ops) =~= Seq::<usize>::empty());
        assert(bits.skip(i) =~= Seq::<usize>::empty());
    } else if i + 1 == bits.len() {
        assert(acts(ops) =~= seq![bits[i]]);
        assert(bits.skip(i) =~= seq![bits[i]]);
        assert(acts(ops).drop_first() =~= Seq::<usize>::empty());
        assert(bits.skip(i).drop_first() =~= Seq::<usize>::empty());
    } else {
        lemma_qft_from_union(bits, i + 1);
        let u = union_all(bits.skip(i + 1));
        let a = acts(ops);
        assert(a =~= seq![bits[i], u] + acts(qft_from(bits, i + 1)));
        assert(a.drop_first() =~= seq![u] + acts(qft_from(bits, i + 1)));
        assert(a.drop_first().drop_first() =~= acts(qft_from(bits, i + 1)));
        assert(bits.skip(i).drop_first() =~= bits.skip(i + 1));
        let x = bits[i];
        assert(a[0] == x && a.drop_first()[0] == u);
        assert(union_all(a.drop_first()) == u | union_all(acts(qft_from(bits, i + 1))));
        assert(union_all(a) == x | union_all(a.drop_first()));
        assert(bits.skip(i)[0] == x);
        assert(union_all(bits.skip(i)) == x | u);
        assert(x | (u | u) == x | u) by (bit_vector);
    }
}

/// The Fourier transform acts on exactly the qubits of its mask.
pub proof fn lemma_qft_acts_on(a_mask: usize)
    ensures
        act_on_all(qft_ops(a_mask)) == a_mask,
{
    lemma_qft_from_union(qubits(a_mask), 0);
    assert(qubits(a_mask).skip(0) =~= qubits(a_mask));
    crate::math::lemma_union_of_qubits(a_mask);
}

proof fn lemma_qft_from_valid(a_mask: usize, i: int)
    requires
        0 <= i <= qubits(a_mask).len(),
    ensures
        forall|k: int|
            0 <= k < qft_from(qubits(a_mask), i).len() ==> (#[trigger] qft_from(qubits(a_mask), i)[k]).wf()
                && qft_from(qubits(a_mask), i)[k].gate.is_valid(),
    decreases qubits(a_mask).len() - i,
{
    let bits = qubits(a_mask);
    let ops = qft_from(bits, i);
    if i < bits.len() {
        lemma_qubits_single(a_mask, i);
        let h = OpView::of(Gate::H1(bits[i]));
        crate::operator::single::lemma_op_wf(Gate::H1(bits[i]), h, 0);
        if i + 1 == bits.len() {
            assert(ops == seq![h]);
        } else {
            lemma_qft_from_valid(a_mask, i + 1);
            let p = qft_phase_op(bits, i);
            assert(phase_masks(qft_phases(bits, i)) =~= bits.skip(i + 1));
            lemma_qubits_disjoint_later(a_mask, i);
            let u = union_all(bits.skip(i + 1));
            let b = bits[i];
            assert(b & u == 0 ==> u & b == 0) by (bit_vector);
            assert(p.wf());
            let rest = qft_from(bits, i + 1);
            assert(ops == seq![h, p] + rest);
            assert forall|k: int| 0 <= k < ops.len() implies (#[trigger] ops[k]).wf()
                && ops[k].gate.is_valid() by {
                if k >= 2 {
                    assert(ops[k] == rest[k - 2]);
                }
            }
        }
    }
}

/// Every operation of the Fourier transform is a valid gate on its own
/// qubits, with control qubits apart from them.
pub proof fn lemma_qft_ops_valid(a_mask: usize)
    ensures
        forall|k: int|
            0 <= k < qft_ops(a_mask).len() ==> (#[trigger] qft_ops(a_mask)[k]).wf() && qft_ops(
                a_mask,
            )[k].gate.is_valid(),
{
    lemma_qft_from_valid(a_mask, 0);
}

proof fn lemma_qft_from_len(bits: Seq<usize>, i: int)
    requires
        0 <= i <= bits.len(),
    ensures
        qft_from(bits, i).len() == if i == bits.len() { 0 } else { 2 * (bits.len() - i) - 1 },
    decreases bits.len() - i,
{
    if i + 1 < bits.len() {
        lemma_qft_from_len(bits, i + 1);
    }
}

/// The Fourier transform on n qubits is 2n - 1 operations (none for no qubit):
/// a Hadamard gate on each qubit, each but the last followed by one phase gate
/// controlled by that qubit, shifting each later qubit by pi / 2^(distance).
pub proof fn lemma_qft_ops_shape(a_mask: usize, i: int)
    requires
        0 <= i < popcount(a_mask),
    ensures
        qft_ops(a_mask).len() == 2 * popcount(a_mask) - 1,
        qft_from(qubits(a_mask), i)[0] == OpView::of(Gate::H1(qubits(a_mask)[i])),
        i + 1 < popcount(a_mask) ==> qft_from(qubits(a_mask), i)[1] == qft_phase_op(qubits(a_mask), i),
        qft_ops(a_mask).skip(2 * i) == qft_from(qubits(a_mask), i),
{
    let bits = qubits(a_mask);
    lemma_qft_from_len(bits, 0);
    lemma_qft_from_skip(bits, i);
}

proof fn lemma_qft_from_skip(bits: Seq<usize>, i: int)
    requires
        0 <= i < bits.len(),
    ensures
        qft_from(bits, 0).skip(2 * i) == qft_from(bits, i),
    decreases i,
{
    if i > 0 {
        lemma_qft_from_skip(bits, i - 1);
        let a = qft_from(bits, i - 1);
        assert(a == seq![OpView::of(Gate::H1(bits[i - 1])), qft_phase_op(bits, i - 1)]
            + qft_from(bits, i));
        assert(a.skip(2) =~= qft_from(bits, i));
        lemma_qft_from_len(bits, 0);
        lemma_qft_from_len(bits, i - 1);
        assert(qft_from(bits, 0).skip(2 * i) =~= a.skip(2));
    } else {
        assert(qft_from(bits, 0).skip(0) =~= qft_from(bits, 0));
    }
}

proof fn lemma_h_single(b: usize)
    requires
        qubits(b) == seq![b],
    ensures
        h_ops(b) == seq![OpView::of(Gate::H1(b))],
{
    assert(h_ops(b) =~= seq![OpView::of(Gate::H1(b))]);
}

/// The discrete Fourier transform of the amplitudes over the qubits of `a_mask`.
pub fn qft(a_mask: usize) -> (r: MultiOp)
    ensures
        r@ == qft_ops(a_mask),
{
    let count = count_bits(a_mask);
    proof {
        lemma_small_popcount(a_mask);
        lemma_qubits_from_len(a_mask, 0);
    }
    if count == 0 {
        let r = MultiOp::default();
        proof {
            assert(r@ =~= qft_ops(a_mask));
        }
        r
    } else if count == 1 {
        let r = h(a_mask);
        proof {
            lemma_h_single(a_mask);
            assert(r@ =~= qft_ops(a_mask));
        }
        r
    } else {
        let ghost bits = qubits(a_mask);
        let v = qubit_list(a_mask);
        let mut res = MultiOp(VecDeque::new());
        let mut i: usize = 0;
        proof {
            assert(res@ + qft_from(bits, 0) =~= qft_from(bits, 0));
        }
        while i + 1 < count
            invariant
                v@ == bits,
                bits == qubits(a_mask),
                count == bits.len(),
                2 <= count <= 64,
                i + 1 <= count,
                res@ + qft_from(bits, i as int) == qft_from(bits, 0),
            decreases count - i,
        {
            proof {
                lemma_qubits_single(a_mask, i as int);
                lemma_small_popcount(v@[i as int]);
                lemma_h_single(v@[i as int]);
            }
            res.mul_assign(h(v[i]));
            let mut phases: Vec<(Angle, usize)> = Vec::new();
            let mut j: usize = i + 1;
            while j < count
                invariant
                    v@ == bits,
                    count == bits.len(),
                    count <= 64,
                    i + 1 <= j <= count,
                    phases@ =~= qft_phases(bits, i as int).take(j - i - 1),
                decreases count - j,
            {
                phases.push((Angle::pi_over_pow2((j - i) as u32), v[j]));
                proof {
                    assert(qft_phases(bits, i as int).take(j - i) =~= qft_phases(
                        bits,
                        i as int,
                    ).take(j - i - 1).push((Angle::pi_over_pow2_spec((j - i) as nat), bits[j as int])));
                }
                j = j + 1;
            }
            proof {
                assert(phases@ =~= qft_phases(bits, i as int));
                assert(phase_masks(phases@) =~= bits.skip(i + 1));
                lemma_qubits_disjoint_later(a_mask, i as int);
                let u = union_all(bits.skip(i + 1));
                let b = bits[i as int];
                let x = bits[i + 1];
                let y = union_all(bits.skip(i + 2));
                lemma_qubits_single(a_mask, i + 1);
                crate::math::lemma_popcount_zero(x);
                assert(bits.skip(i + 1).drop_first() =~= bits.skip(i + 2));
                assert(u == x | y);
                assert((b & u == 0 ==> (u | 0usize) & b == 0) && 0usize | b == b && (x != 0 ==> x
                    | y != 0)) by (bit_vector);
            }
            let op = phi(phases).c(v[i]).unwrap();
            let ghost before = res@;
            res.mul_assign_single(op);
            proof {
                assert(op@ == qft_phase_op(bits, i as int));
                assert(res@ =~= before + seq![qft_phase_op(bits, i as int)]);
                assert(qft_from(bits, i as int) =~= seq![
                    OpView::of(Gate::H1(bits[i as int])),
                    qft_phase_op(bits, i as int),
                ] + qft_from(bits, i + 1));
            }
            i = i + 1;
        }
        proof {
            lemma_qubits_single(a_mask, i as int);
            lemma_small_popcount(v@[i as int]);
            lemma_h_single(v@[i as int]);
        }
        res.mul_assign(h(v[i]));
        proof {
            assert(res@ =~= qft_ops(a_mask));
        }
        res
    }
}

/// The Fourier transform with the order of the qubits of `a_mask` reversed first
/// by swaps, which gives the discrete transform in the natural order of the
/// amplitudes' indices.
pub fn qft_swapped(a_mask: usize) -> (r: MultiOp)
    ensures
        r@ == qft_swapped_ops(a_mask),
{
    let v = qubit_list(a_mask);
    let ghost bits = qubits(a_mask);
    let mut swaps = MultiOp::default();
    let len = v.len();
    let mut i: usize = 0;
    while i < len / 2
        invariant
            v@ == bits,
            bits == qubits(a_mask),
            len == bits.len(),
            i <= len / 2,
            swaps@ =~= reversal_swaps(bits).take(i as int),
        decreases len / 2 - i,
    {
        proof {
            lemma_pair_popcount(a_mask, i as int, len - 1 - i);
        }
        let s = swap(v[i] | v[len - i - 1]).unwrap();
        swaps.mul_assign_single(s);
        proof {
            assert(reversal_swaps(bits).take(i + 1) =~= reversal_swaps(bits).take(i as int).push(
                s@,
            ));
        }
        i = i + 1;
    }
    let r = swaps * qft(a_mask);
    proof {
        assert(reversal_swaps(bits).take(i as int) =~= reversal_swaps(bits));
    }
    r
}

/// The phase shifts of the Fourier transform: after the Hadamard gate on qubit
/// `i` of `a_mask` comes one phase gate, controlled by that qubit, that shifts
/// each later qubit `j`, in order, by pi / 2^(j - i): the first by pi/2 (the
/// double of pi with its exponent one lower), and each next one by half the
/// angle of the one before it (its double's exponent one lower again), at every
/// distance.
pub proof fn lemma_qft_phases(a_mask: usize, i: int, j: int)
    requires
        0 <= i < j < popcount(a_mask),
    ensures
        ({
            let bits = qubits(a_mask);
            let op = qft_ops(a_mask)[2 * i + 1];
            &&& op.ctrl == bits[i]
            &&& op.gate matches Gate::Phi(p) && p.len() == popcount(a_mask) - 1 - i && p[j - i
                - 1].1 == bits[j] && p[j - i - 1].0 == Angle::pi_over_pow2_spec((j - i) as nat)
                && p[0].0.bits == PI_BITS - EXPONENT_UNIT && (j + 1 < popcount(a_mask) ==> p[j
                - i].0.bits + EXPONENT_UNIT == p[j - i - 1].0.bits)
        }),
{
    let bits = qubits(a_mask);
    lemma_qft_ops_shape(a_mask, i);
    crate::math::lemma_qubits_from_len(a_mask, 0);
    assert(popcount(a_mask) <= 64);
    assert(qft_ops(a_mask)[2 * i + 1] == qft_ops(a_mask).skip(2 * i)[1]);
}

} // verus!
