//! The Hadamard transform on a set of qubits.
use vstd::prelude::*;
use std::collections::VecDeque;
use crate::math::{count_bits, lemma_small_popcount, lemma_union_of_qubits, popcount, qubits, union_all, BitsIter};
use crate::operator::atomic::{AtomicOpDispatch, Gate};
use crate::operator::multi::{act_on_all, acts, MultiOp};
use crate::operator::single::{OpView, SingleOp};

verus! {

/// The Hadamard gates on the qubits `bits` (single-bit masks, lowest first): each
/// following pair of qubits gets one two-qubit gate, named by the later qubit first,
/// and a qubit left over at the end gets a one-qubit gate.
pub open spec fn h_gates(bits: Seq<usize>) -> Seq<Gate>
    decreases bits.len(),
{
    if bits.len() == 0 {
        seq![]
    } else if bits.len() == 1 {
        seq![Gate::H1(bits[0])]
    } else {
        seq![Gate::H2(bits[1], bits[0])] + h_gates(bits.skip(2))
    }
}

/// The operations of the Hadamard transform on the qubits of `a_mask`.
pub open spec fn h_ops(a_mask: usize) -> Seq<OpView> {
    h_gates(qubits(a_mask)).map_values(|g: Gate| OpView::of(g))
}

pub(crate) proof fn lemma_h_gates_pair(s: Seq<usize>, x: usize, y: usize)
    requires
        s.len() % 2 == 0,
    ensures
        h_gates(s + seq![x, y]) == h_gates(s) + seq![Gate::H2(y, x)],
    decreases s.len(),
{
    if s.len() == 0 {
        let t = s + seq![x, y];
        assert(t.skip(2) =~= Seq::<usize>::empty());
        assert(t.len() == 2 && t[0] == x && t[1] == y);
        assert(h_gates(t.skip(2)) == Seq::<Gate>::empty());
        assert(h_gates(s) == Seq::<Gate>::empty());
        assert(h_gates(t) =~= h_gates(s) + seq![Gate::H2(y, x)]);
    } else {
        lemma_h_gates_pair(s.skip(2), x, y);
        assert((s + seq![x, y]).skip(2) =~= s.skip(2) + seq![x, y]);
        assert(h_gates(s + seq![x, y]) =~= h_gates(s) + seq![Gate::H2(y, x)]);
    }
}

pub(crate) proof fn lemma_h_gates_last(s: Seq<usize>, x: usize)
    requires
        s.len() % 2 == 0,
    ensures
        h_gates(s.push(x)) == h_gates(s).push(Gate::H1(x)),
    decreases s.len(),
{
    if s.len() == 0 {
        assert(h_gates(s.push(x)) =~= h_gates(s).push(Gate::H1(x)));
    } else {
        lemma_h_gates_last(s.skip(2), x);
        assert(s.push(x).skip(2) =~= s.skip(2).push(x));
        assert(h_gates(s.push(x)) =~= h_gates(s).push(Gate::H1(x)));
    }
}

proof fn lemma_h_gates_union(bits: Seq<usize>)
    ensures
        union_all(h_gates(bits).map_values(|g: Gate| g.acts_on())) == union_all(bits),
    decreases bits.len(),
{
    let gs = h_gates(bits).map_values(|g: Gate| g.acts_on());
    if bits.len() == 0 {
        assert(gs =~= Seq::<usize>::empty());
    } else if bits.len() == 1 {
        assert(gs =~= seq![bits[0]]);
        assert(gs.drop_first() =~= Seq::<usize>::empty());
        assert(bits.drop_first() =~= Seq::<usize>::empty());
    } else {
        let rest = bits.skip(2);
        lemma_h_gates_union(rest);
        let rs = h_gates(rest).map_values(|g: Gate| g.acts_on());
        assert(gs =~= seq![bits[1] | bits[0]] + rs);
        assert(gs.drop_first() =~= rs);
        assert(bits.drop_first().drop_first() =~= rest);
        let x = bits[0];
        let y = bits[1];
        let u = union_all(rest);
        assert(union_all(bits.drop_first()) == y | u);
        assert((y | x) | u == x | (y | u)) by (bit_vector);
    }
}

/// The Hadamard transform acts on exactly the qubits of its mask.
pub proof fn lemma_h_acts_on(a_mask: usize)
    ensures
        act_on_all(h_ops(a_mask)) == a_mask,
{
    assert(acts(h_ops(a_mask)) =~= h_gates(qubits(a_mask)).map_values(|g: Gate| g.acts_on()));
    lemma_h_gates_union(qubits(a_mask));
    lemma_union_of_qubits(a_mask);
}

proof fn lemma_h_gates_valid(bits: Seq<usize>)
    requires
        forall|a: int| 0 <= a < bits.len() ==> popcount(#[trigger] bits[a]) == 1,
        forall|a: int, b: int| 0 <= a < b < bits.len() ==> popcount(bits[a] | bits[b]) == 2,
    ensures
        forall|k: int| 0 <= k < h_gates(bits).len() ==> (#[trigger] h_gates(bits)[k]).is_valid(),
    decreases bits.len(),
{
    if bits.len() >= 2 {
        let rest = bits.skip(2);
        assert forall|a: int, b: int| 0 <= a < b < rest.len() implies popcount(rest[a] | rest[b]) == 2 by {
            assert(rest[a] == bits[a + 2] && rest[b] == bits[b + 2]);
        }
        assert forall|a: int| 0 <= a < rest.len() implies popcount(#[trigger] rest[a]) == 1 by {
            assert(rest[a] == bits[a + 2]);
        }
        lemma_h_gates_valid(rest);
        let x = bits[0];
        let y = bits[1];
        assert(popcount(x | y) == 2);
        assert(y | x == x | y) by (bit_vector);
        let g = h_gates(bits);
        assert(g == seq![Gate::H2(y, x)] + h_gates(rest));
        assert forall|k: int| 0 <= k < g.len() implies (#[trigger] g[k]).is_valid() by {
            if k > 0 {
                assert(g[k] == h_gates(rest)[k - 1]);
            }
        }
    }
}

/// Every operation of the Hadamard transform is a valid gate on its own
/// qubits, with no control qubit.
pub proof fn lemma_h_ops_valid(a_mask: usize)
    ensures
        forall|k: int|
            0 <= k < h_ops(a_mask).len() ==> (#[trigger] h_ops(a_mask)[k]).wf() && h_ops(
                a_mask,
            )[k].gate.is_valid(),
{
    let bits = qubits(a_mask);
    assert forall|a: int| 0 <= a < bits.len() implies popcount(#[trigger] bits[a]) == 1 by {
        crate::math::lemma_qubits_single(a_mask, a);
    }
    assert forall|a: int, b: int| 0 <= a < b < bits.len() implies popcount(bits[a] | bits[b]) == 2 by {
        crate::math::lemma_pair_popcount(a_mask, a, b);
    }
    lemma_h_gates_valid(bits);
    assert forall|k: int| 0 <= k < h_ops(a_mask).len() implies (#[trigger] h_ops(a_mask)[k]).wf()
        && h_ops(a_mask)[k].gate.is_valid() by {
        crate::operator::single::lemma_op_wf(h_gates(bits)[k], h_ops(a_mask)[k], 0);
    }
}

proof fn lemma_h_gates_shape(bits: Seq<usize>, k: int)
    requires
        0 <= k < (bits.len() + 1) / 2,
    ensures
        h_gates(bits).len() == (bits.len() + 1) / 2,
        h_gates(bits)[k] == if 2 * k + 1 < bits.len() {
            Gate::H2(bits[2 * k + 1], bits[2 * k])
        } else {
            Gate::H1(bits[2 * k])
        },
    decreases bits.len(),
{
    if bits.len() >= 2 {
        let rest = bits.skip(2);
        let g = h_gates(bits);
        assert(g == seq![Gate::H2(bits[1], bits[0])] + h_gates(rest));
        if k > 0 {
            lemma_h_gates_shape(rest, k - 1);
            assert(rest[2 * (k - 1)] == bits[2 * k]);
            if 2 * (k - 1) + 1 < rest.len() {
                assert(rest[2 * (k - 1) + 1] == bits[2 * k + 1]);
            }
            assert(g[k] == h_gates(rest)[k - 1]);
        } else if rest.len() > 0 {
            lemma_h_gates_shape(rest, 0);
        } else {
            assert(h_gates(rest) =~= Seq::<Gate>::empty());
        }
    }
}

/// The Hadamard transform on the qubits p0 < p1 < ... of `a_mask` is, in
/// order, the two-qubit gates on p0, p1, then on p2, p3, and so on, and a
/// one-qubit gate on the last qubit when their number is odd: (n + 1) / 2
/// operations for n qubits, none controlled.
pub proof fn lemma_h_ops_shape(a_mask: usize, k: int)
    requires
        0 <= k < (popcount(a_mask) + 1) / 2,
    ensures
        h_ops(a_mask).len() == (popcount(a_mask) + 1) / 2,
        h_ops(a_mask)[k].ctrl == 0,
        h_ops(a_mask)[k].gate == if 2 * k + 1 < popcount(a_mask) {
            Gate::H2(qubits(a_mask)[2 * k + 1], qubits(a_mask)[2 * k])
        } else {
            Gate::H1(qubits(a_mask)[2 * k])
        },
{
    lemma_h_gates_shape(qubits(a_mask), k);
}

/// The operations of the Hadamard transform act on pairwise disjoint qubits.
pub proof fn lemma_h_ops_disjoint(a_mask: usize, k: int, l: int)
    requires
        0 <= k < l < (popcount(a_mask) + 1) / 2,
    ensures
        h_ops(a_mask)[k].act & h_ops(a_mask)[l].act == 0,
{
    let q = qubits(a_mask);
    let n = q.len() as int;
    lemma_h_gates_shape(q, k);
    lemma_h_gates_shape(q, l);
    let a0 = q[2 * k];
    let a1 = q[2 * k + 1];
    let b0 = q[2 * l];
    crate::math::lemma_pair_popcount(a_mask, 2 * k, 2 * l);
    crate::math::lemma_pair_popcount(a_mask, 2 * k + 1, 2 * l);
    assert(h_ops(a_mask)[k].act == a1 | a0);
    if 2 * l + 1 < n {
        let b1 = q[2 * l + 1];
        crate::math::lemma_pair_popcount(a_mask, 2 * k, 2 * l + 1);
        crate::math::lemma_pair_popcount(a_mask, 2 * k + 1, 2 * l + 1);
        assert(h_ops(a_mask)[l].act == b1 | b0);
        assert(a0 & b0 == 0 && a1 & b0 == 0 && a0 & b1 == 0 && a1 & b1 == 0 ==> (a1 | a0) & (b1
            | b0) == 0) by (bit_vector);
    } else {
        assert(h_ops(a_mask)[l].act == b0);
        assert(a0 & b0 == 0 && a1 & b0 == 0 ==> (a1 | a0) & b0 == 0) by (bit_vector);
    }
}

fn h1(a_mask: usize) -> (r: SingleOp)
    ensures
        r@ == OpView::of(Gate::H1(a_mask)),
{
    SingleOp::from(AtomicOpDispatch::H1(a_mask))
}

fn h2(a_mask: usize, b_mask: usize) -> (r: SingleOp)
    ensures
        r@ == OpView::of(Gate::H2(a_mask, b_mask)),
{
    SingleOp::from(AtomicOpDispatch::H2(a_mask, b_mask))
}

/// The Hadamard transform on the qubits of `a_mask`.
pub fn h(a_mask: usize) -> (r: MultiOp)
    ensures
        r@ == h_ops(a_mask),
{
    let count = count_bits(a_mask);
    proof {
        lemma_small_popcount(a_mask);
    }
    if count == 0 {
        let r = MultiOp::default();
        proof {
            assert(qubits(a_mask) =~= Seq::<usize>::empty());
            assert(r@ =~= h_ops(a_mask));
        }
        r
    } else if count == 1 {
        let r = MultiOp::from(h1(a_mask));
        proof {
            assert(r@ =~= h_ops(a_mask));
        }
        r
    } else {
        let ghost bits = qubits(a_mask);
        let mut res: VecDeque<SingleOp> = VecDeque::new();
        let mut first: Option<usize> = None;
        let mut it = BitsIter::from(a_mask);
        let ghost mut done: Seq<usize> = Seq::empty();
        loop
            invariant
                it.mask() == a_mask,
                bits == qubits(a_mask),
                done + it.remaining() == bits,
                first is None ==> done.len() % 2 == 0 && res@.map_values(|o: SingleOp| o@)
                    == h_gates(done).map_values(|g: Gate| OpView::of(g)),
                first matches Some(a) ==> done.len() % 2 == 1 && a == done.last()
                    && res@.map_values(|o: SingleOp| o@) == h_gates(done.drop_last()).map_values(
                    |g: Gate| OpView::of(g),
                ),
            ensures
                done == bits,
            decreases it.remaining().len(),
        {
            let ghost before = it.remaining();
            match it.next() {
                None => {
                    proof {
                        assert(done =~= bits);
                    }
                    break ;
                },
                Some(b) => {
                    let ghost old_res = res@.map_values(|o: SingleOp| o@);
                    match first {
                        None => {
                            first = Some(b);
                            proof {
                                assert(done.push(b).drop_last() =~= done);
                            }
                        },
                        Some(a) => {
                            let op = h2(b, a);
                            res.push_back(op);
                            first = None;
                            proof {
                                let d = done.drop_last();
                                lemma_h_gates_pair(d, a, b);
                                assert(d + seq![a, b] =~= done.push(b));
                                assert(res@.map_values(|o: SingleOp| o@) =~= old_res.push(op@));
                                assert(h_gates(done.push(b)).map_values(|g: Gate| OpView::of(g))
                                    =~= h_gates(d).map_values(|g: Gate| OpView::of(g)).push(
                                    OpView::of(Gate::H2(b, a)),
                                ));
                            }
                        },
                    }
                    proof {
                        assert(before =~= seq![b] + it.remaining());
                        assert(done.push(b) + it.remaining() =~= bits);
                        done = done.push(b);
                    }
                },
            }
        }
        proof {
            assert(done =~= bits);
        }
        if let Some(a) = first {
            let ghost old_res = res@.map_values(|o: SingleOp| o@);
            let op = h1(a);
            res.push_back(op);
            proof {
                let d = done.drop_last();
                lemma_h_gates_last(d, a);
                assert(d.push(a) =~= done);
                assert(res@.map_values(|o: SingleOp| o@) =~= old_res.push(op@));
                assert(h_gates(done).map_values(|g: Gate| OpView::of(g)) =~= h_gates(d).map_values(
                    |g: Gate| OpView::of(g),
                ).push(OpView::of(Gate::H1(a))));
            }
        }
        let r = MultiOp(res);
        proof {
            assert(r@ =~= h_ops(a_mask));
        }
        r
    }
}

} // verus!
