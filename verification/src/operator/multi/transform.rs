//! What a queue of gates with exact coefficients does to the amplitudes, as a
//! sum of monomials w^k r^h (w = e^(i pi/4), r = 1/sqrt(2)); and the proof that
//! the Hadamard queue is the Hadamard transform.
use vstd::prelude::*;
use crate::math::{
    lemma_one_qubit_flip, lemma_pair_popcount, lemma_qubits_single, lemma_union_of_qubits,
    popcount, qubits, union_all,
};
use crate::operator::amplitude::{gate_terms, odd, op_terms, turn, CoefView};
use crate::operator::atomic::Gate;
use crate::operator::multi::h::{h_gates, h_ops, lemma_h_gates_last, lemma_h_gates_pair};
use crate::operator::multi::lemma_union_all_concat;
use crate::operator::single::OpView;

verus! {

/// The monomials `s`, each times w^j r^e; `(k, h)` stands for w^k r^h.
pub open spec fn shift(s: Seq<(nat, nat)>, j: nat, e: nat) -> Seq<(nat, nat)> {
    s.map_values(|p: (nat, nat)| (((p.0 + j) % 8) as nat, p.1 + e))
}

/// The monomials that a term with coefficient `c` makes of the monomials `s` of
/// its source; none where `c` is not a power of w times a power of r.
pub open spec fn through(c: CoefView, s: Seq<(nat, nat)>) -> Seq<(nat, nat)> {
    match c {
        CoefView::Root(k, h) => shift(s, k, h),
        _ => seq![],
    }
}

/// The monomials, one for each way through the queue, whose sum is the entry at
/// row `i` and column `x` of the matrix of the queue `ops` (its operations
/// applied in order). A row of an operation has at most four terms; where every
/// gate of the queue has exact coefficients, the sum is the entry itself.
pub open spec fn queue_paths(ops: Seq<OpView>, i: usize, x: usize) -> Seq<(nat, nat)>
    decreases ops.len(),
{
    if ops.len() == 0 {
        if i == x {
            seq![(0nat, 0nat)]
        } else {
            seq![]
        }
    } else {
        let ts = op_terms(ops.last(), i);
        let pre = ops.drop_last();
        let p0 = if ts.len() > 0 {
            through(ts[0].1, queue_paths(pre, ts[0].0, x))
        } else {
            seq![]
        };
        let p1 = if ts.len() > 1 {
            through(ts[1].1, queue_paths(pre, ts[1].0, x))
        } else {
            seq![]
        };
        let p2 = if ts.len() > 2 {
            through(ts[2].1, queue_paths(pre, ts[2].0, x))
        } else {
            seq![]
        };
        let p3 = if ts.len() > 3 {
            through(ts[3].1, queue_paths(pre, ts[3].0, x))
        } else {
            seq![]
        };
        p0 + p1 + p2 + p3
    }
}

/// The number of the masks `bits` that are set in both `k` and `x`.
pub open spec fn both_set(bits: Seq<usize>, k: usize, x: usize) -> nat
    decreases bits.len(),
{
    if bits.len() == 0 {
        0
    } else {
        both_set(bits.drop_last(), k, x) + if x & k & bits.last() != 0 {
            1nat
        } else {
            0nat
        }
    }
}

/// The entry at row `k` and column `x` of the Hadamard transform on the qubits
/// `bits`, as monomials: none where `k` and `x` differ outside these qubits,
/// else (-1)^n r^c, with `c` the number of the qubits and `n` the number of
/// them set in both `k` and `x`.
pub open spec fn hadamard_entry(bits: Seq<usize>, k: usize, x: usize) -> Seq<(nat, nat)> {
    if (x ^ k) & !union_all(bits) == 0 {
        seq![(((4 * both_set(bits, k, x)) % 8) as nat, bits.len())]
    } else {
        seq![]
    }
}

proof fn lemma_bits(x: usize, k: usize, b: usize, u: usize, v: usize)
    ensures
        ((x ^ k) & !0usize == 0) == (x == k),
        b & 0usize == 0,
        b | 0usize == b,
        !k & 0usize == 0,
        b & u == u & b,
        b & u == 0 && b & v == 0 ==> b & (u | v) == 0,
        b & u == 0 ==> ((x & (k ^ u) & b != 0) == (x & k & b != 0)),
{
    assert(((x ^ k) & !0usize == 0) == (x == k) && b & 0usize == 0 && b | 0usize == b && !k & 0usize
        == 0 && b & u == u & b && (b & u == 0 && b & v == 0 ==> b & (u | v) == 0) && (b & u == 0
        ==> ((x & (k ^ u) & b != 0) == (x & k & b != 0)))) by (bit_vector);
}

proof fn lemma_disjoint_union(b: usize, s: Seq<usize>)
    requires
        forall|j: int| 0 <= j < s.len() ==> (#[trigger] s[j]) & b == 0,
    ensures
        b & union_all(s) == 0,
    decreases s.len(),
{
    if s.len() == 0 {
        lemma_bits(0, 0, b, 0, 0);
    } else {
        assert forall|j: int| 0 <= j < s.drop_first().len() implies (
        #[trigger] s.drop_first()[j]) & b == 0 by {
            assert(s.drop_first()[j] == s[j + 1]);
        }
        lemma_disjoint_union(b, s.drop_first());
        lemma_bits(0, 0, s[0], b, 0);
        assert(b & s[0] == 0);
        lemma_bits(0, 0, b, s[0], union_all(s.drop_first()));
    }
}

proof fn lemma_both_set_flip(s: Seq<usize>, k: usize, x: usize, g: usize)
    requires
        forall|j: int| 0 <= j < s.len() ==> (#[trigger] s[j]) & g == 0,
    ensures
        both_set(s, k ^ g, x) == both_set(s, k, x),
    decreases s.len(),
{
    if s.len() > 0 {
        let e = s.last();
        assert forall|j: int| 0 <= j < s.drop_last().len() implies (
        #[trigger] s.drop_last()[j]) & g == 0 by {
            assert(s.drop_last()[j] == s[j]);
        }
        lemma_both_set_flip(s.drop_last(), k, x, g);
        assert(e & g == 0);
        lemma_bits(x, k, e, g, 0);
    }
}

proof fn lemma_union_push(s: Seq<usize>, g: usize)
    ensures
        union_all(s.push(g)) == union_all(s) | g,
{
    lemma_union_all_concat(s, seq![g]);
    assert(s.push(g) =~= s + seq![g]);
    assert(seq![g].drop_first() =~= Seq::<usize>::empty());
    assert(union_all(Seq::<usize>::empty()) == 0);
    assert(union_all(seq![g]) == g | union_all(Seq::<usize>::empty()));
    lemma_bits(0, 0, g, 0, 0);
}

proof fn lemma_h1_step(pre: Seq<OpView>, s: Seq<usize>, g: usize, k: usize, x: usize)
    requires
        popcount(g) == 1,
        g & union_all(s) == 0,
        forall|j: int| 0 <= j < s.len() ==> (#[trigger] s[j]) & g == 0,
        queue_paths(pre, k, x) == hadamard_entry(s, k, x),
        queue_paths(pre, k ^ g, x) == hadamard_entry(s, k ^ g, x),
    ensures
        queue_paths(pre.push(OpView::of(Gate::H1(g))), k, x) == hadamard_entry(s.push(g), k, x),
{
    let op = OpView::of(Gate::H1(g));
    let ops = pre.push(op);
    assert(ops.drop_last() =~= pre);
    lemma_bits(x, k, g, 0, 0);
    let u = union_all(s);
    lemma_union_push(s, g);
    assert(s.push(g).drop_last() =~= s);
    let n = both_set(s, k, x);
    assert(both_set(s.push(g), k, x) == n + if x & k & g != 0 { 1nat } else { 0nat });
    lemma_both_set_flip(s, k, x, g);
    lemma_one_qubit_flip(x, g);
    lemma_one_qubit_flip(k, g);
    assert(((x ^ k) & !(u | g) == 0 ==> ((x ^ k) & !u == 0) == (x & g == k & g) && ((x ^ (k ^ g))
        & !u == 0) == (x & g != k & g)) && ((x ^ k) & !(u | g) != 0 ==> (x ^ k) & !u != 0 && (x ^ (
    k ^ g)) & !u != 0) && (x & g == k & g ==> ((x & k & g != 0) == (k & g != 0))) && (x & g != k
        & g ==> x & k & g == 0)) by (bit_vector)
        requires
            g & u == 0,
            ((x ^ g) & g != 0) == (x & g == 0),
            ((k ^ g) & g != 0) == (k & g == 0),
    ;
    let sk: nat = if k & g != 0 { 4 } else { 0 };
    let ts = op_terms(op, k);
    assert(ts == seq![(k, CoefView::Root(sk, 1)), (k ^ g, CoefView::Root(0, 1))]);
    let q0 = queue_paths(pre, k, x);
    let q1 = queue_paths(pre, k ^ g, x);
    assert(queue_paths(ops, k, x) == shift(q0, sk, 1) + shift(q1, 0, 1) + Seq::<(nat, nat)>::empty()
        + Seq::<(nat, nat)>::empty());
    if (x ^ k) & !(u | g) != 0 {
        assert(shift(q0, sk, 1) =~= Seq::<(nat, nat)>::empty());
        assert(shift(q1, 0, 1) =~= Seq::<(nat, nat)>::empty());
        assert(queue_paths(ops, k, x) =~= Seq::<(nat, nat)>::empty());
    } else if x & g == k & g {
        assert(shift(q0, sk, 1) =~= seq![((((4 * n) % 8 + sk) % 8) as nat, s.len() + 1)]);
        assert(shift(q1, 0, 1) =~= Seq::<(nat, nat)>::empty());
        assert(((4 * n) % 8 + sk) % 8 == (4 * (n + if x & k & g != 0 { 1nat } else { 0nat })) % 8);
        assert(queue_paths(ops, k, x) =~= hadamard_entry(s.push(g), k, x));
    } else {
        assert(shift(q0, sk, 1) =~= Seq::<(nat, nat)>::empty());
        assert(shift(q1, 0, 1) =~= seq![((((4 * n) % 8 + 0) % 8) as nat, s.len() + 1)]);
        assert(queue_paths(ops, k, x) =~= hadamard_entry(s.push(g), k, x));
    }
}

#[verifier::rlimit(60)]
proof fn lemma_h2_step(pre: Seq<OpView>, s: Seq<usize>, p: usize, q: usize, k: usize, x: usize)
    requires
        popcount(p) == 1,
        popcount(q) == 1,
        p & q == 0,
        p & union_all(s) == 0,
        q & union_all(s) == 0,
        forall|j: int| 0 <= j < s.len() ==> (#[trigger] s[j]) & p == 0 && s[j] & q == 0,
        queue_paths(pre, k, x) == hadamard_entry(s, k, x),
        queue_paths(pre, k ^ q, x) == hadamard_entry(s, k ^ q, x),
        queue_paths(pre, k ^ p, x) == hadamard_entry(s, k ^ p, x),
        queue_paths(pre, k ^ (q | p), x) == hadamard_entry(s, k ^ (q | p), x),
    ensures
        queue_paths(pre.push(OpView::of(Gate::H2(q, p))), k, x) == hadamard_entry(
            s.push(p).push(q),
            k,
            x,
        ),
{
    let op = OpView::of(Gate::H2(q, p));
    let ops = pre.push(op);
    let t = s.push(p).push(q);
    assert(ops.drop_last() =~= pre);
    lemma_bits(x, k, q, 0, 0);
    let u = union_all(s);
    lemma_union_push(s, p);
    lemma_union_push(s.push(p), q);
    assert(t.drop_last() =~= s.push(p));
    assert(s.push(p).drop_last() =~= s);
    let n = both_set(s, k, x);
    let ea: nat = if x & k & q != 0 { 1 } else { 0 };
    let eb: nat = if x & k & p != 0 { 1 } else { 0 };
    assert(t.last() == q && s.push(p).last() == p);
    assert(both_set(s.push(p), k, x) == n + eb);
    assert(both_set(t, k, x) == both_set(s.push(p), k, x) + ea);
    lemma_both_set_flip(s, k, x, q);
    lemma_both_set_flip(s, k, x, p);
    assert forall|j: int| 0 <= j < s.len() implies (#[trigger] s[j]) & (q | p) == 0 by {
        lemma_bits(0, 0, s[j], q, p);
    }
    lemma_both_set_flip(s, k, x, q | p);
    lemma_one_qubit_flip(x, p);
    lemma_one_qubit_flip(k, p);
    lemma_one_qubit_flip(x, q);
    lemma_one_qubit_flip(k, q);
    let v = (u | p) | q;
    assert(((x ^ k) & !v != 0 ==> (x ^ k) & !u != 0 && (x ^ (k ^ q)) & !u != 0 && (x ^ (k ^ p))
        & !u != 0 && (x ^ (k ^ (q | p))) & !u != 0) && ((x ^ k) & !v == 0 ==> ((x ^ k) & !u == 0)
        == (x & q == k & q && x & p == k & p) && ((x ^ (k ^ q)) & !u == 0) == (x & q != k & q && x
        & p == k & p) && ((x ^ (k ^ p)) & !u == 0) == (x & q == k & q && x & p != k & p) && ((x ^ (
    k ^ (q | p))) & !u == 0) == (x & q != k & q && x & p != k & p)) && (x & q == k & q ==> ((x & k
        & q != 0) == (k & q != 0))) && (x & q != k & q ==> x & k & q == 0) && (x & p == k & p ==> ((
    x & k & p != 0) == (k & p != 0))) && (x & p != k & p ==> x & k & p == 0)) by (bit_vector)
        requires
            p & q == 0,
            p & u == 0,
            q & u == 0,
            v == (u | p) | q,
            ((x ^ p) & p != 0) == (x & p == 0),
            ((k ^ p) & p != 0) == (k & p == 0),
            ((x ^ q) & q != 0) == (x & q == 0),
            ((k ^ q) & q != 0) == (k & q == 0),
    ;
    let sa: nat = if k & q != 0 { 4 } else { 0 };
    let sb: nat = if k & p != 0 { 4 } else { 0 };
    let ts = op_terms(op, k);
    assert(ts == seq![
        (k, CoefView::Root((sa + sb) % 8, 2)),
        (k ^ q, CoefView::Root(sb, 2)),
        (k ^ p, CoefView::Root(sa, 2)),
        (k ^ (q | p), CoefView::Root(0, 2)),
    ]);
    let q0 = queue_paths(pre, k, x);
    let q1 = queue_paths(pre, k ^ q, x);
    let q2 = queue_paths(pre, k ^ p, x);
    let q3 = queue_paths(pre, k ^ (q | p), x);
    let r0 = shift(q0, (sa + sb) % 8, 2);
    let r1 = shift(q1, sb, 2);
    let r2 = shift(q2, sa, 2);
    let r3 = shift(q3, 0, 2);
    assert(queue_paths(ops, k, x) == r0 + r1 + r2 + r3);
    let e = Seq::<(nat, nat)>::empty();
    let m = (4 * n) % 8;
    if (x ^ k) & !v != 0 {
        assert(r0 =~= e && r1 =~= e && r2 =~= e && r3 =~= e);
        assert(queue_paths(ops, k, x) =~= e);
    } else if x & q == k & q && x & p == k & p {
        assert(r1 =~= e && r2 =~= e && r3 =~= e);
        assert(r0 =~= seq![(((m + (sa + sb) % 8) % 8) as nat, s.len() + 2)]);
        assert((m + (sa + sb) % 8) % 8 == (4 * (n + eb + ea)) % 8);
        assert(queue_paths(ops, k, x) =~= hadamard_entry(t, k, x));
    } else if x & q != k & q && x & p == k & p {
        assert(r0 =~= e && r2 =~= e && r3 =~= e);
        assert(r1 =~= seq![(((m + sb) % 8) as nat, s.len() + 2)]);
        assert((m + sb) % 8 == (4 * (n + eb + ea)) % 8);
        assert(queue_paths(ops, k, x) =~= hadamard_entry(t, k, x));
    } else if x & q == k & q && x & p != k & p {
        assert(r0 =~= e && r1 =~= e && r3 =~= e);
        assert(r2 =~= seq![(((m + sa) % 8) as nat, s.len() + 2)]);
        assert((m + sa) % 8 == (4 * (n + eb + ea)) % 8);
        assert(queue_paths(ops, k, x) =~= hadamard_entry(t, k, x));
    } else {
        assert(r0 =~= e && r1 =~= e && r2 =~= e);
        assert(r3 =~= seq![(((m + 0) % 8) as nat, s.len() + 2)]);
        assert(queue_paths(ops, k, x) =~= hadamard_entry(t, k, x));
    }
}

proof fn lemma_h_paths(bits: Seq<usize>, k: usize, x: usize)
    requires
        forall|i: int| 0 <= i < bits.len() ==> popcount(#[trigger] bits[i]) == 1,
        forall|i: int, j: int| 0 <= i < j < bits.len() ==> #[trigger] bits[i] & #[trigger] bits[j] == 0,
    ensures
        queue_paths(h_gates(bits).map_values(|g: Gate| OpView::of(g)), k, x) == hadamard_entry(
            bits,
            k,
            x,
        ),
    decreases bits.len(),
{
    let ops = h_gates(bits).map_values(|g: Gate| OpView::of(g));
    let n = bits.len();
    if n == 0 {
        assert(ops =~= Seq::<OpView>::empty());
        lemma_bits(x, k, 0, 0, 0);
        assert(union_all(bits) == 0);
    } else {
        let even = n % 2 == 0;
        let s = if even { bits.take(n - 2) } else { bits.drop_last() };
        assert forall|i: int| 0 <= i < s.len() implies popcount(#[trigger] s[i]) == 1 by {
            assert(s[i] == bits[i]);
        }
        assert forall|i: int, j: int| 0 <= i < j < s.len() implies #[trigger] s[i] & #[trigger] s[j]
            == 0 by {
            assert(s[i] == bits[i] && s[j] == bits[j]);
        }
        let pre = h_gates(s).map_values(|g: Gate| OpView::of(g));
        if !even {
            let g = bits.last();
            assert(bits =~= s.push(g));
            lemma_h_gates_last(s, g);
            assert(ops =~= pre.push(OpView::of(Gate::H1(g))));
            assert forall|j: int| 0 <= j < s.len() implies (#[trigger] s[j]) & g == 0 by {
                assert(s[j] == bits[j] && g == bits[n - 1]);
            }
            lemma_disjoint_union(g, s);
            lemma_h_paths(s, k, x);
            lemma_h_paths(s, k ^ g, x);
            lemma_h1_step(pre, s, g, k, x);
        } else {
            let p = bits[n - 2];
            let q = bits[n - 1];
            assert(bits =~= s.push(p).push(q));
            assert(s + seq![p, q] =~= bits);
            lemma_h_gates_pair(s, p, q);
            assert(ops =~= pre.push(OpView::of(Gate::H2(q, p))));
            assert forall|j: int| 0 <= j < s.len() implies (#[trigger] s[j]) & p == 0 && s[j] & q
                == 0 by {
                assert(s[j] == bits[j]);
                assert(bits[j] & bits[n - 2] == 0);
                assert(bits[j] & bits[n - 1] == 0);
            }
            assert(p & q == 0);
            lemma_disjoint_union(p, s);
            assert forall|j: int| 0 <= j < s.len() implies (#[trigger] s[j]) & q == 0 by {
                assert(s[j] & p == 0 && s[j] & q == 0);
            }
            lemma_disjoint_union(q, s);
            lemma_h_paths(s, k, x);
            lemma_h_paths(s, k ^ q, x);
            lemma_h_paths(s, k ^ p, x);
            lemma_h_paths(s, k ^ (q | p), x);
            lemma_h2_step(pre, s, p, q, k, x);
        }
    }
}

/// The Hadamard queue is the Hadamard transform: in the matrix of the queue of
/// `h(a_mask)`, the entry at row `k` and column `x` is zero where `k` and `x`
/// differ outside `a_mask`, and otherwise the single monomial (-1)^n r^c, with
/// `c` the number of qubits of `a_mask` and `n` the number of them set in both
/// `k` and `x`.
pub proof fn lemma_h_transform(a_mask: usize, k: usize, x: usize)
    ensures
        queue_paths(h_ops(a_mask), k, x) == if (x ^ k) & !a_mask == 0 {
            seq![(((4 * both_set(qubits(a_mask), k, x)) % 8) as nat, popcount(a_mask))]
        } else {
            seq![]
        },
{
    let bits = qubits(a_mask);
    assert forall|i: int| 0 <= i < bits.len() implies popcount(#[trigger] bits[i]) == 1 by {
        lemma_qubits_single(a_mask, i);
    }
    assert forall|i: int, j: int| 0 <= i < j < bits.len() implies #[trigger] bits[i]
        & #[trigger] bits[j] == 0 by {
        lemma_pair_popcount(a_mask, i, j);
    }
    lemma_h_paths(bits, k, x);
    lemma_union_of_qubits(a_mask);
}

proof fn lemma_diagonal_step(pre: Seq<OpView>, g: Gate, c: nat, k: usize, x: usize)
    requires
        gate_terms(g, k) == seq![(k, CoefView::Root(c, 0))],
    ensures
        queue_paths(pre.push(OpView::of(g)), k, x) == shift(queue_paths(pre, k, x), c, 0),
{
    lemma_bits(x, k, 0, 0, 0);
    assert(pre.push(OpView::of(g)).drop_last() =~= pre);
    assert(shift(queue_paths(pre, k, x), c, 0) + Seq::<(nat, nat)>::empty()
        + Seq::<(nat, nat)>::empty() + Seq::<(nat, nat)>::empty() =~= shift(
        queue_paths(pre, k, x),
        c,
        0,
    ));
}

/// Four T gates make Z: the queue of four T gates (or four inverse T gates) on
/// the qubits of `m` has, at every row `k` and column `x`, the same monomials
/// as Z on those qubits.
pub proof fn lemma_four_t_is_z(m: usize, d: bool, k: usize, x: usize)
    ensures
        ({
            let t = OpView::of(Gate::T(m, d));
            queue_paths(seq![t, t, t, t], k, x) == queue_paths(seq![OpView::of(Gate::Z(m))], k, x)
        }),
{
    let t = OpView::of(Gate::T(m, d));
    let e = Seq::<OpView>::empty();
    let p = popcount(k & m);
    let c = turn(p, d);
    let z: nat = if odd(k & m) { 4 } else { 0 };
    let q0 = queue_paths(e, k, x);
    lemma_diagonal_step(e, Gate::T(m, d), c, k, x);
    lemma_diagonal_step(e.push(t), Gate::T(m, d), c, k, x);
    lemma_diagonal_step(e.push(t).push(t), Gate::T(m, d), c, k, x);
    lemma_diagonal_step(e.push(t).push(t).push(t), Gate::T(m, d), c, k, x);
    lemma_diagonal_step(e, Gate::Z(m), z, k, x);
    assert(e.push(t).push(t).push(t).push(t) =~= seq![t, t, t, t]);
    assert(e.push(OpView::of(Gate::Z(m))) =~= seq![OpView::of(Gate::Z(m))]);
    assert((((((c % 8) + c) % 8 + c) % 8 + c) % 8) == z % 8) by (nonlinear_arith)
        requires
            c == (if d { ((8 - p % 8) % 8) as nat } else { p % 8 }),
            z == (if p % 2 == 1 { 4nat } else { 0nat }),
    ;
    if k == x {
        assert(q0 == seq![(0nat, 0nat)]);
        assert(shift(shift(shift(shift(q0, c, 0), c, 0), c, 0), c, 0) =~= seq![
            ((((((0 + c) % 8 + c) % 8 + c) % 8 + c) % 8) as nat, 0nat),
        ]);
        assert(shift(q0, z, 0) =~= seq![(((0 + z) % 8) as nat, 0nat)]);
    } else {
        assert(q0 == Seq::<(nat, nat)>::empty());
        assert(shift(shift(shift(shift(q0, c, 0), c, 0), c, 0), c, 0) =~= q0);
        assert(shift(q0, z, 0) =~= q0);
    }
}

} // verus!
