//! What a gate does to a state vector, written without floating point: the
//! new amplitude at a basis index is a sum of old amplitudes, each times an
//! exactly described coefficient.
use vstd::prelude::*;
use crate::math::{count_bits, popcount};
use crate::operator::angle::{Angle, SIGN_BIT};
use crate::operator::atomic::{neg_phases, AtomicOpDispatch, Gate};
use crate::operator::single::{OpView, SingleOp};

verus! {

/// A coefficient, exactly. Write w for e^(i pi/4) and r for 1/sqrt(2).
#[derive(Clone, Debug, PartialEq)]
pub enum Coef {
    /// `Root(k, h)` is w^k * r^h.
    Root(u8, u8),
    /// `Cos(a)` is cos(a/2).
    Cos(Angle),
    /// `Sin(a, k)` is sin(a/2) * w^k.
    Sin(Angle, u8),
    /// `Exp(a, false)` is e^(i a/2), `Exp(a, true)` is e^(-i a/2).
    Exp(Angle, bool),
    /// The product of the e^(i a * n) for the pairs `(a, n)`.
    Phases(Vec<(Angle, u32)>),
}

/// The mathematical value of a [`Coef`].
pub enum CoefView {
    Root(nat, nat),
    Cos(Angle),
    Sin(Angle, nat),
    Exp(Angle, bool),
    Phases(Seq<(Angle, nat)>),
}

/// The numbers of a list of phase pairs.
pub open spec fn phase_pairs_view(p: Seq<(Angle, u32)>) -> Seq<(Angle, nat)> {
    p.map_values(|q: (Angle, u32)| (q.0, q.1 as nat))
}

impl View for Coef {
    type V = CoefView;

    open spec fn view(&self) -> CoefView {
        match self {
            Coef::Root(k, h) => CoefView::Root(*k as nat, *h as nat),
            Coef::Cos(a) => CoefView::Cos(*a),
            Coef::Sin(a, k) => CoefView::Sin(*a, *k as nat),
            Coef::Exp(a, n) => CoefView::Exp(*a, *n),
            Coef::Phases(p) => CoefView::Phases(phase_pairs_view(p@)),
        }
    }
}

/// One summand of a new amplitude: the old amplitude at `source`, times `coef`.
#[derive(Clone, Debug, PartialEq)]
pub struct Term {
    pub source: usize,
    pub coef: Coef,
}

/// The mathematical values of a list of terms.
pub open spec fn terms_view(t: Seq<Term>) -> Seq<(usize, CoefView)> {
    t.map_values(|x: Term| (x.source, x.coef@))
}

/// Whether the angle's double is negative: its sign bit is set.
pub open spec fn negative(a: Angle) -> bool {
    a.bits & SIGN_BIT != 0
}

/// The angle with its sign bit cleared.
pub open spec fn magnitude(a: Angle) -> Angle {
    Angle { bits: a.bits & 0x7FFF_FFFF_FFFF_FFFFu64 }
}

/// A normal form of a coefficient: two coefficients whose normal forms are
/// equal are the same number. It rests on cos(-x) = cos(x), sin(-x) = -sin(x)
/// = sin(x) * w^4 and e^(-i(-x)/2) = e^(ix/2).
pub open spec fn canon(c: CoefView) -> CoefView {
    match c {
        CoefView::Root(k, h) => CoefView::Root(k % 8, h),
        CoefView::Cos(a) => CoefView::Cos(magnitude(a)),
        CoefView::Sin(a, k) => if negative(a) {
            CoefView::Sin(magnitude(a), (k + 4) % 8)
        } else {
            CoefView::Sin(a, k % 8)
        },
        CoefView::Exp(a, n) => if negative(a) {
            CoefView::Exp(magnitude(a), !n)
        } else {
            CoefView::Exp(a, n)
        },
        CoefView::Phases(p) => CoefView::Phases(p),
    }
}

/// The complex conjugate of a coefficient.
pub open spec fn conj(c: CoefView) -> CoefView {
    match c {
        CoefView::Root(k, h) => CoefView::Root(((8 - k % 8) % 8) as nat, h),
        CoefView::Cos(a) => CoefView::Cos(a),
        CoefView::Sin(a, k) => CoefView::Sin(a, ((8 - k % 8) % 8) as nat),
        CoefView::Exp(a, n) => CoefView::Exp(a, !n),
        CoefView::Phases(p) => CoefView::Phases(
            p.map_values(|q: (Angle, nat)| (q.0.neg_spec(), q.1)),
        ),
    }
}

/// The coefficient of the old amplitude at `j` among the terms `ts`: the entry
/// of a gate's matrix in the row of the terms and column `j`; `None` for zero.
pub open spec fn entry(ts: Seq<(usize, CoefView)>, j: usize) -> Option<CoefView>
    decreases ts.len(),
{
    if ts.len() == 0 {
        None
    } else if ts[0].0 == j {
        Some(ts[0].1)
    } else {
        entry(ts.drop_first(), j)
    }
}

/// Whether the matrix entry `x` is the complex conjugate of the entry `y`.
pub open spec fn conjugate_entries(x: Option<CoefView>, y: Option<CoefView>) -> bool {
    match x {
        None => y is None,
        Some(c) => y matches Some(d) && canon(c) == canon(conj(d)),
    }
}

pub(crate) proof fn lemma_entry1(x: (usize, CoefView), j: usize)
    ensures
        entry(seq![x], j) == if x.0 == j { Some(x.1) } else { None::<CoefView> },
{
    reveal_with_fuel(entry, 2);
    assert(seq![x].drop_first() =~= Seq::<(usize, CoefView)>::empty());
}

pub(crate) proof fn lemma_entry2(x: (usize, CoefView), y: (usize, CoefView), j: usize)
    ensures
        entry(seq![x, y], j) == if x.0 == j {
            Some(x.1)
        } else if y.0 == j {
            Some(y.1)
        } else {
            None::<CoefView>
        },
{
    reveal_with_fuel(entry, 3);
    assert(seq![x, y].drop_first() =~= seq![y]);
    assert(seq![y].drop_first() =~= Seq::<(usize, CoefView)>::empty());
}

pub(crate) proof fn lemma_entry4(
    w: (usize, CoefView),
    x: (usize, CoefView),
    y: (usize, CoefView),
    z: (usize, CoefView),
    j: usize,
)
    ensures
        entry(seq![w, x, y, z], j) == if w.0 == j {
            Some(w.1)
        } else if x.0 == j {
            Some(x.1)
        } else if y.0 == j {
            Some(y.1)
        } else if z.0 == j {
            Some(z.1)
        } else {
            None::<CoefView>
        },
{
    reveal_with_fuel(entry, 5);
    assert(seq![w, x, y, z].drop_first() =~= seq![x, y, z]);
    assert(seq![x, y, z].drop_first() =~= seq![y, z]);
    assert(seq![y, z].drop_first() =~= seq![z]);
    assert(seq![z].drop_first() =~= Seq::<(usize, CoefView)>::empty());
}

proof fn lemma_neg_sign(a: Angle)
    ensures
        negative(a.neg_spec()) == !negative(a),
        magnitude(a.neg_spec()) == magnitude(a),
        !negative(a) ==> magnitude(a) == a,
        negative(a) ==> magnitude(a) == a.neg_spec(),
{
    let b = a.bits;
    assert(((b ^ 0x8000_0000_0000_0000u64) & 0x8000_0000_0000_0000u64 != 0) == !(b
        & 0x8000_0000_0000_0000u64 != 0) && (b ^ 0x8000_0000_0000_0000u64)
        & 0x7FFF_FFFF_FFFF_FFFFu64 == b & 0x7FFF_FFFF_FFFF_FFFFu64 && (b
        & 0x8000_0000_0000_0000u64 == 0 ==> b & 0x7FFF_FFFF_FFFF_FFFFu64 == b) && (b
        & 0x8000_0000_0000_0000u64 != 0 ==> b & 0x7FFF_FFFF_FFFF_FFFFu64 == b
        ^ 0x8000_0000_0000_0000u64)) by (bit_vector);
}

proof fn lemma_xor_sym(i: usize, j: usize, m: usize)
    ensures
        (i ^ m == j) == (j ^ m == i),
        (i ^ m) ^ m == i,
        m != 0 ==> i ^ m != i,
{
    assert((i ^ m == j) == (j ^ m == i) && (i ^ m) ^ m == i && (m != 0 ==> i ^ m != i)) by (bit_vector);
}

proof fn lemma_two_qubit_parity(i: usize, m: usize)
    requires
        popcount(m) == 2,
    ensures
        odd((i ^ m) & m) == odd(i & m),
        m != 0,
{
    crate::math::lemma_popcount_split(i, m);
    crate::math::lemma_popcount_zero(m);
}

proof fn lemma_adjoint_y(m: usize, i: usize, j: usize)
    ensures
        conjugate_entries(entry(gate_terms(Gate::Y(m), i), j), entry(gate_terms(Gate::Y(m), j), i)),
{
    lemma_entry1((i ^ m, CoefView::Root(y_eighths(m, i), 0)), j);
    lemma_entry1((j ^ m, CoefView::Root(y_eighths(m, j), 0)), i);
    lemma_xor_sym(i, j, m);
    if j == i ^ m {
        crate::math::lemma_popcount_split(i, m);
        let c = popcount(m);
        let p = popcount(i & m);
        let p2 = popcount(j & m);
        assert(p2 + p == c);
        let e1: int = if p % 2 == 1 { 0 } else { 2 };
        let e2: int = if p2 % 2 == 1 { 0 } else { 2 };
        let q1 = ((4 - c % 4) + 2 + e1) % 4;
        let q2 = ((4 - c % 4) + 2 + e2) % 4;
        assert((q1 + q2) % 4 == 0) by (nonlinear_arith)
            requires
                p2 + p == c,
                e1 == (if p % 2 == 1 { 0int } else { 2int }),
                e2 == (if p2 % 2 == 1 { 0int } else { 2int }),
                q1 == ((4 - c % 4) + 2 + e1) % 4,
                q2 == ((4 - c % 4) + 2 + e2) % 4,
        ;
        assert(y_eighths(m, i) == 2 * q1);
        assert(y_eighths(m, j) == 2 * q2);
    }
}

proof fn lemma_adjoint_rx(m: usize, a: Angle, i: usize, j: usize, two: bool)
    requires
        m != 0,
    ensures
        ({
            let g = if two { Gate::RXX(m, a) } else { Gate::RX(m, a) };
            conjugate_entries(entry(gate_terms(g.dgr(), i), j), entry(gate_terms(g, j), i))
        }),
{
    let b = a.neg_spec();
    lemma_entry2((i, CoefView::Cos(b)), (i ^ m, CoefView::Sin(b, 6)), j);
    lemma_entry2((j, CoefView::Cos(a)), (j ^ m, CoefView::Sin(a, 6)), i);
    lemma_xor_sym(i, j, m);
    lemma_xor_sym(j, i, m);
    lemma_neg_sign(a);
}

proof fn lemma_adjoint_ry(m: usize, a: Angle, i: usize, j: usize)
    requires
        popcount(m) == 1,
    ensures
        conjugate_entries(
            entry(gate_terms(Gate::RY(m, a).dgr(), i), j),
            entry(gate_terms(Gate::RY(m, a), j), i),
        ),
{
    let b = a.neg_spec();
    let ki: nat = if i & m != 0 { 0 } else { 4 };
    let kj: nat = if j & m != 0 { 0 } else { 4 };
    lemma_entry2((i, CoefView::Cos(b)), (i ^ m, CoefView::Sin(b, ki)), j);
    lemma_entry2((j, CoefView::Cos(a)), (j ^ m, CoefView::Sin(a, kj)), i);
    crate::math::lemma_one_qubit_flip(i, m);
    lemma_xor_sym(i, j, m);
    lemma_xor_sym(j, i, m);
    lemma_neg_sign(a);
}

proof fn lemma_adjoint_ryy(m: usize, a: Angle, i: usize, j: usize)
    requires
        popcount(m) == 2,
    ensures
        conjugate_entries(
            entry(gate_terms(Gate::RYY(m, a).dgr(), i), j),
            entry(gate_terms(Gate::RYY(m, a), j), i),
        ),
{
    let b = a.neg_spec();
    let ki: nat = if odd(i & m) { 6 } else { 2 };
    let kj: nat = if odd(j & m) { 6 } else { 2 };
    lemma_entry2((i, CoefView::Cos(b)), (i ^ m, CoefView::Sin(b, ki)), j);
    lemma_entry2((j, CoefView::Cos(a)), (j ^ m, CoefView::Sin(a, kj)), i);
    lemma_two_qubit_parity(i, m);
    lemma_xor_sym(i, j, m);
    lemma_xor_sym(j, i, m);
    lemma_neg_sign(a);
}

proof fn lemma_adjoint_h1(m: usize, i: usize, j: usize)
    requires
        popcount(m) == 1,
    ensures
        conjugate_entries(
            entry(gate_terms(Gate::H1(m), i), j),
            entry(gate_terms(Gate::H1(m), j), i),
        ),
{
    let ki: nat = if i & m != 0 { 4 } else { 0 };
    let kj: nat = if j & m != 0 { 4 } else { 0 };
    lemma_entry2((i, CoefView::Root(ki, 1)), (i ^ m, CoefView::Root(0, 1)), j);
    lemma_entry2((j, CoefView::Root(kj, 1)), (j ^ m, CoefView::Root(0, 1)), i);
    crate::math::lemma_one_qubit_flip(i, m);
    lemma_xor_sym(i, j, m);
    lemma_xor_sym(j, i, m);
}

/// How flipping the qubits `a`, `b` or both moves an index, for two disjoint
/// nonempty masks.
pub(crate) proof fn lemma_h2_bits(a: usize, b: usize, x: usize)
    requires
        a & b == 0,
        a != 0,
        b != 0,
    ensures
        x ^ a != x,
        x ^ b != x,
        x ^ (a | b) != x,
        x ^ a != x ^ b,
        x ^ a != x ^ (a | b),
        x ^ b != x ^ (a | b),
        (x ^ a) ^ a == x,
        (x ^ b) ^ b == x,
        (x ^ (a | b)) ^ (a | b) == x,
        (x ^ a) ^ b == x ^ (a | b),
        (x ^ b) ^ a == x ^ (a | b),
        (x ^ a) ^ (a | b) == x ^ b,
        (x ^ b) ^ (a | b) == x ^ a,
        (x ^ (a | b)) ^ a == x ^ b,
        (x ^ (a | b)) ^ b == x ^ a,
        ((x ^ a) & b != 0) == (x & b != 0),
        ((x ^ b) & a != 0) == (x & a != 0),
{
    assert(x ^ a != x && x ^ b != x && x ^ (a | b) != x && x ^ a != x ^ b && x ^ a != x ^ (a | b)
        && x ^ b != x ^ (a | b) && (x ^ a) ^ a == x && (x ^ b) ^ b == x && (x ^ (a | b)) ^ (a | b)
        == x && (x ^ a) ^ b == x ^ (a | b) && (x ^ b) ^ a == x ^ (a | b) && (x ^ a) ^ (a | b) == x
        ^ b && (x ^ b) ^ (a | b) == x ^ a && (x ^ (a | b)) ^ a == x ^ b && (x ^ (a | b)) ^ b == x
        ^ a && ((x ^ a) & b != 0) == (x & b != 0) && ((x ^ b) & a != 0) == (x & a != 0))
        by (bit_vector)
        requires
            a & b == 0,
            a != 0,
            b != 0,
    ;
}

proof fn lemma_adjoint_h2(a: usize, b: usize, i: usize, j: usize)
    requires
        a & b == 0,
        a != 0,
        b != 0,
    ensures
        conjugate_entries(
            entry(gate_terms(Gate::H2(a, b), i), j),
            entry(gate_terms(Gate::H2(a, b), j), i),
        ),
{
    let ab = a | b;
    let sa: nat = if i & a != 0 { 4 } else { 0 };
    let sb: nat = if i & b != 0 { 4 } else { 0 };
    let ta: nat = if j & a != 0 { 4 } else { 0 };
    let tb: nat = if j & b != 0 { 4 } else { 0 };
    lemma_entry4(
        (i, CoefView::Root((sa + sb) % 8, 2)),
        (i ^ a, CoefView::Root(sb, 2)),
        (i ^ b, CoefView::Root(sa, 2)),
        (i ^ ab, CoefView::Root(0, 2)),
        j,
    );
    lemma_entry4(
        (j, CoefView::Root((ta + tb) % 8, 2)),
        (j ^ a, CoefView::Root(tb, 2)),
        (j ^ b, CoefView::Root(ta, 2)),
        (j ^ ab, CoefView::Root(0, 2)),
        i,
    );
    lemma_h2_bits(a, b, i);
    lemma_h2_bits(a, b, j);
}

proof fn lemma_adjoint_swaps(g: Gate, m: usize, i: usize, j: usize)
    requires
        popcount(m) == 2,
        g.acts_on() == m,
        g is Swap || g is ISwap || g is SqrtSwap || g is SqrtISwap,
    ensures
        conjugate_entries(entry(gate_terms(g.dgr(), i), j), entry(gate_terms(g, j), i)),
{
    lemma_two_qubit_parity(i, m);
    lemma_two_qubit_parity(j, m);
    lemma_xor_sym(i, j, m);
    lemma_xor_sym(j, i, m);
    let one = CoefView::Root(0, 0);
    lemma_entry1((i, one), j);
    lemma_entry1((j, one), i);
    match g {
        Gate::Swap(_) => {
            lemma_entry1((i ^ m, one), j);
            lemma_entry1((j ^ m, one), i);
        },
        Gate::ISwap(_, d) => {
            lemma_entry1((i ^ m, CoefView::Root(if !d { 6nat } else { 2nat }, 0)), j);
            lemma_entry1((j ^ m, CoefView::Root(if d { 6nat } else { 2nat }, 0)), i);
        },
        Gate::SqrtSwap(_, d) => {
            lemma_entry2(
                (i, CoefView::Root(if !d { 7nat } else { 1nat }, 1)),
                (i ^ m, CoefView::Root(if !d { 1nat } else { 7nat }, 1)),
                j,
            );
            lemma_entry2(
                (j, CoefView::Root(if d { 7nat } else { 1nat }, 1)),
                (j ^ m, CoefView::Root(if d { 1nat } else { 7nat }, 1)),
                i,
            );
        },
        Gate::SqrtISwap(_, d) => {
            lemma_entry2(
                (i, CoefView::Root(0, 1)),
                (i ^ m, CoefView::Root(if !d { 6nat } else { 2nat }, 1)),
                j,
            );
            lemma_entry2(
                (j, CoefView::Root(0, 1)),
                (j ^ m, CoefView::Root(if d { 6nat } else { 2nat }, 1)),
                i,
            );
        },
        _ => {},
    }
}

proof fn lemma_adjoint_s_t(m: usize, d: bool, i: usize, j: usize, half: bool)
    ensures
        ({
            let g = if half { Gate::T(m, d) } else { Gate::S(m, d) };
            conjugate_entries(entry(gate_terms(g.dgr(), i), j), entry(gate_terms(g, j), i))
        }),
{
    let f: nat = if half { 1 } else { 2 };
    lemma_entry1((i, CoefView::Root(turn(f * popcount(i & m), !d), 0)), j);
    lemma_entry1((j, CoefView::Root(turn(f * popcount(j & m), d), 0)), i);
}

proof fn lemma_adjoint_rz(g: Gate, m: usize, a: Angle, i: usize, j: usize)
    requires
        g == Gate::RZ(m, a) || g == Gate::RZZ(m, a),
    ensures
        conjugate_entries(entry(gate_terms(g.dgr(), i), j), entry(gate_terms(g, j), i)),
{
    lemma_neg_sign(a);
    let fi = if g is RZ { i & m == 0 } else { !odd(i & m) };
    let fj = if g is RZ { j & m == 0 } else { !odd(j & m) };
    lemma_entry1((i, CoefView::Exp(a.neg_spec(), fi)), j);
    lemma_entry1((j, CoefView::Exp(a, fj)), i);
}

proof fn lemma_adjoint_phi(p: Seq<(Angle, usize)>, i: usize, j: usize)
    ensures
        conjugate_entries(
            entry(gate_terms(Gate::Phi(p).dgr(), i), j),
            entry(gate_terms(Gate::Phi(p), j), i),
        ),
{
    lemma_entry1((i, CoefView::Phases(phi_counts(neg_phases(p), i))), j);
    lemma_entry1((j, CoefView::Phases(phi_counts(p, j))), i);
    if i == j {
        let lhs = phi_counts(neg_phases(p), i);
        let rhs = phi_counts(p, i).map_values(|q: (Angle, nat)| (q.0.neg_spec(), q.1));
        assert(lhs =~= rhs);
    }
}

/// The inverse of every valid gate is its conjugate transpose: at every row
/// `i` and column `j`, the matrix of `g.dgr()` holds the complex conjugate of
/// the entry of `g` at row `j` and column `i`, and zero where that one is zero.
pub proof fn lemma_dgr_is_adjoint(g: Gate, i: usize, j: usize)
    requires
        g.is_valid(),
    ensures
        conjugate_entries(entry(gate_terms(g.dgr(), i), j), entry(gate_terms(g, j), i)),
{
    match g {
        Gate::X(m) => {
            lemma_entry1((i ^ m, CoefView::Root(0, 0)), j);
            lemma_entry1((j ^ m, CoefView::Root(0, 0)), i);
            lemma_xor_sym(i, j, m);
        },
        Gate::Y(m) => lemma_adjoint_y(m, i, j),
        Gate::RX(m, a) => {
            crate::math::lemma_popcount_zero(m);
            lemma_adjoint_rx(m, a, i, j, false);
        },
        Gate::RXX(m, a) => {
            crate::math::lemma_popcount_zero(m);
            lemma_adjoint_rx(m, a, i, j, true);
        },
        Gate::RY(m, a) => lemma_adjoint_ry(m, a, i, j),
        Gate::RYY(m, a) => lemma_adjoint_ryy(m, a, i, j),
        Gate::H1(m) => lemma_adjoint_h1(m, i, j),
        Gate::H2(a, b) => {
            crate::math::lemma_two_single_qubits(a, b);
            lemma_adjoint_h2(a, b, i, j);
        },
        Gate::Swap(m) => lemma_adjoint_swaps(g, m, i, j),
        Gate::ISwap(m, _) => lemma_adjoint_swaps(g, m, i, j),
        Gate::SqrtSwap(m, _) => lemma_adjoint_swaps(g, m, i, j),
        Gate::SqrtISwap(m, _) => lemma_adjoint_swaps(g, m, i, j),
        Gate::Id => {
            lemma_entry1((i, CoefView::Root(0, 0)), j);
            lemma_entry1((j, CoefView::Root(0, 0)), i);
        },
        Gate::Z(m) => {
            lemma_entry1((i, CoefView::Root(if odd(i & m) { 4nat } else { 0nat }, 0)), j);
            lemma_entry1((j, CoefView::Root(if odd(j & m) { 4nat } else { 0nat }, 0)), i);
        },
        Gate::S(m, d) => lemma_adjoint_s_t(m, d, i, j, false),
        Gate::T(m, d) => lemma_adjoint_s_t(m, d, i, j, true),
        Gate::RZ(m, a) => lemma_adjoint_rz(g, m, a, i, j),
        Gate::RZZ(m, a) => lemma_adjoint_rz(g, m, a, i, j),
        Gate::Phi(p) => lemma_adjoint_phi(p, i, j),
    }
}

/// Whether every term of `ts` reads an index that agrees with `i` outside the qubits of `a`.
pub open spec fn local_to(ts: Seq<(usize, CoefView)>, i: usize, a: usize) -> bool {
    forall|k: int| 0 <= k < ts.len() ==> ((#[trigger] ts[k]).0 ^ i) & !a == 0
}

/// A gate mixes only amplitudes of basis states that agree outside its qubits:
/// every term of the new amplitude at `i` reads an index that differs from `i`
/// only on the qubits this gate acts on.
pub proof fn lemma_gate_local(g: Gate, i: usize)
    ensures
        local_to(gate_terms(g, i), i, g.acts_on()),
{
    let ts = gate_terms(g, i);
    let a = g.acts_on();
    assert((i ^ i) & !a == 0) by (bit_vector);
    match g {
        Gate::H2(x, y) => {
            assert(((i ^ x) ^ i) & !(x | y) == 0 && ((i ^ y) ^ i) & !(x | y) == 0 && ((i ^ (x | y)) ^ i)
                & !(x | y) == 0) by (bit_vector);
        },
        Gate::Id | Gate::Z(_) | Gate::S(_, _) | Gate::T(_, _) | Gate::RZ(_, _) | Gate::RZZ(_, _)
        | Gate::Phi(_) => {},
        _ => {
            assert(((i ^ a) ^ i) & !a == 0) by (bit_vector);
        },
    }
    assert forall|k: int| 0 <= k < ts.len() implies ((#[trigger] ts[k]).0 ^ i) & !a == 0 by {
        if k == 0 {
        }
    }
}

proof fn lemma_entry_local(ts: Seq<(usize, CoefView)>, i: usize, a: usize, j: usize)
    requires
        local_to(ts, i, a),
        entry(ts, j) is Some,
    ensures
        (j ^ i) & !a == 0,
    decreases ts.len(),
{
    if ts[0].0 != j {
        assert(local_to(ts.drop_first(), i, a)) by {
            assert forall|k: int| 0 <= k < ts.drop_first().len() implies ((#[trigger] ts.drop_first()[k]).0
                ^ i) & !a == 0 by {
                assert(ts.drop_first()[k] == ts[k + 1]);
            }
        }
        lemma_entry_local(ts.drop_first(), i, a, j);
    } else {
        assert((ts[0].0 ^ i) & !a == 0);
    }
}

/// Inverting a gate keeps the qubits it acts on.
pub proof fn lemma_dgr_acts_on(g: Gate)
    ensures
        g.dgr().acts_on() == g.acts_on(),
        g.dgr().is_valid() == g.is_valid(),
{
    if let Gate::Phi(p) = g {
        assert(crate::operator::atomic::phase_masks(neg_phases(p)) =~= crate::operator::atomic::phase_masks(p));
    }
}

/// An index that differs from `j` only on the qubits of `a` has the same
/// control qubits set as `j`, for control qubits `c` apart from `a`.
pub(crate) proof fn lemma_control_kept(i: usize, j: usize, a: usize, c: usize)
    ensures
        (i ^ j) & !a == 0 && a & c == 0 ==> (!i & c == 0 <==> !j & c == 0),
        (j ^ i) & !a == 0 && a & c == 0 ==> (!i & c == 0 <==> !j & c == 0),
{
    assert(((i ^ j) & !a == 0 && a & c == 0 ==> (!i & c == 0 <==> !j & c == 0)) && ((j ^ i) & !a
        == 0 && a & c == 0 ==> (!i & c == 0 <==> !j & c == 0))) by (bit_vector);
}

/// The inverse of an operation is its conjugate transpose, controls included:
/// at every row `i` and column `j`, the matrix of `op.dgr()` holds the complex
/// conjugate of the entry of `op` at row `j` and column `i`.
pub proof fn lemma_op_dgr_is_adjoint(op: OpView, i: usize, j: usize)
    requires
        op.gate.is_valid(),
        op.act == op.gate.acts_on(),
        op.act & op.ctrl == 0,
    ensures
        conjugate_entries(entry(op_terms(op.dgr(), i), j), entry(op_terms(op, j), i)),
{
    let g = op.gate;
    let a = op.act;
    let c = op.ctrl;
    lemma_dgr_acts_on(g);
    lemma_entry1((i, CoefView::Root(0, 0)), j);
    lemma_entry1((j, CoefView::Root(0, 0)), i);
    let ci = !i & c != 0;
    let cj = !j & c != 0;
    if !ci && !cj {
        lemma_dgr_is_adjoint(g, i, j);
    } else if ci && !cj {
        if entry(gate_terms(g, j), i) is Some {
            lemma_gate_local(g, j);
            lemma_entry_local(gate_terms(g, j), j, a, i);
            lemma_control_kept(i, j, a, c);
        }
        assert(i != j);
    } else if !ci && cj {
        if entry(gate_terms(g.dgr(), i), j) is Some {
            lemma_gate_local(g.dgr(), i);
            lemma_entry_local(gate_terms(g.dgr(), i), i, a, j);
            lemma_control_kept(i, j, a, c);
        }
        assert(i != j);
    }
}

/// Whether `x` has an odd number of set bits.
pub open spec fn odd(x: usize) -> bool {
    popcount(x) % 2 == 1
}

/// `k` eighths of a turn, or minus that for an inverse gate, reduced to 0..8.
pub open spec fn turn(k: nat, dagger: bool) -> nat {
    if dagger {
        ((8 - k % 8) % 8) as nat
    } else {
        k % 8
    }
}

/// The power of w by which Y on the qubits `m` multiplies the amplitude it
/// moves to index `i`: i^q with q = -popcount(m) - 2, plus 2 when `i & m` has
/// an even number of set bits.
pub open spec fn y_eighths(m: usize, i: usize) -> nat {
    (2 * (((4 - popcount(m) % 4) + 2 + (if odd(i & m) { 0int } else { 2int })) % 4)) as nat
}

/// The phase pairs of Phi at index `i`: each angle with the number of its
/// qubits set in `i`.
pub open spec fn phi_counts(p: Seq<(Angle, usize)>, i: usize) -> Seq<(Angle, nat)> {
    p.map_values(|q: (Angle, usize)| (q.0, popcount(i & q.1)))
}

/// The terms of the new amplitude at index `i` after a gate `g`.
pub open spec fn gate_terms(g: Gate, i: usize) -> Seq<(usize, CoefView)> {
    match g {
        Gate::Id => seq![(i, CoefView::Root(0, 0))],
        Gate::X(m) => seq![(i ^ m, CoefView::Root(0, 0))],
        Gate::Y(m) => seq![(i ^ m, CoefView::Root(y_eighths(m, i), 0))],
        Gate::Z(m) => seq![(i, CoefView::Root(if odd(i & m) { 4nat } else { 0nat }, 0))],
        Gate::S(m, d) => seq![(i, CoefView::Root(turn(2 * popcount(i & m), d), 0))],
        Gate::T(m, d) => seq![(i, CoefView::Root(turn(popcount(i & m), d), 0))],
        Gate::RX(m, a) | Gate::RXX(m, a) => seq![
            (i, CoefView::Cos(a)),
            (i ^ m, CoefView::Sin(a, 6)),
        ],
        Gate::RY(m, a) => seq![
            (i, CoefView::Cos(a)),
            (i ^ m, CoefView::Sin(a, if i & m != 0 { 0nat } else { 4nat })),
        ],
        Gate::RYY(m, a) => seq![
            (i, CoefView::Cos(a)),
            (i ^ m, CoefView::Sin(a, if odd(i & m) { 6nat } else { 2nat })),
        ],
        Gate::RZ(m, a) => seq![(i, CoefView::Exp(a, i & m == 0))],
        Gate::RZZ(m, a) => seq![(i, CoefView::Exp(a, !odd(i & m)))],
        Gate::H1(m) => seq![
            (i, CoefView::Root(if i & m != 0 { 4nat } else { 0nat }, 1)),
            (i ^ m, CoefView::Root(0, 1)),
        ],
        Gate::H2(a, b) => {
            let sa: nat = if i & a != 0 { 4 } else { 0 };
            let sb: nat = if i & b != 0 { 4 } else { 0 };
            seq![
                (i, CoefView::Root((sa + sb) % 8, 2)),
                (i ^ a, CoefView::Root(sb, 2)),
                (i ^ b, CoefView::Root(sa, 2)),
                (i ^ (a | b), CoefView::Root(0, 2)),
            ]
        },
        Gate::Swap(m) => if odd(i & m) {
            seq![(i ^ m, CoefView::Root(0, 0))]
        } else {
            seq![(i, CoefView::Root(0, 0))]
        },
        Gate::ISwap(m, d) => if odd(i & m) {
            seq![(i ^ m, CoefView::Root(if d { 6nat } else { 2nat }, 0))]
        } else {
            seq![(i, CoefView::Root(0, 0))]
        },
        Gate::SqrtSwap(m, d) => if odd(i & m) {
            seq![
                (i, CoefView::Root(if d { 7nat } else { 1nat }, 1)),
                (i ^ m, CoefView::Root(if d { 1nat } else { 7nat }, 1)),
            ]
        } else {
            seq![(i, CoefView::Root(0, 0))]
        },
        Gate::SqrtISwap(m, d) => if odd(i & m) {
            seq![
                (i, CoefView::Root(0, 1)),
                (i ^ m, CoefView::Root(if d { 6nat } else { 2nat }, 1)),
            ]
        } else {
            seq![(i, CoefView::Root(0, 0))]
        },
        Gate::Phi(p) => seq![(i, CoefView::Phases(phi_counts(p, i)))],
    }
}

/// The terms of the new amplitude at index `i` after the operation `op`: the
/// old amplitude itself where a control qubit of `op` is 0 in `i`.
pub open spec fn op_terms(op: OpView, i: usize) -> Seq<(usize, CoefView)> {
    if !i & op.ctrl != 0 {
        seq![(i, CoefView::Root(0, 0))]
    } else {
        gate_terms(op.gate, i)
    }
}

fn is_odd(x: usize) -> (b: bool)
    ensures
        b == odd(x),
{
    count_bits(x) % 2 == 1
}

fn root(k: u8, h: u8, source: usize) -> (t: Term)
    ensures
        t.source == source,
        t.coef@ == CoefView::Root(k as nat, h as nat),
{
    Term { source, coef: Coef::Root(k, h) }
}

fn phi_terms(p: &Vec<(Angle, usize)>, i: usize) -> (r: Vec<(Angle, u32)>)
    ensures
        phase_pairs_view(r@) == phi_counts(p@, i),
{
    let mut r: Vec<(Angle, u32)> = Vec::new();
    let mut k: usize = 0;
    while k < p.len()
        invariant
            k <= p@.len(),
            phase_pairs_view(r@) =~= phi_counts(p@, i).take(k as int),
        decreases p@.len() - k,
    {
        let (a, m) = p[k];
        let n = count_bits(i & m);
        proof {
            crate::math::lemma_qubits_from_len(i & m, 0);
        }
        r.push((a, n as u32));
        proof {
            assert(phi_counts(p@, i).take(k + 1) =~= phi_counts(p@, i).take(k as int).push(
                (a, popcount(i & m)),
            ));
        }
        k = k + 1;
    }
    proof {
        assert(phi_counts(p@, i).take(p@.len() as int) =~= phi_counts(p@, i));
    }
    r
}

/// The terms of the new amplitude at index `i` after a gate `g`.
pub fn atomic_terms(g: &AtomicOpDispatch, i: usize) -> (r: Vec<Term>)
    ensures
        terms_view(r@) == gate_terms(g@, i),
{
    let r = match g {
        AtomicOpDispatch::Id => vec![root(0, 0, i)],
        AtomicOpDispatch::X(m) => vec![root(0, 0, i ^ *m)],
        AtomicOpDispatch::Y(m) => {
            let c = count_bits(*m);
            let even_extra: usize = if is_odd(i & *m) { 0 } else { 2 };
            let q = ((4 - c % 4) + 2 + even_extra) % 4;
            vec![root((2 * q) as u8, 0, i ^ *m)]
        },
        AtomicOpDispatch::Z(m) => vec![root(if is_odd(i & *m) { 4 } else { 0 }, 0, i)],
        AtomicOpDispatch::S(m, d) => {
            let k = (2 * (count_bits(i & *m) % 8)) % 8;
            let k = if *d { (8 - k) % 8 } else { k };
            vec![root(k as u8, 0, i)]
        },
        AtomicOpDispatch::T(m, d) => {
            let k = count_bits(i & *m) % 8;
            let k = if *d { (8 - k) % 8 } else { k };
            vec![root(k as u8, 0, i)]
        },
        AtomicOpDispatch::RX(m, a) | AtomicOpDispatch::RXX(m, a) => vec![
            Term { source: i, coef: Coef::Cos(*a) },
            Term { source: i ^ *m, coef: Coef::Sin(*a, 6) },
        ],
        AtomicOpDispatch::RY(m, a) => vec![
            Term { source: i, coef: Coef::Cos(*a) },
            Term { source: i ^ *m, coef: Coef::Sin(*a, if i & *m != 0 { 0 } else { 4 }) },
        ],
        AtomicOpDispatch::RYY(m, a) => vec![
            Term { source: i, coef: Coef::Cos(*a) },
            Term { source: i ^ *m, coef: Coef::Sin(*a, if is_odd(i & *m) { 6 } else { 2 }) },
        ],
        AtomicOpDispatch::RZ(m, a) => vec![Term { source: i, coef: Coef::Exp(*a, i & *m == 0) }],
        AtomicOpDispatch::RZZ(m, a) => vec![
            Term { source: i, coef: Coef::Exp(*a, !is_odd(i & *m)) },
        ],
        AtomicOpDispatch::H1(m) => vec![
            root(if i & *m != 0 { 4 } else { 0 }, 1, i),
            root(0, 1, i ^ *m),
        ],
        AtomicOpDispatch::H2(a, b) => {
            let sa: u8 = if i & *a != 0 { 4 } else { 0 };
            let sb: u8 = if i & *b != 0 { 4 } else { 0 };
            vec![
                root((sa + sb) % 8, 2, i),
                root(sb, 2, i ^ *a),
                root(sa, 2, i ^ *b),
                root(0, 2, i ^ (*a | *b)),
            ]
        },
        AtomicOpDispatch::Swap(m) => if is_odd(i & *m) {
            vec![root(0, 0, i ^ *m)]
        } else {
            vec![root(0, 0, i)]
        },
        AtomicOpDispatch::ISwap(m, d) => if is_odd(i & *m) {
            vec![root(if *d { 6 } else { 2 }, 0, i ^ *m)]
        } else {
            vec![root(0, 0, i)]
        },
        AtomicOpDispatch::SqrtSwap(m, d) => if is_odd(i & *m) {
            vec![root(if *d { 7 } else { 1 }, 1, i), root(if *d { 1 } else { 7 }, 1, i ^ *m)]
        } else {
            vec![root(0, 0, i)]
        },
        AtomicOpDispatch::SqrtISwap(m, d) => if is_odd(i & *m) {
            vec![root(0, 1, i), root(if *d { 6 } else { 2 }, 1, i ^ *m)]
        } else {
            vec![root(0, 0, i)]
        },
        AtomicOpDispatch::Phi(p) => vec![Term { source: i, coef: Coef::Phases(phi_terms(p, i)) }],
    };
    proof {
        assert(terms_view(r@) =~= gate_terms(g@, i));
    }
    r
}

/// The terms of the new amplitude at index `i` after the operation `op`.
pub fn amplitude_terms(op: &SingleOp, i: usize) -> (r: Vec<Term>)
    ensures
        terms_view(r@) == op_terms(op@, i),
{
    if !i & op.ctrl() != 0 {
        let r = vec![root(0, 0, i)];
        proof {
            assert(terms_view(r@) =~= op_terms(op@, i));
        }
        r
    } else {
        atomic_terms(op.func(), i)
    }
}

/// How many times the phase gate of the single pair `(a, m)` takes the angle
/// `a` at index `i`.
pub open spec fn phase_count(a: Angle, m: usize, i: usize) -> nat {
    match gate_terms(Gate::Phi(seq![(a, m)]), i)[0].1 {
        CoefView::Phases(q) => q[0].1,
        _ => 0,
    }
}

/// The phase gate keeps each amplitude in place and takes each of its pairs on
/// its own, as a phase gate of that pair alone would; a pair takes its angle once
/// for each qubit of its mask set in the index: never for the empty mask,
/// once or not at all for a single qubit as it is set or not, and, over two
/// disjoint masks, as often as over the one plus over the other. So the phase
/// gate on a mask is the product of the phase gates on its single qubits.
pub proof fn lemma_phi_per_qubit(
    p: Seq<(Angle, usize)>,
    i: usize,
    a: Angle,
    m1: usize,
    m2: usize,
    b: usize,
)
    ensures
        gate_terms(Gate::Phi(p), i).len() == 1,
        gate_terms(Gate::Phi(p), i)[0].0 == i,
        gate_terms(Gate::Phi(p), i)[0].1 matches CoefView::Phases(q) && q.len() == p.len() && (
        forall|j: int| 0 <= j < p.len() ==> #[trigger] q[j] == (p[j].0, phase_count(p[j].0, p[j].1, i))),
        phase_count(a, 0, i) == 0,
        popcount(b) == 1 ==> phase_count(a, b, i) == if i & b != 0 {
            1nat
        } else {
            0nat
        },
        m1 & m2 == 0 ==> phase_count(a, m1 | m2, i) == phase_count(a, m1, i) + phase_count(a, m2, i),
{
    let x = i & m1;
    let y = i & m2;
    assert(i & 0usize == 0 && (m1 & m2 == 0 ==> (i & m1) & (i & m2) == 0 && i & (m1 | m2) == (i
        & m1) | (i & m2) && ((i & m1) ^ ((i & m1) | (i & m2))) & ((i & m1) | (i & m2)) == i & m2
        && (i & m1) & ((i & m1) | (i & m2)) == i & m1) && (((i ^ b) & b != 0) == (i & b == 0) ==> (i
        & b == 0 || i & b == b))) by (bit_vector);
    crate::math::lemma_popcount_zero(0);
    if m1 & m2 == 0 {
        crate::math::lemma_popcount_split(x, x | y);
    }
    if popcount(b) == 1 {
        crate::math::lemma_one_qubit_flip(i, b);
    }
}

/// The Ising coupling RZZ on two qubits depends only on their parity in the
/// index: it keeps each amplitude in place, with the same coefficient at `i`
/// and at `i ^ m` (both qubits flipped): e^(-i a/2) where neither qubit is set
/// and e^(i a/2) where exactly one is.
pub proof fn lemma_rzz_parity(m: usize, a: Angle, i: usize)
    requires
        popcount(m) == 2,
    ensures
        gate_terms(Gate::RZZ(m, a), i).len() == 1,
        gate_terms(Gate::RZZ(m, a), i)[0].0 == i,
        gate_terms(Gate::RZZ(m, a), i)[0].1 == gate_terms(Gate::RZZ(m, a), i ^ m)[0].1,
        i & m == 0 ==> gate_terms(Gate::RZZ(m, a), i)[0].1 == CoefView::Exp(a, true),
        popcount(i & m) == 1 ==> gate_terms(Gate::RZZ(m, a), i)[0].1 == CoefView::Exp(a, false),
{
    lemma_two_qubit_parity(i, m);
    crate::math::lemma_popcount_zero(i & m);
}

} // verus!
