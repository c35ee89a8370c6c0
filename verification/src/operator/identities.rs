//! Identities between gates whose coefficients are all exact powers of
//! w = e^(i pi/4) times powers of 1/sqrt(2): products of their matrices are
//! computed exactly, in the numbers (a + b w + c w^2 + d w^3) / 4 with integer
//! a, b, c, d.
use vstd::prelude::*;
use crate::math::popcount;
use crate::operator::amplitude::{
    entry, gate_terms, lemma_control_kept, lemma_dgr_acts_on, lemma_entry1, lemma_entry2,
    lemma_entry4, lemma_gate_local, lemma_h2_bits, odd, op_terms, turn, y_eighths,
    CoefView,
};
use crate::operator::atomic::lemma_gate_dgr_involutive;
use crate::operator::single::OpView;
use crate::operator::atomic::Gate;
use crate::operator::angle::Angle;

verus! {

/// The number (a + b w + c w^2 + d w^3) / 4.
pub struct Cyclo {
    pub a: int,
    pub b: int,
    pub c: int,
    pub d: int,
}

/// Zero.
pub open spec fn zero() -> Cyclo {
    Cyclo { a: 0, b: 0, c: 0, d: 0 }
}

/// The sum of two numbers.
pub open spec fn plus(x: Cyclo, y: Cyclo) -> Cyclo {
    Cyclo { a: x.a + y.a, b: x.b + y.b, c: x.c + y.c, d: x.d + y.d }
}

/// Half of a number.
pub open spec fn half(x: Cyclo) -> Cyclo {
    Cyclo { a: x.a / 2, b: x.b / 2, c: x.c / 2, d: x.d / 2 }
}

/// The number times w, using w^4 = -1.
pub open spec fn times_w(x: Cyclo) -> Cyclo {
    Cyclo { a: -x.d, b: x.a, c: x.b, d: x.c }
}

/// The number times w^k.
pub open spec fn times_w_pow(x: Cyclo, k: nat) -> Cyclo
    decreases k,
{
    if k == 0 {
        x
    } else {
        times_w(times_w_pow(x, (k - 1) as nat))
    }
}

/// w^k.
pub open spec fn w_pow(k: nat) -> Cyclo {
    let j = k % 8;
    if j == 0 {
        Cyclo { a: 4, b: 0, c: 0, d: 0 }
    } else if j == 1 {
        Cyclo { a: 0, b: 4, c: 0, d: 0 }
    } else if j == 2 {
        Cyclo { a: 0, b: 0, c: 4, d: 0 }
    } else if j == 3 {
        Cyclo { a: 0, b: 0, c: 0, d: 4 }
    } else if j == 4 {
        Cyclo { a: -4, b: 0, c: 0, d: 0 }
    } else if j == 5 {
        Cyclo { a: 0, b: -4, c: 0, d: 0 }
    } else if j == 6 {
        Cyclo { a: 0, b: 0, c: -4, d: 0 }
    } else {
        Cyclo { a: 0, b: 0, c: 0, d: -4 }
    }
}

/// A quarter of a number.
pub open spec fn quarter(x: Cyclo) -> Cyclo {
    Cyclo { a: x.a / 4, b: x.b / 4, c: x.c / 4, d: x.d / 4 }
}

/// w^k * (1/sqrt(2))^h, for h up to 4; 1/sqrt(2) is (w - w^3) / 2.
pub open spec fn root_value(k: nat, h: nat) -> Cyclo {
    if h == 0 {
        w_pow(k)
    } else if h == 1 {
        let p = half(w_pow(k + 1));
        let q = half(w_pow(k + 3));
        Cyclo { a: p.a - q.a, b: p.b - q.b, c: p.c - q.c, d: p.d - q.d }
    } else if h == 2 {
        half(w_pow(k))
    } else if h == 3 {
        let p = quarter(w_pow(k + 1));
        let q = quarter(w_pow(k + 3));
        Cyclo { a: p.a - q.a, b: p.b - q.b, c: p.c - q.c, d: p.d - q.d }
    } else {
        quarter(w_pow(k))
    }
}

/// The value of a matrix entry made of powers of w and of 1/sqrt(2).
pub open spec fn entry_value(e: Option<CoefView>) -> Cyclo {
    match e {
        Some(CoefView::Root(k, h)) => root_value(k, h),
        _ => zero(),
    }
}

/// The product of the coefficient `c` and the matrix entry `e`.
pub open spec fn times(c: CoefView, e: Option<CoefView>) -> Cyclo {
    match (c, e) {
        (CoefView::Root(k1, h1), Some(CoefView::Root(k2, h2))) => root_value(k1 + k2, h1 + h2),
        _ => zero(),
    }
}

/// The sum, over the terms `ts` of a row of a second gate, of each coefficient
/// times the entry at column `l` of the first gate in the row of the term's source.
pub open spec fn compose_row(ts: Seq<(usize, CoefView)>, first: Gate, l: usize) -> Cyclo
    decreases ts.len(),
{
    if ts.len() == 0 {
        zero()
    } else {
        plus(
            times(ts[0].1, entry(gate_terms(first, ts[0].0), l)),
            compose_row(ts.drop_first(), first, l),
        )
    }
}

/// The entry at row `i` and column `l` of the matrix of `first` followed by `second`.
pub open spec fn product_entry(first: Gate, second: Gate, i: usize, l: usize) -> Cyclo {
    compose_row(gate_terms(second, i), first, l)
}

/// The entry at row `i` and column `l` of the matrix of `g`.
pub open spec fn gate_entry(g: Gate, i: usize, l: usize) -> Cyclo {
    entry_value(entry(gate_terms(g, i), l))
}

proof fn lemma_w_pow_mod(k: nat)
    ensures
        w_pow(k) == w_pow(k % 8),
{
}

proof fn lemma_compose1(x: (usize, CoefView), first: Gate, l: usize)
    ensures
        compose_row(seq![x], first, l) == plus(times(x.1, entry(gate_terms(first, x.0), l)), zero()),
{
    reveal_with_fuel(compose_row, 2);
    assert(seq![x].drop_first() =~= Seq::<(usize, CoefView)>::empty());
}

proof fn lemma_compose2(x: (usize, CoefView), y: (usize, CoefView), first: Gate, l: usize)
    ensures
        compose_row(seq![x, y], first, l) == plus(
            times(x.1, entry(gate_terms(first, x.0), l)),
            plus(times(y.1, entry(gate_terms(first, y.0), l)), zero()),
        ),
{
    reveal_with_fuel(compose_row, 3);
    assert(seq![x, y].drop_first() =~= seq![y]);
    assert(seq![y].drop_first() =~= Seq::<(usize, CoefView)>::empty());
}

proof fn lemma_compose4(
    w: (usize, CoefView),
    x: (usize, CoefView),
    y: (usize, CoefView),
    z: (usize, CoefView),
    first: Gate,
    l: usize,
)
    ensures
        compose_row(seq![w, x, y, z], first, l) == plus(
            times(w.1, entry(gate_terms(first, w.0), l)),
            plus(
                times(x.1, entry(gate_terms(first, x.0), l)),
                plus(
                    times(y.1, entry(gate_terms(first, y.0), l)),
                    plus(times(z.1, entry(gate_terms(first, z.0), l)), zero()),
                ),
            ),
        ),
{
    reveal_with_fuel(compose_row, 5);
    assert(seq![w, x, y, z].drop_first() =~= seq![x, y, z]);
    assert(seq![x, y, z].drop_first() =~= seq![y, z]);
    assert(seq![y, z].drop_first() =~= seq![z]);
    assert(seq![z].drop_first() =~= Seq::<(usize, CoefView)>::empty());
}

/// S twice is Z: on the qubits of `m`, the square of S (or of its inverse) is Z.
pub proof fn lemma_s_squared(m: usize, d: bool, i: usize, l: usize)
    ensures
        product_entry(Gate::S(m, d), Gate::S(m, d), i, l) == gate_entry(Gate::Z(m), i, l),
{
    let p = popcount(i & m);
    let t = turn(2 * p, d);
    lemma_entry1((i, CoefView::Root(t, 0)), l);
    lemma_compose1((i, CoefView::Root(t, 0)), Gate::S(m, d), l);
    lemma_entry1((i, CoefView::Root(if odd(i & m) { 4nat } else { 0nat }, 0)), l);
    assert((t + t) % 8 == (if p % 2 == 1 { 4nat } else { 0nat }) % 8) by (nonlinear_arith)
        requires
            t == (if d { ((8 - (2 * p) % 8) % 8) as nat } else { (2 * p) % 8 }),
    ;
    lemma_w_pow_mod(t + t);
    lemma_w_pow_mod(if p % 2 == 1 { 4nat } else { 0nat });
}

/// T twice is S: on the qubits of `m`, the square of T (or of its inverse) is S
/// (or its inverse).
pub proof fn lemma_t_squared(m: usize, d: bool, i: usize, l: usize)
    ensures
        product_entry(Gate::T(m, d), Gate::T(m, d), i, l) == gate_entry(Gate::S(m, d), i, l),
{
    let p = popcount(i & m);
    let t = turn(p, d);
    let s = turn(2 * p, d);
    lemma_entry1((i, CoefView::Root(t, 0)), l);
    lemma_compose1((i, CoefView::Root(t, 0)), Gate::T(m, d), l);
    lemma_entry1((i, CoefView::Root(s, 0)), l);
    assert((t + t) % 8 == s % 8) by (nonlinear_arith)
        requires
            t == (if d { ((8 - p % 8) % 8) as nat } else { p % 8 }),
            s == (if d { ((8 - (2 * p) % 8) % 8) as nat } else { (2 * p) % 8 }),
    ;
    lemma_w_pow_mod(t + t);
    lemma_w_pow_mod(s);
}

proof fn lemma_xor_facts(i: usize, l: usize, m: usize)
    ensures
        (i ^ m) ^ m == i,
        (i ^ m == l) == (l ^ m == i),
        m != 0 ==> i ^ m != i,
{
    assert((i ^ m) ^ m == i && (i ^ m == l) == (l ^ m == i) && (m != 0 ==> i ^ m != i))
        by (bit_vector);
}

#[verifier::rlimit(40)]
proof fn lemma_pair_product(
    first: Gate,
    second: Gate,
    i: usize,
    j: usize,
    l: usize,
    a: nat,
    b: nat,
    c: nat,
    e: nat,
    a2: nat,
    b2: nat,
)
    requires
        i != j,
        gate_terms(second, i) == seq![(i, CoefView::Root(a2, 1)), (j, CoefView::Root(b2, 1))],
        gate_terms(first, i) == seq![(i, CoefView::Root(a, 1)), (j, CoefView::Root(b, 1))],
        gate_terms(first, j) == seq![(j, CoefView::Root(c, 1)), (i, CoefView::Root(e, 1))],
    ensures
        product_entry(first, second, i, l) == if l == i {
            plus(root_value(a2 + a, 2), plus(root_value(b2 + e, 2), zero()))
        } else if l == j {
            plus(root_value(a2 + b, 2), plus(root_value(b2 + c, 2), zero()))
        } else {
            zero()
        },
{
    let x = (i, CoefView::Root(a2, 1));
    let y = (j, CoefView::Root(b2, 1));
    lemma_compose2(x, y, first, l);
    lemma_entry2((i, CoefView::Root(a, 1)), (j, CoefView::Root(b, 1)), l);
    lemma_entry2((j, CoefView::Root(c, 1)), (i, CoefView::Root(e, 1)), l);
}

proof fn lemma_pair_square(
    g: Gate,
    i: usize,
    j: usize,
    l: usize,
    a: nat,
    b: nat,
    c: nat,
    e: nat,
)
    requires
        i != j,
        gate_terms(g, i) == seq![(i, CoefView::Root(a, 1)), (j, CoefView::Root(b, 1))],
        gate_terms(g, j) == seq![(j, CoefView::Root(c, 1)), (i, CoefView::Root(e, 1))],
    ensures
        product_entry(g, g, i, l) == if l == i {
            plus(root_value(a + a, 2), plus(root_value(b + e, 2), zero()))
        } else if l == j {
            plus(root_value(a + b, 2), plus(root_value(b + c, 2), zero()))
        } else {
            zero()
        },
{
    lemma_pair_product(g, g, i, j, l, a, b, c, e, a, b);
}

/// The square root of SWAP, twice, is SWAP (and so is its inverse, twice).
pub proof fn lemma_sqrt_swap_squared(m: usize, d: bool, i: usize, l: usize)
    requires
        popcount(m) == 2,
    ensures
        product_entry(Gate::SqrtSwap(m, d), Gate::SqrtSwap(m, d), i, l) == gate_entry(
            Gate::Swap(m),
            i,
            l,
        ),
{
    let g = Gate::SqrtSwap(m, d);
    let a: nat = if d { 7 } else { 1 };
    let b: nat = if d { 1 } else { 7 };
    crate::math::lemma_popcount_split(i, m);
    crate::math::lemma_popcount_zero(m);
    lemma_xor_facts(i, l, m);
    let j = i ^ m;
    lemma_xor_facts(j, l, m);
    assert(odd(j & m) == odd(i & m));
    if odd(i & m) {
        lemma_pair_square(g, i, j, l, a, b, a, b);
        lemma_entry1((j, CoefView::Root(0, 0)), l);
        lemma_w_pow_mod(a + b);
        lemma_w_pow_mod(a + a);
        lemma_w_pow_mod(b + b);
    } else {
        let x = (i, CoefView::Root(0, 0));
        lemma_compose1(x, g, l);
        lemma_entry1(x, l);
    }
}

/// The square root of iSWAP, twice, is iSWAP (and its inverse, twice, is the
/// inverse of iSWAP).
pub proof fn lemma_sqrt_i_swap_squared(m: usize, d: bool, i: usize, l: usize)
    requires
        popcount(m) == 2,
    ensures
        product_entry(Gate::SqrtISwap(m, d), Gate::SqrtISwap(m, d), i, l) == gate_entry(
            Gate::ISwap(m, d),
            i,
            l,
        ),
{
    let g = Gate::SqrtISwap(m, d);
    let e: nat = if d { 6 } else { 2 };
    crate::math::lemma_popcount_split(i, m);
    crate::math::lemma_popcount_zero(m);
    lemma_xor_facts(i, l, m);
    let j = i ^ m;
    lemma_xor_facts(j, l, m);
    assert(odd(j & m) == odd(i & m));
    if odd(i & m) {
        lemma_pair_square(g, i, j, l, 0, e, 0, e);
        lemma_entry1((j, CoefView::Root(e, 0)), l);
        lemma_w_pow_mod(e + e);
        lemma_w_pow_mod(e);
    } else {
        let x = (i, CoefView::Root(0, 0));
        lemma_compose1(x, g, l);
        lemma_entry1(x, l);
    }
}

/// The Hadamard gate on one qubit, twice, is the identity.
pub proof fn lemma_h_squared(m: usize, i: usize, l: usize)
    requires
        popcount(m) == 1,
    ensures
        product_entry(Gate::H1(m), Gate::H1(m), i, l) == gate_entry(Gate::Id, i, l),
{
    let g = Gate::H1(m);
    let j = i ^ m;
    crate::math::lemma_one_qubit_flip(i, m);
    lemma_xor_facts(i, l, m);
    let a: nat = if i & m != 0 { 4 } else { 0 };
    let c: nat = if j & m != 0 { 4 } else { 0 };
    assert(j ^ m == i);
    lemma_pair_square(g, i, j, l, a, 0, c, 0);
    lemma_entry1((i, CoefView::Root(0, 0)), l);
    lemma_w_pow_mod(a + a);
    lemma_w_pow_mod(c);
}

proof fn lemma_times_w_pow(k: nat, j: nat)
    ensures
        times_w_pow(w_pow(k), j) == w_pow(k + j),
    decreases j,
{
    if j > 0 {
        lemma_times_w_pow(k, (j - 1) as nat);
        let n = k + j - 1;
        assert((n + 1) % 8 == if n % 8 == 7 { 0 } else { n % 8 + 1 });
    }
}

proof fn lemma_times_w_pow_zero(j: nat)
    ensures
        times_w_pow(zero(), j) == zero(),
    decreases j,
{
    if j > 0 {
        lemma_times_w_pow_zero((j - 1) as nat);
    }
}

/// Y is i^n times X after Z, on the n qubits of `m`: on one qubit, Y = iXZ.
pub proof fn lemma_y_is_i_x_z(m: usize, i: usize, l: usize)
    ensures
        gate_entry(Gate::Y(m), i, l) == times_w_pow(
            product_entry(Gate::Z(m), Gate::X(m), i, l),
            2 * popcount(m),
        ),
{
    let j = i ^ m;
    let c = popcount(m);
    let p = popcount(i & m);
    crate::math::lemma_popcount_split(i, m);
    let zk: nat = if odd(j & m) { 4 } else { 0 };
    lemma_entry1((j, CoefView::Root(y_eighths(m, i), 0)), l);
    lemma_compose1((j, CoefView::Root(0, 0)), Gate::Z(m), l);
    lemma_entry1((j, CoefView::Root(zk, 0)), l);
    lemma_times_w_pow_zero(2 * c);
    lemma_times_w_pow(zk, 2 * c);
    let q = popcount(j & m);
    assert(q + p == c);
    assert(y_eighths(m, i) % 8 == (zk + 2 * c) % 8) by (nonlinear_arith)
        requires
            q + p == c,
            zk == (if q % 2 == 1 { 4nat } else { 0nat }),
            y_eighths(m, i) == (2 * (((4 - c % 4) + 2 + (if p % 2 == 1 { 0int } else { 2int }))
                % 4)) as nat,
    ;
    lemma_w_pow_mod(y_eighths(m, i));
    lemma_w_pow_mod(zk + 2 * c);
}

/// Whether every coefficient of `g` is a power of w times a power of 1/sqrt(2),
/// so that products with its matrix are computed here exactly.
pub open spec fn exact(g: Gate) -> bool {
    match g {
        Gate::RX(..) | Gate::RXX(..) | Gate::RY(..) | Gate::RYY(..) => false,
        Gate::RZ(..) | Gate::RZZ(..) | Gate::Phi(_) => false,
        _ => true,
    }
}

proof fn lemma_one_term_product(first: Gate, second: Gate, i: usize, l: usize, j: usize, k1: nat, k2: nat)
    requires
        gate_terms(second, i) == seq![(j, CoefView::Root(k1, 0))],
        gate_terms(first, j) == seq![(i, CoefView::Root(k2, 0))],
        (k1 + k2) % 8 == 0,
    ensures
        product_entry(first, second, i, l) == gate_entry(Gate::Id, i, l),
{
    lemma_compose1((j, CoefView::Root(k1, 0)), first, l);
    lemma_entry1((i, CoefView::Root(k2, 0)), l);
    lemma_entry1((i, CoefView::Root(0, 0)), l);
    lemma_w_pow_mod(k1 + k2);
}

proof fn lemma_two_qubit_flip(i: usize, m: usize)
    requires
        popcount(m) == 2,
    ensures
        odd((i ^ m) & m) == odd(i & m),
        m != 0,
{
    crate::math::lemma_popcount_split(i, m);
    crate::math::lemma_popcount_zero(m);
}

proof fn lemma_y_twice(m: usize, i: usize)
    ensures
        (y_eighths(m, i) + y_eighths(m, i ^ m)) % 8 == 0,
{
    crate::math::lemma_popcount_split(i, m);
    let c = popcount(m);
    let p = popcount(i & m);
    let p2 = popcount((i ^ m) & m);
    let e1: int = if p % 2 == 1 { 0 } else { 2 };
    let e2: int = if p2 % 2 == 1 { 0 } else { 2 };
    let q1 = ((4 - c % 4) + 2 + e1) % 4;
    let q2 = ((4 - c % 4) + 2 + e2) % 4;
    assert((q1 + q2) % 4 == 0) by (nonlinear_arith)
        requires
            p2 + p == c,
            e1 == (if p % 2 == 1 { 0int } else { 2int }),
            e2 == (if p2 % 2 == 1 { 0int } else { 2int }),
            q1 == ((4 - c % 4) + 2 + e1) % 4,
            q2 == ((4 - c % 4) + 2 + e2) % 4,
    ;
    assert(y_eighths(m, i) == 2 * q1);
    assert(y_eighths(m, i ^ m) == 2 * q2);
}

#[verifier::rlimit(50)]
proof fn lemma_undo_pauli(g: Gate, i: usize, l: usize)
    requires
        g is Id || g is X || g is Y || g is Z,
    ensures
        product_entry(g, g.dgr(), i, l) == gate_entry(Gate::Id, i, l),
{
    match g {
        Gate::X(m) => {
            lemma_xor_facts(i, l, m);
            lemma_one_term_product(g, g, i, l, i ^ m, 0, 0);
        },
        Gate::Y(m) => {
            lemma_xor_facts(i, l, m);
            lemma_y_twice(m, i);
            lemma_one_term_product(g, g, i, l, i ^ m, y_eighths(m, i), y_eighths(m, i ^ m));
        },
        Gate::Z(m) => {
            let z: nat = if odd(i & m) { 4 } else { 0 };
            lemma_one_term_product(g, g, i, l, i, z, z);
        },
        _ => lemma_one_term_product(g, g, i, l, i, 0, 0),
    }
}

proof fn lemma_undo_phase(g: Gate, i: usize, l: usize)
    requires
        g is S || g is T,
    ensures
        product_entry(g, g.dgr(), i, l) == gate_entry(Gate::Id, i, l),
{
    match g {
        Gate::S(m, d) => {
            let x = 2 * popcount(i & m);
            assert((turn(x, !d) + turn(x, d)) % 8 == 0);
            lemma_one_term_product(g, g.dgr(), i, l, i, turn(x, !d), turn(x, d));
        },
        Gate::T(m, d) => {
            let x = popcount(i & m);
            assert((turn(x, !d) + turn(x, d)) % 8 == 0);
            lemma_one_term_product(g, g.dgr(), i, l, i, turn(x, !d), turn(x, d));
        },
        _ => {},
    }
}

#[verifier::rlimit(50)]
proof fn lemma_undo_swap(g: Gate, i: usize, l: usize)
    requires
        g.is_valid(),
        g is Swap || g is ISwap,
    ensures
        product_entry(g, g.dgr(), i, l) == gate_entry(Gate::Id, i, l),
{
    let m = g.acts_on();
    lemma_two_qubit_flip(i, m);
    lemma_xor_facts(i, l, m);
    if !odd(i & m) {
        lemma_one_term_product(g, g.dgr(), i, l, i, 0, 0);
    } else {
        match g {
            Gate::ISwap(_, d) => {
                let e1: nat = if !d { 6 } else { 2 };
                let e2: nat = if d { 6 } else { 2 };
                lemma_one_term_product(g, g.dgr(), i, l, i ^ m, e1, e2);
            },
            _ => lemma_one_term_product(g, g, i, l, i ^ m, 0, 0),
        }
    }
}

#[verifier::rlimit(50)]
proof fn lemma_undo_sqrt_swap(m: usize, d: bool, i: usize, l: usize)
    requires
        popcount(m) == 2,
    ensures
        product_entry(Gate::SqrtSwap(m, d), Gate::SqrtSwap(m, !d), i, l) == gate_entry(
            Gate::Id,
            i,
            l,
        ),
{
    let g = Gate::SqrtSwap(m, d);
    lemma_two_qubit_flip(i, m);
    lemma_xor_facts(i, l, m);
    if odd(i & m) {
        let a: nat = if d { 7 } else { 1 };
        let b: nat = if d { 1 } else { 7 };
        lemma_pair_product(g, Gate::SqrtSwap(m, !d), i, i ^ m, l, a, b, a, b, b, a);
        lemma_entry1((i, CoefView::Root(0, 0)), l);
        lemma_w_pow_mod(a + b);
        lemma_w_pow_mod(a + a);
        lemma_w_pow_mod(b + b);
    } else {
        lemma_one_term_product(g, Gate::SqrtSwap(m, !d), i, l, i, 0, 0);
    }
}

#[verifier::rlimit(50)]
proof fn lemma_undo_sqrt_i_swap(m: usize, d: bool, i: usize, l: usize)
    requires
        popcount(m) == 2,
    ensures
        product_entry(Gate::SqrtISwap(m, d), Gate::SqrtISwap(m, !d), i, l) == gate_entry(
            Gate::Id,
            i,
            l,
        ),
{
    let g = Gate::SqrtISwap(m, d);
    lemma_two_qubit_flip(i, m);
    lemma_xor_facts(i, l, m);
    if odd(i & m) {
        let e1: nat = if !d { 6 } else { 2 };
        let e2: nat = if d { 6 } else { 2 };
        lemma_pair_product(g, Gate::SqrtISwap(m, !d), i, i ^ m, l, 0, e2, 0, e2, 0, e1);
        lemma_entry1((i, CoefView::Root(0, 0)), l);
        lemma_w_pow_mod(e1 + e2);
        lemma_w_pow_mod(e1);
        lemma_w_pow_mod(e2);
    } else {
        lemma_one_term_product(g, Gate::SqrtISwap(m, !d), i, l, i, 0, 0);
    }
}

#[verifier::rlimit(60)]
proof fn lemma_undo_h2(a: usize, b: usize, i: usize, l: usize)
    requires
        popcount(a) == 1,
        popcount(b) == 1,
        popcount(a | b) == 2,
    ensures
        product_entry(Gate::H2(a, b), Gate::H2(a, b), i, l) == gate_entry(Gate::Id, i, l),
{
    let g = Gate::H2(a, b);
    let ab = a | b;
    crate::math::lemma_two_single_qubits(a, b);
    crate::math::lemma_one_qubit_flip(i, a);
    crate::math::lemma_one_qubit_flip(i, b);
    lemma_h2_bits(a, b, i);
    lemma_h2_bits(a, b, i ^ a);
    lemma_h2_bits(a, b, i ^ b);
    lemma_h2_bits(a, b, i ^ ab);
    let sa: nat = if i & a != 0 { 4 } else { 0 };
    let sb: nat = if i & b != 0 { 4 } else { 0 };
    let fa: nat = if i & a != 0 { 0 } else { 4 };
    let fb: nat = if i & b != 0 { 0 } else { 4 };
    assert(gate_terms(g, i) == seq![
        (i, CoefView::Root((sa + sb) % 8, 2)),
        (i ^ a, CoefView::Root(sb, 2)),
        (i ^ b, CoefView::Root(sa, 2)),
        (i ^ ab, CoefView::Root(0, 2)),
    ]);
    assert(gate_terms(g, i ^ a) == seq![
        (i ^ a, CoefView::Root((fa + sb) % 8, 2)),
        (i, CoefView::Root(sb, 2)),
        (i ^ ab, CoefView::Root(fa, 2)),
        (i ^ b, CoefView::Root(0, 2)),
    ]);
    assert(gate_terms(g, i ^ b) == seq![
        (i ^ b, CoefView::Root((sa + fb) % 8, 2)),
        (i ^ ab, CoefView::Root(fb, 2)),
        (i, CoefView::Root(sa, 2)),
        (i ^ a, CoefView::Root(0, 2)),
    ]);
    assert(gate_terms(g, i ^ ab) == seq![
        (i ^ ab, CoefView::Root((fa + fb) % 8, 2)),
        (i ^ b, CoefView::Root(fb, 2)),
        (i ^ a, CoefView::Root(fa, 2)),
        (i, CoefView::Root(0, 2)),
    ]);
    lemma_compose4(
        (i, CoefView::Root((sa + sb) % 8, 2)),
        (i ^ a, CoefView::Root(sb, 2)),
        (i ^ b, CoefView::Root(sa, 2)),
        (i ^ ab, CoefView::Root(0, 2)),
        g,
        l,
    );
    lemma_entry4(
        (i, CoefView::Root((sa + sb) % 8, 2)),
        (i ^ a, CoefView::Root(sb, 2)),
        (i ^ b, CoefView::Root(sa, 2)),
        (i ^ ab, CoefView::Root(0, 2)),
        l,
    );
    lemma_entry4(
        (i ^ a, CoefView::Root((fa + sb) % 8, 2)),
        (i, CoefView::Root(sb, 2)),
        (i ^ ab, CoefView::Root(fa, 2)),
        (i ^ b, CoefView::Root(0, 2)),
        l,
    );
    lemma_entry4(
        (i ^ b, CoefView::Root((sa + fb) % 8, 2)),
        (i ^ ab, CoefView::Root(fb, 2)),
        (i, CoefView::Root(sa, 2)),
        (i ^ a, CoefView::Root(0, 2)),
        l,
    );
    lemma_entry4(
        (i ^ ab, CoefView::Root((fa + fb) % 8, 2)),
        (i ^ b, CoefView::Root(fb, 2)),
        (i ^ a, CoefView::Root(fa, 2)),
        (i, CoefView::Root(0, 2)),
        l,
    );
    lemma_entry1((i, CoefView::Root(0, 0)), l);
}

proof fn lemma_dgr_after(g: Gate, i: usize, l: usize)
    requires
        g.is_valid(),
        exact(g),
    ensures
        product_entry(g, g.dgr(), i, l) == gate_entry(Gate::Id, i, l),
{
    match g {
        Gate::H1(m) => lemma_h_squared(m, i, l),
        Gate::H2(a, b) => lemma_undo_h2(a, b, i, l),
        Gate::S(..) | Gate::T(..) => lemma_undo_phase(g, i, l),
        Gate::Swap(..) | Gate::ISwap(..) => lemma_undo_swap(g, i, l),
        Gate::SqrtSwap(m, d) => lemma_undo_sqrt_swap(m, d, i, l),
        Gate::SqrtISwap(m, d) => lemma_undo_sqrt_i_swap(m, d, i, l),
        _ => lemma_undo_pauli(g, i, l),
    }
}

/// Inverting a gate undoes it: for every valid gate `g` whose coefficients are
/// exact, the matrix of `g` times that of its inverse, in either order, holds
/// 1 on the diagonal and 0 elsewhere.
pub proof fn lemma_dgr_undoes(g: Gate, i: usize, l: usize)
    requires
        g.is_valid(),
        exact(g),
    ensures
        product_entry(g, g.dgr(), i, l) == gate_entry(Gate::Id, i, l),
        product_entry(g.dgr(), g, i, l) == gate_entry(Gate::Id, i, l),
{
    lemma_dgr_acts_on(g);
    lemma_gate_dgr_involutive(g);
    lemma_dgr_after(g, i, l);
    lemma_dgr_after(g.dgr(), i, l);
}

/// The sum, over the terms `ts` of a row of a second operation, of each
/// coefficient times the entry at column `l` of the operation `first` in the
/// row of the term's source.
pub open spec fn compose_op_row(ts: Seq<(usize, CoefView)>, first: OpView, l: usize) -> Cyclo
    decreases ts.len(),
{
    if ts.len() == 0 {
        zero()
    } else {
        plus(
            times(ts[0].1, entry(op_terms(first, ts[0].0), l)),
            compose_op_row(ts.drop_first(), first, l),
        )
    }
}

/// The entry at row `i` and column `l` of the matrix of the operation `first`
/// followed by the operation `second`.
pub open spec fn op_product_entry(first: OpView, second: OpView, i: usize, l: usize) -> Cyclo {
    compose_op_row(op_terms(second, i), first, l)
}

proof fn lemma_compose_controlled(ts: Seq<(usize, CoefView)>, op: OpView, l: usize)
    requires
        forall|k: int| 0 <= k < ts.len() ==> !(#[trigger] ts[k]).0 & op.ctrl == 0,
    ensures
        compose_op_row(ts, op, l) == compose_row(ts, op.gate, l),
    decreases ts.len(),
{
    if ts.len() > 0 {
        assert forall|k: int| 0 <= k < ts.drop_first().len() implies !(
        #[trigger] ts.drop_first()[k]).0 & op.ctrl == 0 by {
            assert(ts.drop_first()[k] == ts[k + 1]);
        }
        lemma_compose_controlled(ts.drop_first(), op, l);
        assert(!ts[0].0 & op.ctrl == 0);
    }
}

proof fn lemma_op_dgr_after(op: OpView, i: usize, l: usize)
    requires
        op.wf(),
        op.gate.is_valid(),
        exact(op.gate),
    ensures
        op_product_entry(op, op.dgr(), i, l) == gate_entry(Gate::Id, i, l),
{
    let g = op.gate;
    let a = op.act;
    let c = op.ctrl;
    lemma_dgr_acts_on(g);
    lemma_entry1((i, CoefView::Root(0, 0)), l);
    if !i & c != 0 {
        let x = (i, CoefView::Root(0, 0));
        reveal_with_fuel(compose_op_row, 2);
        assert(seq![x].drop_first() =~= Seq::<(usize, CoefView)>::empty());
    } else {
        let ts = gate_terms(g.dgr(), i);
        lemma_gate_local(g.dgr(), i);
        assert forall|k: int| 0 <= k < ts.len() implies !(#[trigger] ts[k]).0 & c == 0 by {
            lemma_control_kept(ts[k].0, i, a, c);
        }
        lemma_compose_controlled(ts, op, l);
        lemma_dgr_after(g, i, l);
    }
}

/// Inverting an operation undoes it, controls included: for every well-formed
/// operation whose gate is valid and has exact coefficients, the matrix of the
/// operation times that of its inverse, in either order, holds 1 on the
/// diagonal and 0 elsewhere.
pub proof fn lemma_op_dgr_undoes(op: OpView, i: usize, l: usize)
    requires
        op.wf(),
        op.gate.is_valid(),
        exact(op.gate),
    ensures
        op_product_entry(op, op.dgr(), i, l) == gate_entry(Gate::Id, i, l),
        op_product_entry(op.dgr(), op, i, l) == gate_entry(Gate::Id, i, l),
{
    lemma_dgr_acts_on(op.gate);
    lemma_gate_dgr_involutive(op.gate);
    lemma_op_dgr_after(op, i, l);
    lemma_op_dgr_after(op.dgr(), i, l);
    assert(op.dgr().dgr() == op);
}

/// The matrices of the swap gates, as documented. On the two basis states with
/// exactly one of their two qubits set: SWAP exchanges the amplitudes; iSWAP
/// exchanges them times i (-i for its inverse); sqrt(SWAP) has (1+i)/2 on the
/// diagonal and (1-i)/2 off it (the conjugates for its inverse); sqrt(iSWAP)
/// has +1/sqrt(2) on the diagonal and i/sqrt(2) off it (-i/sqrt(2) for its
/// inverse). Here w^k r^h stands for e^(i k pi/4) / sqrt(2)^h. On every other
/// basis state the four leave the amplitude as it is.
#[verifier::rlimit(60)]
pub proof fn lemma_swap_matrices(m: usize, d: bool, i: usize, l: usize)
    requires
        popcount(m) == 2,
    ensures
        popcount(i & m) == 1 ==> {
            &&& gate_entry(Gate::Swap(m), i, i) == zero()
            &&& gate_entry(Gate::Swap(m), i, i ^ m) == root_value(0, 0)
            &&& gate_entry(Gate::ISwap(m, d), i, i) == zero()
            &&& gate_entry(Gate::ISwap(m, d), i, i ^ m) == root_value(if d { 6 } else { 2 }, 0)
            &&& gate_entry(Gate::SqrtSwap(m, d), i, i) == root_value(if d { 7 } else { 1 }, 1)
            &&& gate_entry(Gate::SqrtSwap(m, d), i, i ^ m) == root_value(if d { 1 } else { 7 }, 1)
            &&& gate_entry(Gate::SqrtISwap(m, d), i, i) == root_value(0, 1)
            &&& gate_entry(Gate::SqrtISwap(m, d), i, i ^ m) == root_value(if d { 6 } else { 2 }, 1)
        },
        popcount(i & m) != 1 ==> {
            &&& gate_entry(Gate::Swap(m), i, l) == gate_entry(Gate::Id, i, l)
            &&& gate_entry(Gate::ISwap(m, d), i, l) == gate_entry(Gate::Id, i, l)
            &&& gate_entry(Gate::SqrtSwap(m, d), i, l) == gate_entry(Gate::Id, i, l)
            &&& gate_entry(Gate::SqrtISwap(m, d), i, l) == gate_entry(Gate::Id, i, l)
        },
{
    crate::math::lemma_popcount_split(i, m);
    crate::math::lemma_popcount_zero(m);
    lemma_xor_facts(i, i, m);
    let j = i ^ m;
    lemma_entry1((i, CoefView::Root(0, 0)), l);
    if odd(i & m) {
        lemma_entry1((j, CoefView::Root(0, 0)), i);
        lemma_entry1((j, CoefView::Root(0, 0)), j);
        lemma_entry1((j, CoefView::Root(if d { 6nat } else { 2nat }, 0)), i);
        lemma_entry1((j, CoefView::Root(if d { 6nat } else { 2nat }, 0)), j);
        lemma_entry2(
            (i, CoefView::Root(if d { 7nat } else { 1nat }, 1)),
            (j, CoefView::Root(if d { 1nat } else { 7nat }, 1)),
            i,
        );
        lemma_entry2(
            (i, CoefView::Root(if d { 7nat } else { 1nat }, 1)),
            (j, CoefView::Root(if d { 1nat } else { 7nat }, 1)),
            j,
        );
        lemma_entry2((i, CoefView::Root(0, 1)), (j, CoefView::Root(if d { 6nat } else { 2nat }, 1)), i);
        lemma_entry2((i, CoefView::Root(0, 1)), (j, CoefView::Root(if d { 6nat } else { 2nat }, 1)), j);
    }
}

#[verifier::rlimit(60)]
proof fn lemma_exact_one_qubit(b: usize, d: bool, a: Angle, i0: usize)
    requires
        popcount(b) == 1,
        i0 & b == 0,
    ensures
        ({
            let i1 = i0 ^ b;
            &&& gate_entry(Gate::X(b), i0, i0) == zero() && gate_entry(Gate::X(b), i0, i1)
                == root_value(0, 0) && gate_entry(Gate::X(b), i1, i0) == root_value(0, 0)
                && gate_entry(Gate::X(b), i1, i1) == zero()
            &&& gate_entry(Gate::Y(b), i0, i0) == zero() && gate_entry(Gate::Y(b), i0, i1)
                == root_value(6, 0) && gate_entry(Gate::Y(b), i1, i0) == root_value(2, 0)
                && gate_entry(Gate::Y(b), i1, i1) == zero()
            &&& gate_entry(Gate::Z(b), i0, i0) == root_value(0, 0) && gate_entry(Gate::Z(b), i0, i1)
                == zero() && gate_entry(Gate::Z(b), i1, i1) == root_value(4, 0)
            &&& gate_entry(Gate::S(b, d), i0, i0) == root_value(0, 0) && gate_entry(Gate::S(b, d), i1, i1)
                == root_value(if d { 6 } else { 2 }, 0) && gate_entry(Gate::S(b, d), i1, i0) == zero()
            &&& gate_entry(Gate::T(b, d), i0, i0) == root_value(0, 0) && gate_entry(Gate::T(b, d), i1, i1)
                == root_value(if d { 7 } else { 1 }, 0) && gate_entry(Gate::T(b, d), i1, i0) == zero()
            &&& gate_entry(Gate::H1(b), i0, i0) == root_value(0, 1) && gate_entry(Gate::H1(b), i0, i1)
                == root_value(0, 1) && gate_entry(Gate::H1(b), i1, i0) == root_value(0, 1)
                && gate_entry(Gate::H1(b), i1, i1) == root_value(4, 1)
        }),
{
    let i1 = i0 ^ b;
    crate::math::lemma_popcount_split(i0, b);
    crate::math::lemma_popcount_zero(b);
    crate::math::lemma_popcount_zero(i0 & b);
    crate::math::lemma_one_qubit_flip(i0, b);
    lemma_xor_facts(i0, i0, b);
    lemma_xor_facts(i1, i1, b);
    assert(popcount(i1 & b) == 1);
    let r0 = CoefView::Root(0, 0);
    lemma_entry1((i1, r0), i0);
    lemma_entry1((i1, r0), i1);
    lemma_entry1((i0, r0), i0);
    lemma_entry1((i0, r0), i1);
    lemma_entry1((i1, CoefView::Root(y_eighths(b, i0), 0)), i1);
    lemma_entry1((i1, CoefView::Root(y_eighths(b, i0), 0)), i0);
    lemma_entry1((i0, CoefView::Root(y_eighths(b, i1), 0)), i0);
    lemma_entry1((i0, CoefView::Root(y_eighths(b, i1), 0)), i1);
    lemma_entry1((i1, CoefView::Root(4, 0)), i1);
    lemma_entry1((i1, CoefView::Root(4, 0)), i0);
    lemma_entry1((i1, CoefView::Root(turn(2, d), 0)), i1);
    lemma_entry1((i1, CoefView::Root(turn(2, d), 0)), i0);
    lemma_entry1((i1, CoefView::Root(turn(1, d), 0)), i1);
    lemma_entry1((i1, CoefView::Root(turn(1, d), 0)), i0);
    lemma_entry1((i0, CoefView::Root(turn(0, d), 0)), i0);
    lemma_entry2((i0, CoefView::Root(0, 1)), (i1, CoefView::Root(0, 1)), i0);
    lemma_entry2((i0, CoefView::Root(0, 1)), (i1, CoefView::Root(0, 1)), i1);
    lemma_entry2((i1, CoefView::Root(4, 1)), (i0, CoefView::Root(0, 1)), i0);
    lemma_entry2((i1, CoefView::Root(4, 1)), (i0, CoefView::Root(0, 1)), i1);
    assert(y_eighths(b, i0) == 6);
    assert(y_eighths(b, i1) == 2);
}

#[verifier::rlimit(60)]
proof fn lemma_rotation_one_qubit(b: usize, d: bool, a: Angle, i0: usize)
    requires
        popcount(b) == 1,
        i0 & b == 0,
    ensures
        ({
            let i1 = i0 ^ b;
            &&& entry(gate_terms(Gate::RX(b, a), i0), i0) == Some(CoefView::Cos(a)) && entry(
                gate_terms(Gate::RX(b, a), i0),
                i1,
            ) == Some(CoefView::Sin(a, 6)) && entry(gate_terms(Gate::RX(b, a), i1), i0) == Some(
                CoefView::Sin(a, 6),
            ) && entry(gate_terms(Gate::RX(b, a), i1), i1) == Some(CoefView::Cos(a))
            &&& entry(gate_terms(Gate::RY(b, a), i0), i0) == Some(CoefView::Cos(a)) && entry(
                gate_terms(Gate::RY(b, a), i0),
                i1,
            ) == Some(CoefView::Sin(a, 4)) && entry(gate_terms(Gate::RY(b, a), i1), i0) == Some(
                CoefView::Sin(a, 0),
            ) && entry(gate_terms(Gate::RY(b, a), i1), i1) == Some(CoefView::Cos(a))
            &&& entry(gate_terms(Gate::RZ(b, a), i0), i0) == Some(CoefView::Exp(a, true)) && entry(
                gate_terms(Gate::RZ(b, a), i1),
                i1,
            ) == Some(CoefView::Exp(a, false)) && entry(gate_terms(Gate::RZ(b, a), i0), i1) is None
        }),
{
    let i1 = i0 ^ b;
    crate::math::lemma_popcount_split(i0, b);
    crate::math::lemma_popcount_zero(b);
    crate::math::lemma_popcount_zero(i0 & b);
    crate::math::lemma_one_qubit_flip(i0, b);
    lemma_xor_facts(i0, i0, b);
    lemma_xor_facts(i1, i1, b);
    assert(popcount(i1 & b) == 1);
    lemma_entry2((i0, CoefView::Cos(a)), (i1, CoefView::Sin(a, 6)), i0);
    lemma_entry2((i0, CoefView::Cos(a)), (i1, CoefView::Sin(a, 6)), i1);
    lemma_entry2((i1, CoefView::Cos(a)), (i0, CoefView::Sin(a, 6)), i0);
    lemma_entry2((i1, CoefView::Cos(a)), (i0, CoefView::Sin(a, 6)), i1);
    lemma_entry2((i0, CoefView::Cos(a)), (i1, CoefView::Sin(a, 4)), i0);
    lemma_entry2((i0, CoefView::Cos(a)), (i1, CoefView::Sin(a, 4)), i1);
    lemma_entry2((i1, CoefView::Cos(a)), (i0, CoefView::Sin(a, 0)), i0);
    lemma_entry2((i1, CoefView::Cos(a)), (i0, CoefView::Sin(a, 0)), i1);
    lemma_entry1((i0, CoefView::Exp(a, true)), i0);
    lemma_entry1((i0, CoefView::Exp(a, true)), i1);
    lemma_entry1((i1, CoefView::Exp(a, false)), i1);
}

/// The documented matrices of the one-qubit gates, on the qubit `b`: row and
/// column `i0` is the basis state with the qubit clear, `i0 ^ b` the one with it
/// set. X = [[0, 1], [1, 0]], Y = [[0, -i], [i, 0]], Z = diag(1, -1),
/// S = diag(1, i), T = diag(1, (1+i)/sqrt(2)) (their inverses conjugated),
/// H = [[1, 1], [1, -1]] / sqrt(2); RX(a) = [[cos, -i sin], [-i sin, cos]],
/// RY(a) = [[cos, -sin], [sin, cos]], RZ(a) = diag(e^(-i a/2), e^(i a/2)), of
/// a/2. Here w^k r^h stands for e^(i k pi/4) / sqrt(2)^h.
pub proof fn lemma_one_qubit_matrices(b: usize, d: bool, a: Angle, i0: usize)
    requires
        popcount(b) == 1,
        i0 & b == 0,
    ensures
        ({
            let i1 = i0 ^ b;
            &&& gate_entry(Gate::X(b), i0, i0) == zero() && gate_entry(Gate::X(b), i0, i1)
                == root_value(0, 0) && gate_entry(Gate::X(b), i1, i0) == root_value(0, 0)
                && gate_entry(Gate::X(b), i1, i1) == zero()
            &&& gate_entry(Gate::Y(b), i0, i0) == zero() && gate_entry(Gate::Y(b), i0, i1)
                == root_value(6, 0) && gate_entry(Gate::Y(b), i1, i0) == root_value(2, 0)
                && gate_entry(Gate::Y(b), i1, i1) == zero()
            &&& gate_entry(Gate::Z(b), i0, i0) == root_value(0, 0) && gate_entry(Gate::Z(b), i0, i1)
                == zero() && gate_entry(Gate::Z(b), i1, i1) == root_value(4, 0)
            &&& gate_entry(Gate::S(b, d), i0, i0) == root_value(0, 0) && gate_entry(Gate::S(b, d), i1, i1)
                == root_value(if d { 6 } else { 2 }, 0) && gate_entry(Gate::S(b, d), i1, i0) == zero()
            &&& gate_entry(Gate::T(b, d), i0, i0) == root_value(0, 0) && gate_entry(Gate::T(b, d), i1, i1)
                == root_value(if d { 7 } else { 1 }, 0) && gate_entry(Gate::T(b, d), i1, i0) == zero()
            &&& gate_entry(Gate::H1(b), i0, i0) == root_value(0, 1) && gate_entry(Gate::H1(b), i0, i1)
                == root_value(0, 1) && gate_entry(Gate::H1(b), i1, i0) == root_value(0, 1)
                && gate_entry(Gate::H1(b), i1, i1) == root_value(4, 1)
            &&& entry(gate_terms(Gate::RX(b, a), i0), i0) == Some(CoefView::Cos(a)) && entry(
                gate_terms(Gate::RX(b, a), i0),
                i1,
            ) == Some(CoefView::Sin(a, 6)) && entry(gate_terms(Gate::RX(b, a), i1), i0) == Some(
                CoefView::Sin(a, 6),
            ) && entry(gate_terms(Gate::RX(b, a), i1), i1) == Some(CoefView::Cos(a))
            &&& entry(gate_terms(Gate::RY(b, a), i0), i0) == Some(CoefView::Cos(a)) && entry(
                gate_terms(Gate::RY(b, a), i0),
                i1,
            ) == Some(CoefView::Sin(a, 4)) && entry(gate_terms(Gate::RY(b, a), i1), i0) == Some(
                CoefView::Sin(a, 0),
            ) && entry(gate_terms(Gate::RY(b, a), i1), i1) == Some(CoefView::Cos(a))
            &&& entry(gate_terms(Gate::RZ(b, a), i0), i0) == Some(CoefView::Exp(a, true)) && entry(
                gate_terms(Gate::RZ(b, a), i1),
                i1,
            ) == Some(CoefView::Exp(a, false)) && entry(gate_terms(Gate::RZ(b, a), i0), i1) is None
        }),
{
    lemma_exact_one_qubit(b, d, a, i0);
    lemma_rotation_one_qubit(b, d, a, i0);
}

/// The documented matrices of the Ising couplings RXX and RYY on the two qubits
/// of `m`, of a/2: cos on the diagonal, and on the anti-diagonal -i sin for RXX
/// everywhere, and for RYY +i sin between the states with neither and with both
/// qubits set (`i0` and `i0 ^ m`) and -i sin between the two states with one of
/// them set (`j` and `j ^ m`).
#[verifier::rlimit(60)]
pub proof fn lemma_two_qubit_rotations(m: usize, a: Angle, i0: usize, j: usize)
    requires
        popcount(m) == 2,
        i0 & m == 0,
        popcount(j & m) == 1,
    ensures
        ({
            let i3 = i0 ^ m;
            &&& entry(gate_terms(Gate::RXX(m, a), i0), i0) == Some(CoefView::Cos(a))
            &&& entry(gate_terms(Gate::RXX(m, a), i0), i3) == Some(CoefView::Sin(a, 6))
            &&& entry(gate_terms(Gate::RXX(m, a), i3), i0) == Some(CoefView::Sin(a, 6))
            &&& entry(gate_terms(Gate::RXX(m, a), j), j) == Some(CoefView::Cos(a))
            &&& entry(gate_terms(Gate::RXX(m, a), j), j ^ m) == Some(CoefView::Sin(a, 6))
            &&& entry(gate_terms(Gate::RYY(m, a), i0), i0) == Some(CoefView::Cos(a))
            &&& entry(gate_terms(Gate::RYY(m, a), i0), i3) == Some(CoefView::Sin(a, 2))
            &&& entry(gate_terms(Gate::RYY(m, a), i3), i0) == Some(CoefView::Sin(a, 2))
            &&& entry(gate_terms(Gate::RYY(m, a), j), j) == Some(CoefView::Cos(a))
            &&& entry(gate_terms(Gate::RYY(m, a), j), j ^ m) == Some(CoefView::Sin(a, 6))
        }),
{
    let i3 = i0 ^ m;
    crate::math::lemma_popcount_split(i0, m);
    crate::math::lemma_popcount_zero(m);
    crate::math::lemma_popcount_zero(i0 & m);
    lemma_two_qubit_flip(i0, m);
    lemma_two_qubit_flip(j, m);
    lemma_xor_facts(i0, i0, m);
    lemma_xor_facts(i3, i3, m);
    lemma_xor_facts(j, j, m);
    assert(popcount(i3 & m) == 2);
    lemma_entry2((i0, CoefView::Cos(a)), (i3, CoefView::Sin(a, 6)), i0);
    lemma_entry2((i0, CoefView::Cos(a)), (i3, CoefView::Sin(a, 6)), i3);
    lemma_entry2((i3, CoefView::Cos(a)), (i0, CoefView::Sin(a, 6)), i0);
    lemma_entry2((j, CoefView::Cos(a)), (j ^ m, CoefView::Sin(a, 6)), j);
    lemma_entry2((j, CoefView::Cos(a)), (j ^ m, CoefView::Sin(a, 6)), j ^ m);
    lemma_entry2((i0, CoefView::Cos(a)), (i3, CoefView::Sin(a, 2)), i0);
    lemma_entry2((i0, CoefView::Cos(a)), (i3, CoefView::Sin(a, 2)), i3);
    lemma_entry2((i3, CoefView::Cos(a)), (i0, CoefView::Sin(a, 2)), i0);
}

} // verus!
