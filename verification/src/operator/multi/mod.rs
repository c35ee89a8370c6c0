//! Queues of single operations, applied in order.
use vstd::prelude::*;
use vstd::std_specs::ops::MulSpecImpl;
use vstd::std_specs::cmp::PartialEqSpecImpl;
use vstd::std_specs::convert::FromSpecImpl;
use std::collections::VecDeque;
use crate::math::union_all;
use crate::operator::angle::Angle;
use crate::operator::atomic::{AtomicOpDispatch, Gate};
use crate::operator::single::{OpView, SingleOp};

pub mod h;
pub mod qft;
pub mod transform;

verus! {

/// The masks that the gates of a sequence of operations act on.
pub open spec fn acts(ops: Seq<OpView>) -> Seq<usize> {
    ops.map_values(|o: OpView| o.act)
}

/// The union of the masks that the gates of a sequence of operations act on.
pub open spec fn act_on_all(ops: Seq<OpView>) -> usize {
    union_all(acts(ops))
}

/// The inverse of a sequence of operations: each inverted, in reverse order.
pub open spec fn dgr_all(ops: Seq<OpView>) -> Seq<OpView> {
    ops.map_values(|o: OpView| o.dgr()).reverse()
}

/// Whether no operation of `ops` involves a qubit of `c`.
pub open spec fn can_control(ops: Seq<OpView>, c: usize) -> bool {
    forall|i: int| 0 <= i < ops.len() ==> (#[trigger] ops[i]).act_on() & c == 0
}

/// Every operation of `ops` controlled in addition by the qubits of `c`.
pub open spec fn control_all(ops: Seq<OpView>, c: usize) -> Seq<OpView> {
    ops.map_values(|o: OpView| OpView { ctrl: o.ctrl | c, ..o })
}

/// The operations of a single operation in a queue: none for the identity.
pub open spec fn of_single(op: OpView) -> Seq<OpView> {
    if op.gate == Gate::Id {
        seq![]
    } else {
        seq![op]
    }
}

/// Inverting a queue twice gives it back.
pub proof fn lemma_dgr_all_involutive(ops: Seq<OpView>)
    ensures
        dgr_all(dgr_all(ops)) == ops,
{
    assert forall|k: int| 0 <= k < ops.len() implies #[trigger] dgr_all(dgr_all(ops))[k] == ops[k] by {
        crate::operator::atomic::lemma_gate_dgr_involutive(ops[k].gate);
    }
    assert(dgr_all(dgr_all(ops)) =~= ops);
}

/// The inverse of a queue followed by another is the inverse of the second
/// followed by the inverse of the first.
pub proof fn lemma_dgr_all_concat(a: Seq<OpView>, b: Seq<OpView>)
    ensures
        dgr_all(a + b) == dgr_all(b) + dgr_all(a),
{
    assert(dgr_all(a + b) =~= dgr_all(b) + dgr_all(a));
}

/// A queue followed by its inverse pairs every operation with its own inverse,
/// nested around the middle: the operation `k` places after the middle is the
/// inverse of the one `k` places before it.
pub proof fn lemma_queue_then_inverse_pairs(ops: Seq<OpView>, k: int)
    requires
        0 <= k < ops.len(),
    ensures
        (ops + dgr_all(ops)).len() == 2 * ops.len(),
        (ops + dgr_all(ops))[ops.len() + k] == (ops + dgr_all(ops))[ops.len() - 1 - k].dgr(),
{
}

pub(crate) proof fn lemma_union_all_concat(a: Seq<usize>, b: Seq<usize>)
    ensures
        union_all(a + b) == union_all(a) | union_all(b),
    decreases a.len(),
{
    if a.len() == 0 {
        assert(a + b =~= b);
        let u = union_all(b);
        assert(0usize | u == u) by (bit_vector);
    } else {
        lemma_union_all_concat(a.drop_first(), b);
        assert((a + b).drop_first() =~= a.drop_first() + b);
        let x = a[0];
        let y = union_all(a.drop_first());
        let z = union_all(b);
        assert(x | (y | z) == (x | y) | z) by (bit_vector);
    }
}

/// A queue followed by another acts on the qubits of either.
pub proof fn lemma_act_on_all_concat(a: Seq<OpView>, b: Seq<OpView>)
    ensures
        act_on_all(a + b) == act_on_all(a) | act_on_all(b),
{
    assert(acts(a + b) =~= acts(a) + acts(b));
    lemma_union_all_concat(acts(a), acts(b));
}

proof fn lemma_union_all_reverse(s: Seq<usize>)
    ensures
        union_all(s.reverse()) == union_all(s),
    decreases s.len(),
{
    if s.len() > 0 {
        lemma_union_all_reverse(s.drop_first());
        assert(s.reverse() =~= s.drop_first().reverse() + seq![s[0]]);
        lemma_union_all_concat(s.drop_first().reverse(), seq![s[0]]);
        assert(seq![s[0]].drop_first() =~= Seq::<usize>::empty());
        let x = s[0];
        let y = union_all(s.drop_first());
        assert(seq![x].drop_first() =~= Seq::<usize>::empty());
        assert(union_all(Seq::<usize>::empty()) == 0);
        assert(seq![x][0] == x);
        assert(union_all(seq![x]) == x | 0usize);
        assert(union_all(s.reverse()) == y | (x | 0usize));
        assert(y | (x | 0usize) == x | y) by (bit_vector);
    } else {
        assert(s.reverse() =~= s);
    }
}

/// The inverse of a queue acts on the same qubits.
pub proof fn lemma_act_on_all_dgr(ops: Seq<OpView>)
    ensures
        act_on_all(dgr_all(ops)) == act_on_all(ops),
{
    let m = ops.map_values(|o: OpView| o.dgr());
    assert(acts(dgr_all(ops)) =~= acts(m).reverse());
    assert(acts(m) =~= acts(ops));
    lemma_union_all_reverse(acts(ops));
}

/// Controlling a queue by `c1` and then by `c2` controls it by both at once.
pub proof fn lemma_control_all_twice(ops: Seq<OpView>, c1: usize, c2: usize)
    ensures
        control_all(control_all(ops, c1), c2) == control_all(ops, c1 | c2),
{
    assert forall|k: int| 0 <= k < ops.len() implies #[trigger] control_all(
        control_all(ops, c1),
        c2,
    )[k] == control_all(ops, c1 | c2)[k] by {
        let x = ops[k].ctrl;
        assert((x | c1) | c2 == x | (c1 | c2)) by (bit_vector);
    }
    assert(control_all(control_all(ops, c1), c2) =~= control_all(ops, c1 | c2));
}

/// A queue of quantum operations, applied from the front.
#[derive(Clone, Debug)]
pub struct MultiOp(pub VecDeque<SingleOp>);

impl View for MultiOp {
    type V = Seq<OpView>;

    open spec fn view(&self) -> Seq<OpView> {
        self.0@.map_values(|o: SingleOp| o@)
    }
}

impl Default for MultiOp {
    fn default() -> (r: MultiOp)
        ensures
            r@ == Seq::<OpView>::empty(),
    {
        let r = MultiOp(VecDeque::new());
        proof {
            assert(r@ =~= Seq::<OpView>::empty());
        }
        r
    }
}

impl MultiOp {
    /// The queue holding the one operation `single`, or nothing when it is the identity.
    pub fn from(single: SingleOp) -> (r: MultiOp)
        ensures
            r@ == of_single(single@),
    {
        let mut q = VecDeque::new();
        if !single.is_id() {
            q.push_back(single);
        }
        let r = MultiOp(q);
        proof {
            assert(r@ =~= of_single(single@));
        }
        r
    }

    /// The number of operations in the queue.
    pub fn len(&self) -> (n: usize)
        ensures
            n == self@.len(),
    {
        self.0.len()
    }

    /// The operation at position `i`.
    pub fn get(&self, i: usize) -> (op: &SingleOp)
        requires
            i < self@.len(),
        ensures
            op@ == self@[i as int],
    {
        &self.0[i]
    }

    /// Appends the operations of `rhs` after those of `self`.
    pub fn mul_assign(&mut self, rhs: MultiOp)
        ensures
            final(self)@ == old(self)@ + rhs@,
    {
        let ghost rv = rhs@;
        let mut rhs = rhs;
        let ghost a = self.0@;
        let ghost b = rhs.0@;
        self.0.append(&mut rhs.0);
        proof {
            assert(self.0@ == a + b);
            assert(self@ =~= old(self)@ + rv);
        }
    }

    /// Appends the operation `rhs` (nothing when it is the identity).
    pub fn mul_assign_single(&mut self, rhs: SingleOp)
        ensures
            final(self)@ == old(self)@ + of_single(rhs@),
    {
        self.mul_assign(MultiOp::from(rhs));
    }

    /// The union of the qubits its gates act on (control qubits excluded).
    pub fn act_on(&self) -> (m: usize)
        ensures
            m == act_on_all(self@),
    {
        let mut r: usize = 0;
        let mut i = self.0.len();
        while i > 0
            invariant
                i <= self@.len(),
                r == union_all(acts(self@).subrange(i as int, self@.len() as int)),
            decreases i,
        {
            i = i - 1;
            proof {
                let s = acts(self@);
                assert(s.subrange(i as int, s.len() as int).drop_first() =~= s.subrange(
                    i + 1,
                    s.len() as int,
                ));
            }
            r = self.0[i].act() | r;
        }
        proof {
            let s = acts(self@);
            assert(s.subrange(0, s.len() as int) =~= s);
        }
        r
    }

    /// The inverse queue: every operation inverted, in reverse order.
    pub fn dgr(self) -> (r: MultiOp)
        ensures
            r@ == dgr_all(self@),
    {
        let ghost v = self@;
        let MultiOp(mut src) = self;
        let mut out: VecDeque<SingleOp> = VecDeque::new();
        while src.len() > 0
            invariant
                v.len() == out@.len() + src@.len(),
                forall|i: int|
                    0 <= i < src@.len() ==> (#[trigger] src@[i])@ == v[out@.len() + i],
                forall|i: int|
                    0 <= i < out@.len() ==> (#[trigger] out@[i])@ == v[out@.len() - 1 - i].dgr(),
            decreases src@.len(),
        {
            let ghost before = src@;
            let op = src.pop_front().unwrap();
            let ghost n = out@.len();
            out.push_front(op.dgr());
            proof {
                assert forall|i: int| 0 <= i < src@.len() implies (#[trigger] src@[i])@ == v[out@.len() + i] by {
                    assert(src@[i] == before[i + 1]);
                }
            }
        }
        let r = MultiOp(out);
        proof {
            assert(r@ =~= dgr_all(v));
        }
        r
    }

    /// Every operation controlled in addition by the qubits of `c_mask`; `None`
    /// when one of them is already involved in some operation.
    pub fn c(self, c_mask: usize) -> (r: Option<MultiOp>)
        ensures
            r is Some <==> can_control(self@, c_mask),
            r matches Some(q) ==> q@ == control_all(self@, c_mask),
    {
        let ghost v = self@;
        let MultiOp(mut src) = self;
        let mut out: VecDeque<SingleOp> = VecDeque::new();
        while src.len() > 0
            invariant
                v == self@,
                v.len() == out@.len() + src@.len(),
                forall|i: int|
                    0 <= i < src@.len() ==> (#[trigger] src@[i])@ == v[out@.len() + i],
                forall|i: int| 0 <= i < out@.len() ==> v[i].act_on() & c_mask == 0,
                forall|i: int|
                    0 <= i < out@.len() ==> (#[trigger] out@[i])@ == (OpView {
                        ctrl: v[i].ctrl | c_mask,
                        ..v[i]
                    }),
            decreases src@.len(),
        {
            let ghost before = src@;
            let op = src.pop_front().unwrap();
            let ghost n = out@.len();
            proof {
                assert(op@ == v[n as int]) by {
                    assert(before[0] == op);
                }
            }
            match op.c(c_mask) {
                Some(x) => {
                    out.push_back(x);
                },
                None => {
                    proof {
                        assert(v[n as int].act_on() & c_mask != 0);
                        assert(!can_control(v, c_mask));
                    }
                    return None;
                },
            }
            proof {
                assert forall|i: int| 0 <= i < src@.len() implies (#[trigger] src@[i])@ == v[out@.len() + i] by {
                    assert(src@[i] == before[i + 1]);
                }
            }
        }
        let r = MultiOp(out);
        proof {
            assert(r@ =~= control_all(v, c_mask));
        }
        Some(r)
    }
}

/// What tells an operation apart when queues are compared: its name without
/// angle text, and the angles or phases of its gate.
pub open spec fn op_key(o: OpView) -> (Seq<char>, Seq<(Angle, usize)>) {
    (o.name(seq![]), o.gate.angles())
}

/// The keys of a sequence of operations.
pub open spec fn op_keys(ops: Seq<OpView>) -> Seq<(Seq<char>, Seq<(Angle, usize)>)> {
    ops.map_values(|o: OpView| op_key(o))
}

fn same_angles(a: &AtomicOpDispatch, b: &AtomicOpDispatch) -> (r: bool)
    ensures
        r == (a@.angles() == b@.angles()),
{
    let x = angles_of(a);
    let y = angles_of(b);
    if x.len() != y.len() {
        return false;
    }
    let mut i: usize = 0;
    while i < x.len()
        invariant
            x@ == a@.angles(),
            y@ == b@.angles(),
            x@.len() == y@.len(),
            i <= x@.len(),
            forall|k: int| 0 <= k < i ==> x@[k] == y@[k],
        decreases x@.len() - i,
    {
        let (p, m) = x[i];
        let (q, n) = y[i];
        if !(p.bits == q.bits && m == n) {
            return false;
        }
        i = i + 1;
    }
    proof {
        assert(x@ =~= y@);
    }
    true
}

fn angles_of(g: &AtomicOpDispatch) -> (r: Vec<(Angle, usize)>)
    ensures
        r@ == g@.angles(),
{
    let mut r: Vec<(Angle, usize)> = Vec::new();
    match g {
        AtomicOpDispatch::RX(_, a) | AtomicOpDispatch::RXX(_, a) | AtomicOpDispatch::RY(_, a)
        | AtomicOpDispatch::RYY(_, a) | AtomicOpDispatch::RZ(_, a) | AtomicOpDispatch::RZZ(_, a) => {
            r.push((*a, 0usize));
        },
        AtomicOpDispatch::Phi(p) => {
            let mut i: usize = 0;
            while i < p.len()
                invariant
                    i <= p@.len(),
                    r@ == p@.take(i as int),
                decreases p@.len() - i,
            {
                r.push(p[i]);
                proof {
                    assert(p@.take(i + 1) =~= p@.take(i as int).push(p@[i as int]));
                }
                i = i + 1;
            }
            proof {
                assert(p@.take(p@.len() as int) =~= p@);
            }
        },
        _ => {},
    }
    proof {
        assert(r@ =~= g@.angles());
    }
    r
}

impl core::ops::Deref for MultiOp {
    type Target = VecDeque<SingleOp>;

    /// The operations of the queue, from the front.
    fn deref(&self) -> (r: &VecDeque<SingleOp>)
        ensures
            r@ == self.0@,
    {
        &self.0
    }
}

impl PartialEq for MultiOp {
    /// Two queues are equal when their operations have the same names and the
    /// same angles or phases, in order.
    fn eq(&self, other: &MultiOp) -> (r: bool) {
        proof {
            reveal_strlit("");
        }
        if self.0.len() != other.0.len() {
            proof {
                assert(op_keys(self@).len() != op_keys(other@).len());
            }
            return false;
        }
        let mut i: usize = 0;
        while i < self.0.len()
            invariant
                self.0@.len() == other.0@.len(),
                i <= self.0@.len(),
                ""@ == Seq::<char>::empty(),
                forall|k: int| 0 <= k < i ==> op_keys(self@)[k] == op_keys(other@)[k],
            decreases self.0@.len() - i,
        {
            let a = self.0[i].name("");
            let b = other.0[i].name("");
            if !(a == b) || !same_angles(self.0[i].func(), other.0[i].func()) {
                proof {
                    assert(op_keys(self@)[i as int] != op_keys(other@)[i as int]);
                }
                return false;
            }
            i = i + 1;
        }
        proof {
            assert(op_keys(self@) =~= op_keys(other@));
        }
        true
    }
}

impl PartialEqSpecImpl for MultiOp {
    open spec fn obeys_eq_spec() -> bool {
        true
    }

    open spec fn eq_spec(&self, other: &MultiOp) -> bool {
        op_keys(self@) == op_keys(other@)
    }
}

impl core::ops::Mul for MultiOp {
    type Output = MultiOp;

    /// The queue of the operations of `self` followed by those of `rhs`.
    fn mul(self, rhs: MultiOp) -> (r: MultiOp)
        ensures
            r@ == self@ + rhs@,
    {
        let mut r = self;
        r.mul_assign(rhs);
        r
    }
}

impl core::ops::Mul<SingleOp> for MultiOp {
    type Output = MultiOp;

    /// The queue of the operations of `self` followed by `rhs` (nothing more for the identity).
    fn mul(self, rhs: SingleOp) -> (r: MultiOp)
        ensures
            r@ == self@ + of_single(rhs@),
    {
        let mut r = self;
        r.mul_assign_single(rhs);
        r
    }
}

impl MulSpecImpl<SingleOp> for MultiOp {
    open spec fn obeys_mul_spec() -> bool {
        false
    }

    open spec fn mul_req(self, rhs: SingleOp) -> bool {
        true
    }

    open spec fn mul_spec(self, rhs: SingleOp) -> MultiOp {
        choose|r: MultiOp| r@ == self@ + of_single(rhs@)
    }
}

impl MulSpecImpl for MultiOp {
    open spec fn obeys_mul_spec() -> bool {
        false
    }

    open spec fn mul_req(self, rhs: MultiOp) -> bool {
        true
    }

    open spec fn mul_spec(self, rhs: MultiOp) -> MultiOp {
        choose|r: MultiOp| r@ == self@ + rhs@
    }
}

impl core::convert::From<SingleOp> for MultiOp {
    /// The queue of the single operation `single`: empty for the identity.
    fn from(single: SingleOp) -> (r: MultiOp)
        ensures
            r@ == of_single(single@),
    {
        MultiOp::from(single)
    }
}

impl FromSpecImpl<SingleOp> for MultiOp {
    open spec fn obeys_from_spec() -> bool {
        false
    }

    open spec fn from_spec(single: SingleOp) -> MultiOp {
        choose|r: MultiOp| r@ == of_single(single@)
    }
}

} // verus!
