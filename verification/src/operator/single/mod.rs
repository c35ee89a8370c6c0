//! A single gate, possibly controlled by further qubits.
use vstd::prelude::*;
use vstd::std_specs::convert::FromSpecImpl;
use crate::operator::atomic::{AtomicOp, AtomicOpDispatch, Gate};
use crate::text::{decimal, push_decimal, push_str};

pub mod pauli;
pub mod rotate;
pub mod swap;

verus! {

/// The mathematical value of a single operation.
pub struct OpView {
    /// The qubits this gate acts on.
    pub act: usize,
    /// The qubits that control this gate: it acts only on basis states where all of them are 1.
    pub ctrl: usize,
    /// This gate.
    pub gate: Gate,
}

impl OpView {
    /// The operation's name: `C{ctrl}_` before this gate's name when there are
    /// control qubits; `angle` is the text of its angle or phases.
    pub open spec fn name(self, angle: Seq<char>) -> Seq<char> {
        if self.ctrl != 0 {
            "C"@ + decimal(self.ctrl as nat) + "_"@ + self.gate.name(angle)
        } else {
            self.gate.name(angle)
        }
    }

    /// The qubits the operation involves.
    pub open spec fn act_on(self) -> usize {
        self.act | self.ctrl
    }

    /// The inverse operation.
    pub open spec fn dgr(self) -> OpView {
        OpView { gate: self.gate.dgr(), ..self }
    }

    /// The operation controlled in addition by the qubits of `c`, when these
    /// are not already involved.
    pub open spec fn c(self, c: usize) -> Option<OpView> {
        if self.act_on() & c != 0 {
            None
        } else {
            Some(OpView { ctrl: self.ctrl | c, ..self })
        }
    }

    /// Whether the operation acts on the qubits of its gate, and its control
    /// qubits are apart from them.
    pub open spec fn wf(self) -> bool {
        self.act == self.gate.acts_on() && self.act & self.ctrl == 0
    }

    /// The operation of a bare gate.
    pub open spec fn of(gate: Gate) -> OpView {
        OpView { act: gate.acts_on(), ctrl: 0, gate }
    }
}

/// An operation made of a bare gate is well formed, and controlling or
/// inverting a well-formed operation keeps it so.
pub proof fn lemma_op_wf(g: Gate, op: OpView, c: usize)
    ensures
        OpView::of(g).wf(),
        op.wf() ==> op.dgr().wf(),
        op.wf() && op.c(c) is Some ==> op.c(c)->0.wf(),
{
    let a = g.acts_on();
    crate::operator::amplitude::lemma_dgr_acts_on(op.gate);
    let x = op.act;
    let y = op.ctrl;
    assert(a & 0 == 0 && ((x | y) & c == 0 && x & y == 0 ==> x & (y | c) == 0)) by (bit_vector);
}

/// A single quantum operation: a gate, and the qubits that control it.
#[derive(Clone, Debug, PartialEq)]
pub struct SingleOp {
    act: usize,
    ctrl: usize,
    func: AtomicOpDispatch,
}

impl View for SingleOp {
    type V = OpView;

    closed spec fn view(&self) -> OpView {
        OpView { act: self.act, ctrl: self.ctrl, gate: self.func@ }
    }
}

impl SingleOp {
    /// The operation of a bare gate, controlled by no qubit.
    pub fn from(op: AtomicOpDispatch) -> (r: SingleOp)
        ensures
            r@ == OpView::of(op@),
    {
        SingleOp { act: op.acts_on(), ctrl: 0, func: op }
    }

    /// The qubits this gate acts on.
    pub fn act(&self) -> (m: usize)
        ensures
            m == self@.act,
    {
        self.act
    }

    /// The qubits that control this gate.
    pub fn ctrl(&self) -> (m: usize)
        ensures
            m == self@.ctrl,
    {
        self.ctrl
    }

    /// This gate.
    pub fn func(&self) -> (g: &AtomicOpDispatch)
        ensures
            g@ == self@.gate,
    {
        &self.func
    }

    /// Returns the operation's name, formatted as `(C{control_mask}_)?{gate_name}{apply_mask}`,
    /// followed for a rotation gate by `angle`, the text of its angle, in brackets,
    /// and for a phase gate by `angle`, the text of its phases.
    pub fn name(&self, angle: &str) -> (s: String)
        ensures
            s@ == self@.name(angle@),
    {
        let g = self.func.name(angle);
        if self.ctrl != 0 {
            let mut s = String::new();
            push_str(&mut s, "C");
            push_decimal(&mut s, self.ctrl);
            push_str(&mut s, "_");
            push_str(&mut s, g.as_str());
            proof {
                reveal_strlit("C");
                reveal_strlit("_");
                assert(s@ =~= self@.name(angle@));
            }
            s
        } else {
            g
        }
    }

    /// The qubits the operation involves: those of this gate and those controlling it.
    pub fn act_on(&self) -> (m: usize)
        ensures
            m == self@.act_on(),
    {
        self.act | self.ctrl
    }

    /// The inverse operation.
    pub fn dgr(self) -> (r: SingleOp)
        ensures
            r@ == self@.dgr(),
    {
        SingleOp { func: self.func.dgr(), ..self }
    }

    /// The operation controlled in addition by the qubits of `c`; `None` when
    /// one of them is already involved in the operation.
    pub fn c(self, c: usize) -> (r: Option<SingleOp>)
        ensures
            r matches Some(op) ==> self@.c(c) == Some(op@),
            r is None <==> self@.c(c) is None,
    {
        if self.act_on() & c != 0 {
            None
        } else {
            Some(SingleOp { ctrl: self.ctrl | c, ..self })
        }
    }

    /// Whether this gate is the identity.
    pub fn is_id(&self) -> (b: bool)
        ensures
            b == (self@.gate == Gate::Id),
    {
        match self.func {
            AtomicOpDispatch::Id => true,
            _ => false,
        }
    }
}

impl core::convert::From<AtomicOpDispatch> for SingleOp {
    /// The operation of the bare gate `op`, controlled by no qubit.
    fn from(op: AtomicOpDispatch) -> (r: SingleOp)
        ensures
            r@ == OpView::of(op@),
    {
        SingleOp { act: op.acts_on(), ctrl: 0, func: op }
    }
}

impl FromSpecImpl<AtomicOpDispatch> for SingleOp {
    open spec fn obeys_from_spec() -> bool {
        true
    }

    closed spec fn from_spec(op: AtomicOpDispatch) -> SingleOp {
        SingleOp { act: op@.acts_on(), ctrl: 0, func: op }
    }
}

} // verus!
