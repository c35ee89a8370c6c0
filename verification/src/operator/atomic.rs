//! The atomic gates: each acts on the qubits of one mask and is applied to a
//! quantum state as a whole.
use vstd::prelude::*;
use crate::math::{count_bits, popcount, union_all};
use crate::operator::angle::Angle;
use crate::text::{decimal, push_decimal, push_str};

verus! {

/// The mathematical value of an atomic gate.
pub enum Gate {
    Id,
    X(usize),
    RX(usize, Angle),
    RXX(usize, Angle),
    Y(usize),
    RY(usize, Angle),
    RYY(usize, Angle),
    Z(usize),
    S(usize, bool),
    T(usize, bool),
    RZ(usize, Angle),
    RZZ(usize, Angle),
    H1(usize),
    H2(usize, usize),
    Swap(usize),
    ISwap(usize, bool),
    SqrtSwap(usize, bool),
    SqrtISwap(usize, bool),
    Phi(Seq<(Angle, usize)>),
}

/// The masks of a list of phase shifts.
pub open spec fn phase_masks(phases: Seq<(Angle, usize)>) -> Seq<usize> {
    phases.map_values(|p: (Angle, usize)| p.1)
}

/// A list of phase shifts with every angle negated.
pub open spec fn neg_phases(phases: Seq<(Angle, usize)>) -> Seq<(Angle, usize)> {
    phases.map_values(|p: (Angle, usize)| (p.0.neg_spec(), p.1))
}

impl Gate {
    /// The qubits this gate acts on.
    pub open spec fn acts_on(self) -> usize {
        match self {
            Gate::Id => 0,
            Gate::X(m) | Gate::Y(m) | Gate::Z(m) | Gate::H1(m) | Gate::Swap(m) => m,
            Gate::S(m, _) | Gate::T(m, _) => m,
            Gate::ISwap(m, _) | Gate::SqrtSwap(m, _) | Gate::SqrtISwap(m, _) => m,
            Gate::RX(m, _) | Gate::RXX(m, _) | Gate::RY(m, _) | Gate::RYY(m, _) => m,
            Gate::RZ(m, _) | Gate::RZZ(m, _) => m,
            Gate::H2(a, b) => a | b,
            Gate::Phi(p) => union_all(phase_masks(p)),
        }
    }

    /// Whether this gate's masks have the number of qubits this gate needs.
    pub open spec fn is_valid(self) -> bool {
        match self {
            Gate::H1(m) | Gate::RX(m, _) | Gate::RY(m, _) | Gate::RZ(m, _) => popcount(m) == 1,
            Gate::RXX(m, _) | Gate::RYY(m, _) | Gate::RZZ(m, _) | Gate::Swap(m) => popcount(m) == 2,
            Gate::ISwap(m, _) | Gate::SqrtSwap(m, _) | Gate::SqrtISwap(m, _) => popcount(m) == 2,
            Gate::H2(a, b) => popcount(a) == 1 && popcount(b) == 1 && popcount(a | b) == 2,
            _ => true,
        }
    }

    /// The inverse gate.
    pub open spec fn dgr(self) -> Gate {
        match self {
            Gate::S(m, d) => Gate::S(m, !d),
            Gate::T(m, d) => Gate::T(m, !d),
            Gate::ISwap(m, d) => Gate::ISwap(m, !d),
            Gate::SqrtSwap(m, d) => Gate::SqrtSwap(m, !d),
            Gate::SqrtISwap(m, d) => Gate::SqrtISwap(m, !d),
            Gate::RX(m, a) => Gate::RX(m, a.neg_spec()),
            Gate::RXX(m, a) => Gate::RXX(m, a.neg_spec()),
            Gate::RY(m, a) => Gate::RY(m, a.neg_spec()),
            Gate::RYY(m, a) => Gate::RYY(m, a.neg_spec()),
            Gate::RZ(m, a) => Gate::RZ(m, a.neg_spec()),
            Gate::RZZ(m, a) => Gate::RZZ(m, a.neg_spec()),
            Gate::Phi(p) => Gate::Phi(neg_phases(p)),
            g => g,
        }
    }

    /// This gate's name: its kind followed by its mask in decimal. A rotation
    /// gate adds `angle`, the text of its angle, in the brackets of its kind; a
    /// phase gate adds `angle`, the text of its phases. Other gates ignore `angle`.
    pub open spec fn name(self, angle: Seq<char>) -> Seq<char> {
        match self {
            Gate::Id => "Id"@,
            Gate::X(m) => "X"@ + decimal(m as nat),
            Gate::Y(m) => "Y"@ + decimal(m as nat),
            Gate::Z(m) => "Z"@ + decimal(m as nat),
            Gate::S(m, _) => "S"@ + decimal(m as nat),
            Gate::T(m, _) => "T"@ + decimal(m as nat),
            Gate::H1(m) => "H"@ + decimal(m as nat),
            Gate::H2(a, b) => "H"@ + decimal((a | b) as nat),
            Gate::Swap(m) => "SWAP"@ + decimal(m as nat),
            Gate::ISwap(m, _) => "iSWAP"@ + decimal(m as nat),
            Gate::SqrtSwap(m, _) => "sqrt(SWAP"@ + decimal(m as nat) + ")"@,
            Gate::SqrtISwap(m, _) => "sqrt(iSWAP"@ + decimal(m as nat) + ")"@,
            Gate::RX(m, _) => "RX"@ + decimal(m as nat) + "["@ + angle + "]"@,
            Gate::RXX(m, _) => "RXX"@ + decimal(m as nat) + "("@ + angle + ")"@,
            Gate::RY(m, _) => "RY"@ + decimal(m as nat) + "("@ + angle + ")"@,
            Gate::RYY(m, _) => "RYY"@ + decimal(m as nat) + "["@ + angle + "]"@,
            Gate::RZ(m, _) => "RZ"@ + decimal(m as nat) + "("@ + angle + ")"@,
            Gate::RZZ(m, _) => "RZZ"@ + decimal(m as nat) + "["@ + angle + "]"@,
            Gate::Phi(_) => "Phase"@ + angle,
        }
    }

    /// What, besides its name, tells this gate apart when gates are compared:
    /// the angle of a rotation gate, the phase list of a phase gate.
    pub open spec fn angles(self) -> Seq<(Angle, usize)> {
        match self {
            Gate::RX(_, a) | Gate::RXX(_, a) | Gate::RY(_, a) | Gate::RYY(_, a) | Gate::RZ(_, a)
            | Gate::RZZ(_, a) => seq![(a, 0usize)],
            Gate::Phi(p) => p,
            _ => seq![],
        }
    }
}

/// Inverting a gate twice gives it back.
pub proof fn lemma_gate_dgr_involutive(g: Gate)
    ensures
        g.dgr().dgr() == g,
{
    match g {
        Gate::RX(_, a) | Gate::RXX(_, a) | Gate::RY(_, a) | Gate::RYY(_, a) | Gate::RZ(_, a)
        | Gate::RZZ(_, a) => {
            crate::operator::angle::lemma_neg_involutive(a);
        },
        Gate::Phi(p) => {
            assert forall|k: int| 0 <= k < p.len() implies #[trigger] neg_phases(neg_phases(p))[k]
                == p[k] by {
                crate::operator::angle::lemma_neg_involutive(p[k].0);
            }
            assert(neg_phases(neg_phases(p)) =~= p);
        },
        _ => {},
    }
}

/// An atomic gate, as the simulator stores it.
#[derive(Clone, Debug, PartialEq)]
pub enum AtomicOpDispatch {
    Id,
    X(usize),
    RX(usize, Angle),
    RXX(usize, Angle),
    Y(usize),
    RY(usize, Angle),
    RYY(usize, Angle),
    Z(usize),
    S(usize, bool),
    T(usize, bool),
    RZ(usize, Angle),
    RZZ(usize, Angle),
    H1(usize),
    H2(usize, usize),
    Swap(usize),
    ISwap(usize, bool),
    SqrtSwap(usize, bool),
    SqrtISwap(usize, bool),
    Phi(Vec<(Angle, usize)>),
}

impl View for AtomicOpDispatch {
    type V = Gate;

    open spec fn view(&self) -> Gate {
        match self {
            AtomicOpDispatch::Id => Gate::Id,
            AtomicOpDispatch::X(m) => Gate::X(*m),
            AtomicOpDispatch::RX(m, a) => Gate::RX(*m, *a),
            AtomicOpDispatch::RXX(m, a) => Gate::RXX(*m, *a),
            AtomicOpDispatch::Y(m) => Gate::Y(*m),
            AtomicOpDispatch::RY(m, a) => Gate::RY(*m, *a),
            AtomicOpDispatch::RYY(m, a) => Gate::RYY(*m, *a),
            AtomicOpDispatch::Z(m) => Gate::Z(*m),
            AtomicOpDispatch::S(m, d) => Gate::S(*m, *d),
            AtomicOpDispatch::T(m, d) => Gate::T(*m, *d),
            AtomicOpDispatch::RZ(m, a) => Gate::RZ(*m, *a),
            AtomicOpDispatch::RZZ(m, a) => Gate::RZZ(*m, *a),
            AtomicOpDispatch::H1(m) => Gate::H1(*m),
            AtomicOpDispatch::H2(a, b) => Gate::H2(*a, *b),
            AtomicOpDispatch::Swap(m) => Gate::Swap(*m),
            AtomicOpDispatch::ISwap(m, d) => Gate::ISwap(*m, *d),
            AtomicOpDispatch::SqrtSwap(m, d) => Gate::SqrtSwap(*m, *d),
            AtomicOpDispatch::SqrtISwap(m, d) => Gate::SqrtISwap(*m, *d),
            AtomicOpDispatch::Phi(p) => Gate::Phi(p@),
        }
    }
}

/// What every atomic gate offers.
pub trait AtomicOp: Sized {
    /// This gate's name, with `angle` as the text of its angle or phases.
    fn name(&self, angle: &str) -> String;

    /// Whether this gate's masks have the number of qubits this gate needs.
    fn is_valid(&self) -> bool;

    /// The qubits this gate acts on.
    fn acts_on(&self) -> usize;

    /// This gate itself, as a dispatch value.
    fn this(self) -> AtomicOpDispatch;

    /// The inverse gate.
    fn dgr(self) -> AtomicOpDispatch;
}

fn named(prefix: &str, m: usize) -> (s: String)
    ensures
        s@ == prefix@ + decimal(m as nat),
{
    let mut s = String::new();
    push_str(&mut s, prefix);
    push_decimal(&mut s, m);
    proof {
        assert(s@ =~= prefix@ + decimal(m as nat));
    }
    s
}

fn named_closed(prefix: &str, m: usize, open: &str, angle: &str, close: &str) -> (s: String)
    ensures
        s@ == prefix@ + decimal(m as nat) + open@ + angle@ + close@,
{
    let mut s = named(prefix, m);
    push_str(&mut s, open);
    push_str(&mut s, angle);
    push_str(&mut s, close);
    proof {
        assert(s@ =~= prefix@ + decimal(m as nat) + open@ + angle@ + close@);
    }
    s
}

fn union_of_phase_masks(phases: &Vec<(Angle, usize)>) -> (r: usize)
    ensures
        r == union_all(phase_masks(phases@)),
{
    let mut r: usize = 0;
    let mut i = phases.len();
    while i > 0
        invariant
            i <= phases@.len(),
            r == union_all(phase_masks(phases@).subrange(i as int, phases@.len() as int)),
        decreases i,
    {
        i = i - 1;
        proof {
            let s = phase_masks(phases@);
            assert(s.subrange(i as int, s.len() as int).drop_first() =~= s.subrange(
                i + 1,
                s.len() as int,
            ));
        }
        r = phases[i].1 | r;
    }
    proof {
        let s = phase_masks(phases@);
        assert(s.subrange(0, s.len() as int) =~= s);
    }
    r
}

fn negate_phases(phases: Vec<(Angle, usize)>) -> (r: Vec<(Angle, usize)>)
    ensures
        r@ == neg_phases(phases@),
{
    let mut r: Vec<(Angle, usize)> = Vec::new();
    let mut i: usize = 0;
    while i < phases.len()
        invariant
            i <= phases@.len(),
            r@ =~= neg_phases(phases@).take(i as int),
        decreases phases@.len() - i,
    {
        let (a, m) = phases[i];
        r.push((a.neg(), m));
        proof {
            assert(neg_phases(phases@).take(i + 1) =~= neg_phases(phases@).take(i as int).push(
                (a.neg_spec(), m),
            ));
        }
        i = i + 1;
    }
    proof {
        assert(neg_phases(phases@).take(phases@.len() as int) =~= neg_phases(phases@));
    }
    r
}

impl AtomicOp for AtomicOpDispatch {
    fn name(&self, angle: &str) -> (s: String)
        ensures
            s@ == self@.name(angle@),
    {
        proof {
            reveal_strlit("Id");
            reveal_strlit("X");
            reveal_strlit("Y");
            reveal_strlit("Z");
            reveal_strlit("S");
            reveal_strlit("T");
            reveal_strlit("H");
            reveal_strlit("SWAP");
            reveal_strlit("iSWAP");
            reveal_strlit("sqrt(SWAP");
            reveal_strlit("sqrt(iSWAP");
            reveal_strlit("Phase");
            reveal_strlit("RX");
            reveal_strlit("RXX");
            reveal_strlit("RY");
            reveal_strlit("RYY");
            reveal_strlit("RZ");
            reveal_strlit("RZZ");
            reveal_strlit("[");
            reveal_strlit("]");
            reveal_strlit("(");
            reveal_strlit(")");
            reveal_strlit("");
        }
        match self {
            AtomicOpDispatch::Id => {
                let mut s = String::new();
                push_str(&mut s, "Id");
                s
            },
            AtomicOpDispatch::X(m) => named("X", *m),
            AtomicOpDispatch::Y(m) => named("Y", *m),
            AtomicOpDispatch::Z(m) => named("Z", *m),
            AtomicOpDispatch::S(m, _) => named("S", *m),
            AtomicOpDispatch::T(m, _) => named("T", *m),
            AtomicOpDispatch::H1(m) => named("H", *m),
            AtomicOpDispatch::H2(a, b) => named("H", *a | *b),
            AtomicOpDispatch::Swap(m) => named("SWAP", *m),
            AtomicOpDispatch::ISwap(m, _) => named("iSWAP", *m),
            AtomicOpDispatch::SqrtSwap(m, _) => named_closed("sqrt(SWAP", *m, "", "", ")"),
            AtomicOpDispatch::SqrtISwap(m, _) => named_closed("sqrt(iSWAP", *m, "", "", ")"),
            AtomicOpDispatch::RX(m, _) => named_closed("RX", *m, "[", angle, "]"),
            AtomicOpDispatch::RXX(m, _) => named_closed("RXX", *m, "(", angle, ")"),
            AtomicOpDispatch::RY(m, _) => named_closed("RY", *m, "(", angle, ")"),
            AtomicOpDispatch::RYY(m, _) => named_closed("RYY", *m, "[", angle, "]"),
            AtomicOpDispatch::RZ(m, _) => named_closed("RZ", *m, "(", angle, ")"),
            AtomicOpDispatch::RZZ(m, _) => named_closed("RZZ", *m, "[", angle, "]"),
            AtomicOpDispatch::Phi(_) => {
                let mut s = String::new();
                push_str(&mut s, "Phase");
                push_str(&mut s, angle);
                proof {
                    assert(s@ =~= "Phase"@ + angle@);
                }
                s
            },
        }
    }

    fn is_valid(&self) -> (b: bool)
        ensures
            b == self@.is_valid(),
    {
        match self {
            AtomicOpDispatch::H1(m) | AtomicOpDispatch::RX(m, _) | AtomicOpDispatch::RY(m, _)
            | AtomicOpDispatch::RZ(m, _) => count_bits(*m) == 1,
            AtomicOpDispatch::RXX(m, _) | AtomicOpDispatch::RYY(m, _) | AtomicOpDispatch::RZZ(m, _)
            | AtomicOpDispatch::Swap(m) => count_bits(*m) == 2,
            AtomicOpDispatch::ISwap(m, _) | AtomicOpDispatch::SqrtSwap(m, _)
            | AtomicOpDispatch::SqrtISwap(m, _) => count_bits(*m) == 2,
            AtomicOpDispatch::H2(a, b) => count_bits(*a) == 1 && count_bits(*b) == 1 && count_bits(
                *a | *b,
            ) == 2,
            _ => true,
        }
    }

    fn acts_on(&self) -> (m: usize)
        ensures
            m == self@.acts_on(),
    {
        match self {
            AtomicOpDispatch::Id => 0,
            AtomicOpDispatch::X(m) | AtomicOpDispatch::Y(m) | AtomicOpDispatch::Z(m)
            | AtomicOpDispatch::H1(m) | AtomicOpDispatch::Swap(m) => *m,
            AtomicOpDispatch::S(m, _) | AtomicOpDispatch::T(m, _) => *m,
            AtomicOpDispatch::ISwap(m, _) | AtomicOpDispatch::SqrtSwap(m, _)
            | AtomicOpDispatch::SqrtISwap(m, _) => *m,
            AtomicOpDispatch::RX(m, _) | AtomicOpDispatch::RXX(m, _) | AtomicOpDispatch::RY(m, _)
            | AtomicOpDispatch::RYY(m, _) => *m,
            AtomicOpDispatch::RZ(m, _) | AtomicOpDispatch::RZZ(m, _) => *m,
            AtomicOpDispatch::H2(a, b) => *a | *b,
            AtomicOpDispatch::Phi(p) => union_of_phase_masks(p),
        }
    }

    fn this(self) -> (r: AtomicOpDispatch)
        ensures
            r@ == self@,
    {
        self
    }

    fn dgr(self) -> (r: AtomicOpDispatch)
        ensures
            r@ == self@.dgr(),
    {
        match self {
            AtomicOpDispatch::S(m, d) => AtomicOpDispatch::S(m, !d),
            AtomicOpDispatch::T(m, d) => AtomicOpDispatch::T(m, !d),
            AtomicOpDispatch::ISwap(m, d) => AtomicOpDispatch::ISwap(m, !d),
            AtomicOpDispatch::SqrtSwap(m, d) => AtomicOpDispatch::SqrtSwap(m, !d),
            AtomicOpDispatch::SqrtISwap(m, d) => AtomicOpDispatch::SqrtISwap(m, !d),
            AtomicOpDispatch::RX(m, a) => AtomicOpDispatch::RX(m, a.neg()),
            AtomicOpDispatch::RXX(m, a) => AtomicOpDispatch::RXX(m, a.neg()),
            AtomicOpDispatch::RY(m, a) => AtomicOpDispatch::RY(m, a.neg()),
            AtomicOpDispatch::RYY(m, a) => AtomicOpDispatch::RYY(m, a.neg()),
            AtomicOpDispatch::RZ(m, a) => AtomicOpDispatch::RZ(m, a.neg()),
            AtomicOpDispatch::RZZ(m, a) => AtomicOpDispatch::RZZ(m, a.neg()),
            AtomicOpDispatch::Phi(p) => AtomicOpDispatch::Phi(negate_phases(p)),
            g => g,
        }
    }
}

} // verus!
