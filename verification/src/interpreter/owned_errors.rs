//! The errors of the QASM front end, held as plain values, and the texts that
//! report them.
use vstd::prelude::*;
use crate::text::{debug_str, decimal, push_decimal, push_str, quoted};

verus! {

/// A QASM source that could not be read.
#[derive(Debug, Clone, PartialEq)]
pub enum AstError {
    EmptySource,
    ParseError(String),
}

/// The mathematical value of an [`AstError`].
pub enum AstErrorView {
    EmptySource,
    ParseError(Seq<char>),
}

impl View for AstError {
    type V = AstErrorView;

    open spec fn view(&self) -> AstErrorView {
        match self {
            AstError::EmptySource => AstErrorView::EmptySource,
            AstError::ParseError(a) => AstErrorView::ParseError(a@),
        }
    }
}

impl AstErrorView {
    /// The text that reports the error.
    pub open spec fn message(self) -> Seq<char> {
        match self {
            AstErrorView::EmptySource => "Given an empty source"@,
            AstErrorView::ParseError(a) => "Parser error: "@ + debug_str(a),
        }
    }
}

impl AstError {
    /// The text that reports the error.
    pub fn message(&self) -> (s: String)
        ensures
            s@ == self@.message(),
    {
        let mut s = String::new();
        match self {
            AstError::EmptySource => {
                push_str(&mut s, "Given an empty source");
                proof {
                    assert(s@ =~= "Given an empty source"@);
                }
            },
            AstError::ParseError(a) => {
                push_str(&mut s, "Parser error: ");
                let q = quoted(a.as_str());
                push_str(&mut s, q.as_str());
                proof {
                    assert(s@ =~= "Parser error: "@ + debug_str(a@));
                }
            },
        }
        s
    }
}

/// A gate definition that was refused.
#[derive(Debug, Clone, PartialEq)]
pub enum MacroError {
    DisallowedNodeInMacro(String),
    DisallowedRegister(String, usize),
    UnknownReg(String),
    UnknownArg(String),
    RecursiveMacro(String),
}

/// The mathematical value of an [`MacroError`].
pub enum MacroErrorView {
    DisallowedNodeInMacro(Seq<char>),
    DisallowedRegister(Seq<char>, usize),
    UnknownReg(Seq<char>),
    UnknownArg(Seq<char>),
    RecursiveMacro(Seq<char>),
}

impl View for MacroError {
    type V = MacroErrorView;

    open spec fn view(&self) -> MacroErrorView {
        match self {
            MacroError::DisallowedNodeInMacro(a) => MacroErrorView::DisallowedNodeInMacro(a@),
            MacroError::DisallowedRegister(a, b) => MacroErrorView::DisallowedRegister(a@, *b),
            MacroError::UnknownReg(a) => MacroErrorView::UnknownReg(a@),
            MacroError::UnknownArg(a) => MacroErrorView::UnknownArg(a@),
            MacroError::RecursiveMacro(a) => MacroErrorView::RecursiveMacro(a@),
        }
    }
}

impl MacroErrorView {
    /// The text that reports the error.
    pub open spec fn message(self) -> Seq<char> {
        match self {
            MacroErrorView::DisallowedNodeInMacro(a) => "Operation "@ + debug_str(a) + " isn't allowed in Gate definition"@,
            MacroErrorView::DisallowedRegister(a, b) => "Indexing qubits ("@ + a + "["@ + decimal(b as nat) + "]) isn't allowed in Gate definition"@,
            MacroErrorView::UnknownReg(a) => "No such register ("@ + debug_str(a) + ") in this scope"@,
            MacroErrorView::UnknownArg(a) => "No such argument ("@ + debug_str(a) + ") in this scope"@,
            MacroErrorView::RecursiveMacro(a) => "Recursive macro calls ("@ + debug_str(a) + ") is not allowed"@,
        }
    }
}

impl MacroError {
    /// The text that reports the error.
    pub fn message(&self) -> (s: String)
        ensures
            s@ == self@.message(),
    {
        let mut s = String::new();
        match self {
            MacroError::DisallowedNodeInMacro(a) => {
                push_str(&mut s, "Operation ");
                let q = quoted(a.as_str());
                push_str(&mut s, q.as_str());
                push_str(&mut s, " isn't allowed in Gate definition");
                proof {
                    assert(s@ =~= "Operation "@ + debug_str(a@) + " isn't allowed in Gate definition"@);
                }
            },
            MacroError::DisallowedRegister(a, b) => {
                push_str(&mut s, "Indexing qubits (");
                push_str(&mut s, a.as_str());
                push_str(&mut s, "[");
                push_decimal(&mut s, *b);
                push_str(&mut s, "]) isn't allowed in Gate definition");
                proof {
                    assert(s@ =~= "Indexing qubits ("@ + a@ + "["@ + decimal(*b as nat) + "]) isn't allowed in Gate definition"@);
                }
            },
            MacroError::UnknownReg(a) => {
                push_str(&mut s, "No such register (");
                let q = quoted(a.as_str());
                push_str(&mut s, q.as_str());
                push_str(&mut s, ") in this scope");
                proof {
                    assert(s@ =~= "No such register ("@ + debug_str(a@) + ") in this scope"@);
                }
            },
            MacroError::UnknownArg(a) => {
                push_str(&mut s, "No such argument (");
                let q = quoted(a.as_str());
                push_str(&mut s, q.as_str());
                push_str(&mut s, ") in this scope");
                proof {
                    assert(s@ =~= "No such argument ("@ + debug_str(a@) + ") in this scope"@);
                }
            },
            MacroError::RecursiveMacro(a) => {
                push_str(&mut s, "Recursive macro calls (");
                let q = quoted(a.as_str());
                push_str(&mut s, q.as_str());
                push_str(&mut s, ") is not allowed");
                proof {
                    assert(s@ =~= "Recursive macro calls ("@ + debug_str(a@) + ") is not allowed"@);
                }
            },
        }
        s
    }
}

/// A QASM program that the interpreter refused.
#[derive(Debug, Clone, PartialEq)]
pub enum IntError {
    NoQReg(String),
    NoCReg(String),
    DupQReg(String, usize),
    DupCReg(String, usize),
    IdxOutOfRange(String, usize),
    UnknownGate(String),
    InvalidControlMask(usize, usize),
    /// The argument, and the `{:?}` text of the evaluator's error.
    UnevaluatedArgument(String, String),
    WrongRegNumber(String, usize),
    WrongArgNumber(String, usize),
    UnmatchedRegSize(usize, usize),
    MacroError(MacroError),
    MacroAlreadyDefined(String),
    DisallowedNodeInIf(String),
}

/// The mathematical value of an [`IntError`].
pub enum IntErrorView {
    NoQReg(Seq<char>),
    NoCReg(Seq<char>),
    DupQReg(Seq<char>, usize),
    DupCReg(Seq<char>, usize),
    IdxOutOfRange(Seq<char>, usize),
    UnknownGate(Seq<char>),
    InvalidControlMask(usize, usize),
    UnevaluatedArgument(Seq<char>, Seq<char>),
    WrongRegNumber(Seq<char>, usize),
    WrongArgNumber(Seq<char>, usize),
    UnmatchedRegSize(usize, usize),
    MacroError(MacroErrorView),
    MacroAlreadyDefined(Seq<char>),
    DisallowedNodeInIf(Seq<char>),
}

impl View for IntError {
    type V = IntErrorView;

    open spec fn view(&self) -> IntErrorView {
        match self {
            IntError::NoQReg(a) => IntErrorView::NoQReg(a@),
            IntError::NoCReg(a) => IntErrorView::NoCReg(a@),
            IntError::DupQReg(a, b) => IntErrorView::DupQReg(a@, *b),
            IntError::DupCReg(a, b) => IntErrorView::DupCReg(a@, *b),
            IntError::IdxOutOfRange(a, b) => IntErrorView::IdxOutOfRange(a@, *b),
            IntError::UnknownGate(a) => IntErrorView::UnknownGate(a@),
            IntError::InvalidControlMask(a, b) => IntErrorView::InvalidControlMask(*a, *b),
            IntError::UnevaluatedArgument(a, b) => IntErrorView::UnevaluatedArgument(a@, b@),
            IntError::WrongRegNumber(a, b) => IntErrorView::WrongRegNumber(a@, *b),
            IntError::WrongArgNumber(a, b) => IntErrorView::WrongArgNumber(a@, *b),
            IntError::UnmatchedRegSize(a, b) => IntErrorView::UnmatchedRegSize(*a, *b),
            IntError::MacroError(a) => IntErrorView::MacroError(a@),
            IntError::MacroAlreadyDefined(a) => IntErrorView::MacroAlreadyDefined(a@),
            IntError::DisallowedNodeInIf(a) => IntErrorView::DisallowedNodeInIf(a@),
        }
    }
}

impl IntErrorView {
    /// The text that reports the error.
    pub open spec fn message(self) -> Seq<char> {
        match self {
            IntErrorView::NoQReg(a) => "There's no quantum register, called "@ + debug_str(a) + ". Ensure to add this code: qreg "@ + a + "[SIZE]"@,
            IntErrorView::NoCReg(a) => "There's no classical register, called "@ + debug_str(a) + ". Ensure to add this code: creg "@ + a + "[*SIZE*]"@,
            IntErrorView::DupQReg(a, b) => "Quantum register with a similar name "@ + debug_str(a) + "  already defined with \"qreg "@ + a + "["@ + decimal(b as nat) + "]\""@,
            IntErrorView::DupCReg(a, b) => "Classical register with a similar name "@ + debug_str(a) + "  already defined with \"creg "@ + a + "["@ + decimal(b as nat) + "]\""@,
            IntErrorView::IdxOutOfRange(a, b) => "Index (="@ + decimal(b as nat) + ") is out of bounds for register: "@ + a + "["@ + decimal(b as nat) + "]"@,
            IntErrorView::UnknownGate(a) => "There's no quantum gate, called "@ + debug_str(a),
            IntErrorView::InvalidControlMask(a, b) => "Control mask ("@ + decimal(a as nat) + ") should not overlap with operators' qubits ("@ + decimal(b as nat) + ")"@,
            IntErrorView::UnevaluatedArgument(a, b) => "Cannot evaluate gate argument ["@ + a + "]: "@ + b,
            IntErrorView::WrongRegNumber(a, b) => "Gate "@ + debug_str(a) + " cannot receive ["@ + decimal(b as nat) + "] register(s)"@,
            IntErrorView::WrongArgNumber(a, b) => "Gate "@ + debug_str(a) + " cannot receive ["@ + decimal(b as nat) + "] arguments"@,
            IntErrorView::UnmatchedRegSize(a, b) => "Cannot measure ["@ + decimal(a as nat) + "] quantum registers into ["@ + decimal(b as nat) + "] classical registers"@,
            IntErrorView::MacroError(a) => a.message(),
            IntErrorView::MacroAlreadyDefined(a) => "Macro with name "@ + debug_str(a) + " already defined"@,
            IntErrorView::DisallowedNodeInIf(a) => "Operation "@ + debug_str(a) + " isn't allowed in If block"@,
        }
    }
}

impl IntError {
    /// The text that reports the error.
    pub fn message(&self) -> (s: String)
        ensures
            s@ == self@.message(),
    {
        let mut s = String::new();
        match self {
            IntError::NoQReg(a) => {
                push_str(&mut s, "There's no quantum register, called ");
                let q = quoted(a.as_str());
                push_str(&mut s, q.as_str());
                push_str(&mut s, ". Ensure to add this code: qreg ");
                push_str(&mut s, a.as_str());
                push_str(&mut s, "[SIZE]");
                proof {
                    assert(s@ =~= "There's no quantum register, called "@ + debug_str(a@) + ". Ensure to add this code: qreg "@ + a@ + "[SIZE]"@);
                }
            },
            IntError::NoCReg(a) => {
                push_str(&mut s, "There's no classical register, called ");
                let q = quoted(a.as_str());
                push_str(&mut s, q.as_str());
                push_str(&mut s, ". Ensure to add this code: creg ");
                push_str(&mut s, a.as_str());
                push_str(&mut s, "[*SIZE*]");
                proof {
                    assert(s@ =~= "There's no classical register, called "@ + debug_str(a@) + ". Ensure to add this code: creg "@ + a@ + "[*SIZE*]"@);
                }
            },
            IntError::DupQReg(a, b) => {
                push_str(&mut s, "Quantum register with a similar name ");
                let q = quoted(a.as_str());
                push_str(&mut s, q.as_str());
                push_str(&mut s, "  already defined with \"qreg ");
                push_str(&mut s, a.as_str());
                push_str(&mut s, "[");
                push_decimal(&mut s, *b);
                push_str(&mut s, "]\"");
                proof {
                    assert(s@ =~= "Quantum register with a similar name "@ + debug_str(a@) + "  already defined with \"qreg "@ + a@ + "["@ + decimal(*b as nat) + "]\""@);
                }
            },
            IntError::DupCReg(a, b) => {
                push_str(&mut s, "Classical register with a similar name ");
                let q = quoted(a.as_str());
                push_str(&mut s, q.as_str());
                push_str(&mut s, "  already defined with \"creg ");
                push_str(&mut s, a.as_str());
                push_str(&mut s, "[");
                push_decimal(&mut s, *b);
                push_str(&mut s, "]\"");
                proof {
                    assert(s@ =~= "Classical register with a similar name "@ + debug_str(a@) + "  already defined with \"creg "@ + a@ + "["@ + decimal(*b as nat) + "]\""@);
                }
            },
            IntError::IdxOutOfRange(a, b) => {
                push_str(&mut s, "Index (=");
                push_decimal(&mut s, *b);
                push_str(&mut s, ") is out of bounds for register: ");
                push_str(&mut s, a.as_str());
                push_str(&mut s, "[");
                push_decimal(&mut s, *b);
                push_str(&mut s, "]");
                proof {
                    assert(s@ =~= "Index (="@ + decimal(*b as nat) + ") is out of bounds for register: "@ + a@ + "["@ + decimal(*b as nat) + "]"@);
                }
            },
            IntError::UnknownGate(a) => {
                push_str(&mut s, "There's no quantum gate, called ");
                let q = quoted(a.as_str());
                push_str(&mut s, q.as_str());
                proof {
                    assert(s@ =~= "There's no quantum gate, called "@ + debug_str(a@));
                }
            },
            IntError::InvalidControlMask(a, b) => {
                push_str(&mut s, "Control mask (");
                push_decimal(&mut s, *a);
                push_str(&mut s, ") should not overlap with operators' qubits (");
                push_decimal(&mut s, *b);
                push_str(&mut s, ")");
                proof {
                    assert(s@ =~= "Control mask ("@ + decimal(*a as nat) + ") should not overlap with operators' qubits ("@ + decimal(*b as nat) + ")"@);
                }
            },
            IntError::UnevaluatedArgument(a, b) => {
                push_str(&mut s, "Cannot evaluate gate argument [");
                push_str(&mut s, a.as_str());
                push_str(&mut s, "]: ");
                push_str(&mut s, b.as_str());
                proof {
                    assert(s@ =~= "Cannot evaluate gate argument ["@ + a@ + "]: "@ + b@);
                }
            },
            IntError::WrongRegNumber(a, b) => {
                push_str(&mut s, "Gate ");
                let q = quoted(a.as_str());
                push_str(&mut s, q.as_str());
                push_str(&mut s, " cannot receive [");
                push_decimal(&mut s, *b);
                push_str(&mut s, "] register(s)");
                proof {
                    assert(s@ =~= "Gate "@ + debug_str(a@) + " cannot receive ["@ + decimal(*b as nat) + "] register(s)"@);
                }
            },
            IntError::WrongArgNumber(a, b) => {
                push_str(&mut s, "Gate ");
                let q = quoted(a.as_str());
                push_str(&mut s, q.as_str());
                push_str(&mut s, " cannot receive [");
                push_decimal(&mut s, *b);
                push_str(&mut s, "] arguments");
                proof {
                    assert(s@ =~= "Gate "@ + debug_str(a@) + " cannot receive ["@ + decimal(*b as nat) + "] arguments"@);
                }
            },
            IntError::UnmatchedRegSize(a, b) => {
                push_str(&mut s, "Cannot measure [");
                push_decimal(&mut s, *a);
                push_str(&mut s, "] quantum registers into [");
                push_decimal(&mut s, *b);
                push_str(&mut s, "] classical registers");
                proof {
                    assert(s@ =~= "Cannot measure ["@ + decimal(*a as nat) + "] quantum registers into ["@ + decimal(*b as nat) + "] classical registers"@);
                }
            },
            IntError::MacroError(a) => {
                let m = a.message();
                push_str(&mut s, m.as_str());
                proof {
                    assert(s@ =~= a@.message());
                }
            },
            IntError::MacroAlreadyDefined(a) => {
                push_str(&mut s, "Macro with name ");
                let q = quoted(a.as_str());
                push_str(&mut s, q.as_str());
                push_str(&mut s, " already defined");
                proof {
                    assert(s@ =~= "Macro with name "@ + debug_str(a@) + " already defined"@);
                }
            },
            IntError::DisallowedNodeInIf(a) => {
                push_str(&mut s, "Operation ");
                let q = quoted(a.as_str());
                push_str(&mut s, q.as_str());
                push_str(&mut s, " isn't allowed in If block");
                proof {
                    assert(s@ =~= "Operation "@ + debug_str(a@) + " isn't allowed in If block"@);
                }
            },
        }
        s
    }
}

} // verus!
