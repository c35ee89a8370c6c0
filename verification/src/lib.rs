//! A quantum circuit toolkit: gates addressed by qubit bitmasks, queues of
//! gates, their inverses and controlled versions, and the commands of the
//! interactive interpreter.
use vstd::prelude::*;

pub mod backend;
pub mod interpreter;
pub mod math;
pub mod operator;
pub mod text;

verus! {

} // verus!
