//! Compiled functions.

use vstd::prelude::*;

use crate::opcode::OpCode;

verus! {

/// A compiled function of the machine.
#[derive(Debug, Clone)]
pub struct Function {
    /// Human-readable name for debugging.
    pub name: String,
    /// Number of parameters (popped from the stack on call).
    pub arity: usize,
    /// Bytecode instructions.
    pub code: Vec<OpCode>,
    /// Total local variable slots (includes parameters).
    pub num_locals: usize,
}

impl Function {
    pub fn new(name: &str, arity: usize, code: Vec<OpCode>, num_locals: usize) -> (f: Self)
        ensures
            f.name@ == name@,
            f.arity == arity,
            f.code@ == code@,
            f.num_locals == num_locals,
    {
        Function { name: name.to_string(), arity, code, num_locals }
    }
}

} // verus!
