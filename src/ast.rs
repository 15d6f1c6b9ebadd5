//! The validated program tree the builder consumes.
use vstd::prelude::*;
use crate::expr::Expr;

verus! {

/// An index into a register or alias: a constant, or the value of the
/// innermost `for` variable.
#[derive(Clone, Copy, PartialEq, Eq, Structural, Debug)]
pub enum Index {
    At(usize),
    Loop,
}

/// A qubit or bit operand: a slot of a named register or alias, or, inside a
/// gate body, one of its formal qubits by position.
#[derive(Clone, Debug)]
pub enum QArg {
    Slot { name: String, index: Index },
    Formal(usize),
}

/// A call: gate name, parameters and qubit operands.
#[derive(Debug)]
pub struct Call {
    pub name: String,
    pub params: Vec<Expr>,
    pub args: Vec<QArg>,
}

/// One top-level statement.
#[derive(Debug)]
pub enum Stmt {
    /// `qubit[size] name;`
    Qubits { name: String, size: usize },
    /// `bit[size] name;`
    Bits { name: String, size: usize },
    /// `let name = target[start:end];`, end exclusive.
    Alias { name: String, target: String, start: usize, end: usize },
    /// `gate name(params) qubits { body }`; the body speaks of formals only.
    Gate { name: String, num_params: usize, num_qubits: usize, body: Vec<Call> },
    Apply(Call),
    /// `bit = measure qubit;`
    Measure { qubit: QArg, bit: QArg },
    Reset(QArg),
    /// `barrier` over the qubits named.
    Barrier(Vec<QArg>),
    /// `for i in [start, end) { body }`
    For { start: Expr, end: Expr, body: Vec<Call> },
    /// `if (reg == value) { body }`, or `if (reg[bit] == value)`.
    If { reg: String, bit: Option<usize>, value: u64, body: Vec<Call> },
    /// `while (reg == value) { body }`: its trip count is not known at build time.
    While { reg: String, value: u64, body: Vec<Call> },
}

/// A constructor offered by the factory: its name and counts.
#[derive(Clone, Debug)]
pub struct GateSig {
    pub name: String,
    pub num_params: usize,
    pub num_qubits: usize,
}

} // verus!
