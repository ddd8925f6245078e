//! Instruction set of the contract virtual machine.

use vstd::prelude::*;

verus! {

/// One VM instruction.
#[derive(Debug, Clone, PartialEq, Eq)]
pub enum Opcode {
    /// Pushes a constant.
    LoadConst(i64),
    /// Pushes the value of a state variable (0 when the variable is unset).
    Load(String),
    /// Pops a value and stores it into a state variable.
    Store(String),
    /// Pops two operands and pushes their sum.
    Add,
    /// Pops two operands and pushes their difference.
    Sub,
    /// Pops two operands and pushes their product.
    Mul,
    /// Pops two operands and pushes their quotient (truncated toward zero).
    Div,
    /// Pops two operands and pushes 1 when they are equal, else 0.
    Eq,
    /// Pops two operands and pushes 1 when the first is greater, else 0.
    Gt,
    /// Jumps unconditionally.
    Jump(usize),
    /// Pops the condition and jumps when it is 0.
    JumpIfFalse(usize),
    /// Records an event.
    Emit(String),
    /// Stops execution.
    Halt,
}

} // verus!
