//! The instruction model: opcodes, operators, branch conditions, and the
//! error vocabulary of the linker and the interpreter.

use vstd::prelude::*;

verus! {

/// The single runtime value type: a fixed-width signed integer.
pub type Literal = i32;

/// A position in the data stack, counted downward from the top.
pub type StackPos = usize;

/// An absolute position in the flat program.
pub type ProgramPos = usize;

/// A relative jump distance, measured from the jumping instruction itself.
pub type JumpOffset = i16;

/// Arithmetic operators of the `BinOp` instruction.
#[derive(Copy, Clone, Debug, PartialEq, Eq, Structural)]
pub enum Operation {
    Add,
    Sub,
    Mul,
    Div,
    Mod,
}

/// Comparators of the `Branch` instruction, applied to the value on top of
/// the data stack (which is read, not popped) against zero.
#[derive(Copy, Clone, Debug, PartialEq, Eq, Structural)]
pub enum BranchCondition {
    Equal,
    NotEqual,
    GreaterThan,
    LessThan,
    GreaterEqual,
    LessEqual,
}

/// One instruction. `T` is the call-target representation: a function name
/// before linking, an absolute program position after.
#[derive(Copy, Clone, Debug)]
pub enum Opcode<T> {
    Push(Literal),
    Pop,
    Dup,
    Swap(StackPos),
    BinOp(Operation),
    Branch(BranchCondition, JumpOffset),
    Jump(JumpOffset),
    Call(T),
    Return,
}

/// Run-time terminal conditions. `Halted` is the designed non-error
/// termination; every other variant is a fault.
#[derive(Copy, Clone, Debug, PartialEq, Eq, Structural)]
pub enum VmError {
    StackUnderflow,
    InvalidStackPosition,
    JumpOffsetTooLarge,
    JumpOffsetTooSmall,
    InvalidFunctionPosition,
    DivisionByZero,
    ThereIsNoCode,
    Halted,
}

/// Link-time failures.
#[derive(Copy, Clone, Debug, PartialEq, Eq, Structural)]
pub enum LinkError {
    FunctionNameNotFound,
}

/// Whether `op` can be applied with divisor `y` (`y` is the value popped
/// second, i.e. the one pushed earlier).
pub open spec fn binop_defined(op: Operation, y: i32) -> bool {
    match op {
        Operation::Div => y != 0,
        Operation::Mod => y != 0,
        _ => true,
    }
}

/// The value of `x op y`, where `x` is the most recently pushed operand.
/// Addition, subtraction and multiplication wrap around on overflow;
/// division truncates toward zero and wraps on `i32::MIN / -1`, and the
/// remainder follows the sign of `x` (zero on `i32::MIN % -1`).
pub open spec fn binop_value(op: Operation, x: i32, y: i32) -> i32 {
    match op {
        Operation::Add => x.wrapping_add(y),
        Operation::Sub => x.wrapping_sub(y),
        Operation::Mul => x.wrapping_mul(y),
        Operation::Div => match x.checked_div(y) {
            Some(q) => q,
            None => i32::MIN,
        },
        Operation::Mod => match x.checked_rem(y) {
            Some(r) => r,
            None => 0,
        },
    }
}

/// Whether the comparison named by `cond` holds of the value `a` on top of
/// the data stack.
pub open spec fn cond_holds(cond: BranchCondition, a: i32) -> bool {
    match cond {
        BranchCondition::Equal => a == 0,
        BranchCondition::NotEqual => a != 0,
        BranchCondition::GreaterThan => a > 0,
        BranchCondition::LessThan => a < 0,
        BranchCondition::GreaterEqual => a >= 0,
        BranchCondition::LessEqual => a <= 0,
    }
}

} // verus!
