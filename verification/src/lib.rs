//! A small stack-based bytecode virtual machine.
//!
//! Named instruction sequences are linked into one flat, addressable program
//! (symbolic call targets become absolute positions), which an interpreter
//! then executes with an explicit operand stack and an explicit call stack
//! until a terminal condition is reached.

pub mod context;
pub mod link;
pub mod machine;
pub mod opcode;
pub mod run;
pub mod table;

pub use context::Context;
pub use opcode::BranchCondition;
pub use opcode::LinkError;
pub use opcode::Literal;
pub use opcode::Opcode;
pub use opcode::Operation;
pub use opcode::VmError;
