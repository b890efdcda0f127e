//! An interpreter core for a small tape language of eight one-character
//! opcodes: the parser that turns source text into opcodes, and the machine
//! that executes them over a growable tape of 32-bit cells.
//!
//! The machine performs no I/O of its own. A step is handed the value that an
//! `Input` opcode would read and hands back the character that an `Output`
//! opcode emits, so the caller decides where input comes from and where
//! output goes.

pub mod instruction;
pub mod error;
pub mod jump;
pub mod scalar;
pub mod machine;
pub mod run;
