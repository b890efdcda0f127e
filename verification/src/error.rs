//! The ways in which a step of the machine can fail.

use vstd::prelude::*;

verus! {

/// A failure of one step. Either ends the run: the machine does not recover.
#[derive(Clone, Copy, Debug, PartialEq, Eq, Structural)]
pub enum MachineError {
    /// `Backward` was executed with the data pointer on cell 0.
    AddressBelowZero,
    /// A jump found no matching bracket inside the program.
    SyntaxError,
}

} // verus!
