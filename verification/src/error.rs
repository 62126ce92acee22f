//! The hard failures that the simulator reports to its caller.

use vstd::prelude::*;

verus! {

/// A failure that ends the operation which met it.
///
/// Anomalies inside a running battle (a division by zero, a spawn at the
/// process cap) are not errors: they only decide what is scheduled next.
#[derive(Copy, Clone, Debug, PartialEq, Eq, Structural)]
pub enum Error {
    /// A control word outside the valid opcode, modifier and mode ranges.
    MalformedInstruction,
    /// The simulation state cannot be created at the requested sizes.
    AllocationFailed,
}

} // verus!
