//! Skeleton of the contract-execution machine. No opcode semantics are
//! defined yet; the machine only owns its memory. Execution is a future
//! subsystem and deliberately not part of the ledger core.

use vstd::prelude::*;

verus! {

/// The execution machine: so far, only its memory.
pub struct VirtualMachine {
    pub memory: Vec<u8>,
}

/// The instruction set as reserved so far, without semantics.
#[derive(Clone, Copy, Debug, PartialEq, Eq, Structural)]
pub enum OpCode {
    Push,
    Add,
    Store,
}

impl VirtualMachine {
    /// A machine with empty memory.
    pub fn new() -> (vm: VirtualMachine)
        ensures
            vm.memory@.len() == 0,
    {
        VirtualMachine { memory: Vec::new() }
    }
}

} // verus!
