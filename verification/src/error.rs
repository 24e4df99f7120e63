//! Why the execution of a block fails.

use vstd::prelude::*;

verus! {

/// The ways in which a block can fail. Each is fatal to the block: nothing
/// of it is committed, and the caller keeps the parent state.
#[derive(Clone, Copy, Debug, PartialEq, Eq, Structural)]
pub enum ExecError {
    /// The trie or the node store is corrupt: a node that is referred to is
    /// not stored, a node to remove is not there, a node to add is there
    /// with other bytes, or a stored value has not the form it must have.
    InvariantViolation,
    /// A transfer cannot be made: the sender has no account or not enough
    /// balance, or the receiver's balance would exceed 256 bits.
    TransferRejected,
    /// A call names an address at which no contract is stored.
    ContractAbsent,
    /// The contract's code could not be loaded or run, or it failed.
    VmFailure,
    /// The parent block is not known to the oracle.
    OracleMiss,
}

} // verus!
