use vstd::prelude::*;

verus! {

/// The identity of a caller: an account-address equivalent. The hosting
/// environment resolves real identities; the contract only compares them.
pub type AccountId = u64;

/// An amount of value held by a task, the unclaimed pool, or the contract.
pub type Balance = u128;

/// A block height, the contract's only clock. It is supplied to every
/// operation that needs it as an ambient, read-only input.
pub type BlockNumber = u32;

/// The content hash of a completion proof.
pub type ProofHash = u64;

} // verus!
