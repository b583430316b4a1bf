use vstd::prelude::*;

verus! {

/// Every way a contract operation can refuse to run. Each operation's
/// contract states exactly which variant is returned on which inputs, and
/// every error leaves the contract state untouched.
#[derive(Debug, Clone, Copy, PartialEq, Eq, Structural)]
pub enum ContractError {
    /// The caller is not the configured owner.
    NotOwner,
    /// The caller is not a registered member.
    NotMember,
    /// The caller is already a registered member.
    AlreadyMember,
    /// A task with the given name already exists.
    TaskExists,
    /// No task with the given name exists.
    TaskNotFound,
    /// The task has already been marked complete.
    TaskAlreadyComplete,
    /// Not enough blocks have elapsed since the last selection.
    EraNotReached,
    /// The task selected for the current era has not been completed.
    TaskIncomplete,
    /// The member registry is empty.
    NoMembers,
    /// The task registry is empty.
    NoTasks,
    /// The caller is not one of the participants selected for the current era.
    NotActiveParticipant,
    /// A checked balance addition overflowed.
    BalanceOverflow,
    /// The contract's pool does not cover the amount to disburse.
    InsufficientFunds,
}

} // verus!
