use vstd::prelude::*;

use crate::types::{AccountId, Balance, BlockNumber};

verus! {

/// The owner replaced the selection interval.
#[derive(Debug, PartialEq, Eq)]
pub struct SelectionEraChanged {
    pub new_era: BlockNumber,
}

/// A member was added to the registry.
#[derive(Debug, PartialEq, Eq)]
pub struct MemberRegistered {
    /// The member that was added.
    pub member: AccountId,
}

/// A member was removed from the registry.
#[derive(Debug, PartialEq, Eq)]
pub struct MemberDeregistered {
    /// The member that was removed.
    pub member: AccountId,
}

/// The owner emptied the member registry.
#[derive(Debug, PartialEq, Eq)]
pub struct MembersCleared {}

/// A task was added to the registry.
#[derive(Debug, PartialEq, Eq)]
pub struct TaskAdded {
    /// The task that was added.
    pub task: String,
}

/// A task was removed from the registry.
#[derive(Debug, PartialEq, Eq)]
pub struct TaskRemoved {
    /// The task that was removed.
    pub task: String,
}

/// The owner emptied the task registry.
#[derive(Debug, PartialEq, Eq)]
pub struct TasksCleared {}

/// Value was added to a task's accumulated funds.
#[derive(Debug, PartialEq, Eq)]
pub struct TaskFunded {
    pub task: String,
    pub donor: AccountId,
    pub amount: Balance,
}

/// A new era began: participants and a task were selected.
#[derive(Debug, PartialEq, Eq)]
pub struct NewEraStarted {
    pub era: BlockNumber,
    pub participants: Vec<AccountId>,
    pub task: String,
}

} // verus!
