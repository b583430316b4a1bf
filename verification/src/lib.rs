//! An era-based selection and reward-disbursement contract.
//!
//! A closed group of registered members maintains a pool of funded tasks.
//! Periodically a new era starts: a fixed number of participants and one
//! task are selected deterministically from the registries. Participants
//! submit a completion proof; the owner finalizes the task, which disburses
//! its accumulated funds to the participants with exact remainder handling.

mod chain;
mod contract;
mod errors;
mod events;
mod laws;
mod types;

pub use contract::{
    add_task_effect, clear_members_effect, clear_tasks_effect, complete_task_effect, count_true,
    deregister_effect, disburse_effect, fund_task_effect, lemma_count_true_push,
    lemma_proof_index_is, lemma_remove_entry_preserves, lemma_sum_funds_prefix_bound,
    lemma_swap_remove_keeps, lemma_task_index_is, register_effect, remove_task_effect,
    same_config, same_members, same_proofs, same_selection, same_tasks, selected_members,
    start_new_era_check,
    start_new_era_effect, sum_funds, upload_proof_effect, DisburseSummary, Polkapobal, TaskEntry,
    SELECTED_PARTICIPANTS,
};
pub use errors::ContractError;
pub use events::{
    MemberDeregistered, MemberRegistered, MembersCleared, NewEraStarted, SelectionEraChanged,
    TaskAdded, TaskFunded, TaskRemoved, TasksCleared,
};
pub use laws::{
    lemma_fund_then_remove, lemma_member_representations_agree,
    lemma_single_failure_parks_one_share, lemma_task_representations_agree,
};
pub use types::{AccountId, Balance, BlockNumber, ProofHash};
