use vstd::prelude::*;

use std::collections::HashSet;

use crate::errors::ContractError;
use crate::events::{
    MemberDeregistered, MemberRegistered, MembersCleared, NewEraStarted, SelectionEraChanged,
    TaskAdded, TaskFunded, TaskRemoved, TasksCleared,
};
use vstd::pervasive::VecAdditionalExecFns;
use crate::types::{AccountId, Balance, BlockNumber, ProofHash};

verus! {

broadcast use vstd::std_specs::hash::group_hash_axioms, vstd::seq_lib::lemma_seq_contains_after_push;

/// How many participants each era selects.
pub const SELECTED_PARTICIPANTS: usize = 4;

/// One entry of the task registry. The entry is the single authoritative
/// record behind both public views of the registry: the ordered sequence of
/// active task names and the name-keyed info table.
pub struct TaskEntry {
    /// The unique name of the task.
    pub name: String,
    /// Whether the task has been completed.
    pub is_complete: bool,
    /// The funds accumulated for the task, not yet disbursed.
    pub funds: Balance,
}

/// The whole contract state: member registry, task registry with its funding
/// ledger, the unclaimed-funds pool, and the era selection state machine.
///
/// Caller identity and current block height are ambient inputs: the hosting
/// environment passes them to every operation that needs them.
pub struct Polkapobal {
    /// The principal allowed to run the owner-only operations.
    pub owner: AccountId,
    /// The ordered member sequence, used for deterministic selection.
    pub members: Vec<AccountId>,
    /// The member set, used for existence checks. Always holds exactly the
    /// elements of `members`.
    pub is_member: HashSet<AccountId>,
    /// The task registry: active-task sequence and info table in one.
    pub tasks: Vec<TaskEntry>,
    /// Value that could not be cleanly delivered: removed tasks' funds,
    /// disbursement remainders, and shares whose transfer failed.
    pub unclaimed_funds: Balance,
    /// The block height at construction time; never changes.
    pub start_block: BlockNumber,
    /// How many blocks must elapse after `last_selection` before a new era
    /// may start.
    pub next_selection: BlockNumber,
    /// The block height of the most recent era start.
    pub last_selection: BlockNumber,
    /// The participants selected for the current era; empty before the
    /// first era.
    pub active_participants: Vec<AccountId>,
    /// The task selected for the current era and its completion flag;
    /// `None` before the first era.
    pub active_task: Option<(String, bool)>,
    /// Completion proofs, keyed by task name. Names are unique; a later
    /// upload for the same task overwrites the earlier one.
    pub proofs: Vec<(String, ProofHash)>,
}

impl Polkapobal {
    /// The ordered member sequence.
    pub open spec fn member_seq(self) -> Seq<AccountId> {
        self.members@
    }

    /// The member set.
    pub open spec fn member_set(self) -> Set<AccountId> {
        self.is_member@
    }

    /// The active-task sequence: one name per registry entry, in order.
    pub open spec fn task_names(self) -> Seq<Seq<char>> {
        self.tasks@.map_values(|t: TaskEntry| t.name@)
    }

    /// Whether the registry holds a task of this name.
    pub open spec fn has_task(self, name: Seq<char>) -> bool {
        exists|i: int| 0 <= i < self.tasks@.len() && self.tasks@[i].name@ == name
    }

    /// The registry index of the task of this name (unique under `inv`).
    pub open spec fn task_index(self, name: Seq<char>) -> int {
        choose|i: int| 0 <= i < self.tasks@.len() && self.tasks@[i].name@ == name
    }

    /// The info entry of the named task: its completion flag and funds.
    pub open spec fn task_info_of(self, name: Seq<char>) -> (bool, Balance) {
        (
            self.tasks@[self.task_index(name)].is_complete,
            self.tasks@[self.task_index(name)].funds,
        )
    }

    /// The name-keyed info table, as a map view over the task registry.
    pub open spec fn task_info_map(self) -> Map<Seq<char>, (bool, Balance)> {
        Map::new(|n: Seq<char>| self.has_task(n), |n: Seq<char>| self.task_info_of(n))
    }

    /// Whether a completion proof exists under the given task name.
    pub open spec fn has_proof(self, name: Seq<char>) -> bool {
        exists|i: int| 0 <= i < self.proofs@.len() && self.proofs@[i].0@ == name
    }

    /// The index of the proof entry for this name (unique under `inv`).
    pub open spec fn proof_index(self, name: Seq<char>) -> int {
        choose|i: int| 0 <= i < self.proofs@.len() && self.proofs@[i].0@ == name
    }

    /// The stored proof hash under the given task name.
    pub open spec fn proof_of(self, name: Seq<char>) -> ProofHash {
        self.proofs@[self.proof_index(name)].1
    }

    /// The two member representations hold exactly the same elements, and
    /// the sequence has no duplicates.
    pub open spec fn members_inv(self) -> bool {
        &&& self.members@.no_duplicates()
        &&& forall|m: AccountId|
            #![trigger self.is_member@.contains(m)]
            #![trigger self.members@.contains(m)]
            self.is_member@.contains(m) <==> self.members@.contains(m)
    }

    /// Task names are unique, so the sequence and table views agree.
    pub open spec fn tasks_inv(self) -> bool {
        forall|i: int, j: int|
            0 <= i < j < self.tasks@.len() ==> self.tasks@[i].name@ != self.tasks@[j].name@
    }

    /// Proof entries are keyed by unique task names.
    pub open spec fn proofs_inv(self) -> bool {
        forall|i: int, j: int|
            0 <= i < j < self.proofs@.len() ==> self.proofs@[i].0@ != self.proofs@[j].0@
    }

    /// An era selection is either absent (no participants) or holds exactly
    /// `SELECTED_PARTICIPANTS` participants alongside the selected task.
    pub open spec fn era_inv(self) -> bool {
        &&& self.active_task is Some ==> self.active_participants@.len()
            == SELECTED_PARTICIPANTS
        &&& self.active_task is None ==> self.active_participants@.len() == 0
    }

    /// The state invariant: established by `new`, preserved by every
    /// operation.
    pub open spec fn inv(self) -> bool {
        &&& self.members_inv()
        &&& self.tasks_inv()
        &&& self.proofs_inv()
        &&& self.era_inv()
    }

    /// Whether enough blocks have elapsed for a new era at this height.
    pub open spec fn era_reached(self, current_block: BlockNumber) -> bool {
        current_block >= self.last_selection + self.next_selection
    }
}

/// Both member representations are unchanged.
pub open spec fn same_members(pre: Polkapobal, post: Polkapobal) -> bool {
    &&& post.members@ == pre.members@
    &&& post.is_member@ == pre.is_member@
}

/// The task registry is unchanged.
pub open spec fn same_tasks(pre: Polkapobal, post: Polkapobal) -> bool {
    post.tasks@ == pre.tasks@
}

/// The proof table is unchanged.
pub open spec fn same_proofs(pre: Polkapobal, post: Polkapobal) -> bool {
    post.proofs@ == pre.proofs@
}

/// The era selection state is unchanged.
pub open spec fn same_selection(pre: Polkapobal, post: Polkapobal) -> bool {
    &&& post.last_selection == pre.last_selection
    &&& post.active_participants@ == pre.active_participants@
    &&& post.active_task == pre.active_task
}

/// The configured owner, creation block and interval are unchanged.
pub open spec fn same_config(pre: Polkapobal, post: Polkapobal) -> bool {
    &&& post.owner == pre.owner
    &&& post.start_block == pre.start_block
    &&& post.next_selection == pre.next_selection
}

/// Exactly what a successful `register_member` does.
pub open spec fn register_effect(pre: Polkapobal, post: Polkapobal, caller: AccountId) -> bool {
    &&& post.members@ == pre.members@.push(caller)
    &&& post.is_member@ == pre.is_member@.insert(caller)
    &&& same_tasks(pre, post)
    &&& same_proofs(pre, post)
    &&& same_selection(pre, post)
    &&& same_config(pre, post)
    &&& post.unclaimed_funds == pre.unclaimed_funds
}

/// Exactly what a successful `deregister_member` does: the caller leaves
/// both representations; removal from the sequence moves the last element
/// into the vacated slot.
pub open spec fn deregister_effect(pre: Polkapobal, post: Polkapobal, caller: AccountId) -> bool {
    &&& exists|i: int|
        0 <= i < pre.members@.len() && pre.members@[i] == caller && post.members@
            == pre.members@.update(i, pre.members@.last()).drop_last()
    &&& post.is_member@ == pre.is_member@.remove(caller)
    &&& same_tasks(pre, post)
    &&& same_proofs(pre, post)
    &&& same_selection(pre, post)
    &&& same_config(pre, post)
    &&& post.unclaimed_funds == pre.unclaimed_funds
}

/// Exactly what a successful `clear_members` does.
pub open spec fn clear_members_effect(pre: Polkapobal, post: Polkapobal) -> bool {
    &&& post.members@ == Seq::<AccountId>::empty()
    &&& post.is_member@ == Set::<AccountId>::empty()
    &&& same_tasks(pre, post)
    &&& same_proofs(pre, post)
    &&& same_selection(pre, post)
    &&& same_config(pre, post)
    &&& post.unclaimed_funds == pre.unclaimed_funds
}

/// The total funds accumulated over a task sequence.
pub open spec fn sum_funds(s: Seq<TaskEntry>) -> int
    decreases s.len(),
{
    if s.len() == 0 {
        0
    } else {
        sum_funds(s.drop_last()) + s.last().funds
    }
}

/// Exactly what a successful `add_task` does: one fresh entry, incomplete
/// and unfunded, appended to the registry.
pub open spec fn add_task_effect(pre: Polkapobal, post: Polkapobal, name: Seq<char>) -> bool {
    &&& post.tasks@.len() == pre.tasks@.len() + 1
    &&& post.tasks@.drop_last() == pre.tasks@
    &&& post.tasks@.last().name@ == name
    &&& post.tasks@.last().is_complete == false
    &&& post.tasks@.last().funds == 0
    &&& same_members(pre, post)
    &&& same_proofs(pre, post)
    &&& same_selection(pre, post)
    &&& same_config(pre, post)
    &&& post.unclaimed_funds == pre.unclaimed_funds
}

/// Exactly what a successful `remove_task` does: the entry leaves the
/// registry (the last entry moves into its slot) and its funds move into
/// the unclaimed pool.
pub open spec fn remove_task_effect(pre: Polkapobal, post: Polkapobal, name: Seq<char>) -> bool {
    let i = pre.task_index(name);
    &&& pre.has_task(name)
    &&& post.tasks@ == pre.tasks@.update(i, pre.tasks@.last()).drop_last()
    &&& post.unclaimed_funds == pre.unclaimed_funds + pre.task_info_of(name).1
    &&& same_members(pre, post)
    &&& same_proofs(pre, post)
    &&& same_selection(pre, post)
    &&& same_config(pre, post)
}

/// Exactly what a successful `clear_tasks` does: the registry empties and
/// every accumulated balance moves into the unclaimed pool.
pub open spec fn clear_tasks_effect(pre: Polkapobal, post: Polkapobal) -> bool {
    &&& post.tasks@ == Seq::<TaskEntry>::empty()
    &&& post.unclaimed_funds == pre.unclaimed_funds + sum_funds(pre.tasks@)
    &&& same_members(pre, post)
    &&& same_proofs(pre, post)
    &&& same_selection(pre, post)
    &&& same_config(pre, post)
}

/// Exactly what a successful `fund_task` does: the named entry's funds
/// grow by `amount`; everything else is untouched.
pub open spec fn fund_task_effect(
    pre: Polkapobal,
    post: Polkapobal,
    name: Seq<char>,
    amount: Balance,
) -> bool {
    let i = pre.task_index(name);
    &&& pre.has_task(name)
    &&& post.tasks@.len() == pre.tasks@.len()
    &&& forall|j: int| 0 <= j < pre.tasks@.len() && j != i ==> post.tasks@[j] == pre.tasks@[j]
    &&& post.tasks@[i].name == pre.tasks@[i].name
    &&& post.tasks@[i].is_complete == pre.tasks@[i].is_complete
    &&& post.tasks@[i].funds == pre.tasks@[i].funds + amount
    &&& same_members(pre, post)
    &&& same_proofs(pre, post)
    &&& same_selection(pre, post)
    &&& same_config(pre, post)
    &&& post.unclaimed_funds == pre.unclaimed_funds
}

/// The participants that the placeholder selection rule picks at this
/// block height: for each slot `i`, the member at `(block + i) mod len`.
/// Duplicates are possible when fewer members than slots exist; that is a
/// documented simplification, not a defect.
pub open spec fn selected_members(members: Seq<AccountId>, current_block: BlockNumber) -> Seq<
    AccountId,
> {
    Seq::new(
        SELECTED_PARTICIPANTS as nat,
        |i: int| members[(current_block + i) % (members.len() as int)],
    )
}

/// Which error, if any, `start_new_era` returns, in check order.
pub open spec fn start_new_era_check(pre: Polkapobal, current_block: BlockNumber) -> Option<
    ContractError,
> {
    if !pre.era_reached(current_block) {
        Some(ContractError::EraNotReached)
    } else if pre.active_task matches Some(t) && !t.1 {
        Some(ContractError::TaskIncomplete)
    } else if pre.members@.len() == 0 {
        Some(ContractError::NoMembers)
    } else if pre.tasks@.len() == 0 {
        Some(ContractError::NoTasks)
    } else {
        None
    }
}

/// Exactly what a successful `start_new_era` does: the era clock resets at the
/// current block, the selected participants and task are installed, and
/// everything else is untouched.
pub open spec fn start_new_era_effect(
    pre: Polkapobal,
    post: Polkapobal,
    current_block: BlockNumber,
) -> bool {
    &&& post.last_selection == current_block
    &&& post.active_participants@ == selected_members(pre.members@, current_block)
    &&& post.active_task matches Some(t) && t.0@ == pre.tasks@[current_block as int
        % pre.tasks@.len() as int].name@ && t.1 == false
    &&& same_members(pre, post)
    &&& same_tasks(pre, post)
    &&& same_proofs(pre, post)
    &&& same_config(pre, post)
    &&& post.unclaimed_funds == pre.unclaimed_funds
}

/// Exactly what a successful `upload_completion_proof` does: the proof for
/// the active task's name is inserted or overwritten; every other entry,
/// and all other state, is untouched.
pub open spec fn upload_proof_effect(
    pre: Polkapobal,
    post: Polkapobal,
    name: Seq<char>,
    proof_hash: ProofHash,
) -> bool {
    &&& post.has_proof(name)
    &&& post.proof_of(name) == proof_hash
    &&& forall|n: Seq<char>| n != name ==> (#[trigger] post.has_proof(n) <==> pre.has_proof(n))
    &&& forall|n: Seq<char>| n != name && pre.has_proof(n) ==> #[trigger] post.proof_of(n)
        == pre.proof_of(n)
    &&& same_members(pre, post)
    &&& same_tasks(pre, post)
    &&& same_selection(pre, post)
    &&& same_config(pre, post)
    &&& post.unclaimed_funds == pre.unclaimed_funds
}

/// What a disbursement did: the per-beneficiary share, the indivisible
/// remainder, and which beneficiaries' transfers failed. Failed shares and
/// the remainder were parked in the unclaimed pool.
#[derive(Debug, PartialEq, Eq)]
pub struct DisburseSummary {
    /// `amount / n`: what each beneficiary was sent.
    pub share: Balance,
    /// `amount % n`: the indivisible rest, parked unconditionally.
    pub remainder: Balance,
    /// One flag per beneficiary, in order: whether that transfer failed.
    pub failed: Vec<bool>,
}

/// How many entries of a flag sequence are set.
pub open spec fn count_true(s: Seq<bool>) -> int
    decreases s.len(),
{
    if s.len() == 0 {
        0
    } else {
        count_true(s.drop_last()) + (if s.last() {
            1int
        } else {
            0int
        })
    }
}

/// Appending one flag raises the count by one exactly when it is set.
pub proof fn lemma_count_true_push(s: Seq<bool>, b: bool)
    ensures
        count_true(s.push(b)) == count_true(s) + (if b {
            1int
        } else {
            0int
        }),
        count_true(s) >= 0 ==> count_true(s.push(b)) >= 0,
{
    assert(s.push(b).drop_last() =~= s);
}

/// Exactly what a successful `disburse_rewards` over `n` beneficiaries
/// does: each was sent `amount / n`; each failed share and the remainder
/// `amount % n` moved into the unclaimed pool; nothing else changed.
pub open spec fn disburse_effect(
    pre: Polkapobal,
    post: Polkapobal,
    s: DisburseSummary,
    amount: Balance,
    n: int,
) -> bool {
    &&& n > 0
    &&& s.share == amount as int / n
    &&& s.remainder == amount as int % n
    &&& s.failed@.len() == n
    &&& 0 <= count_true(s.failed@) <= n
    &&& post.unclaimed_funds == pre.unclaimed_funds + s.remainder + count_true(s.failed@)
        * s.share
    &&& same_members(pre, post)
    &&& same_tasks(pre, post)
    &&& same_proofs(pre, post)
    &&& same_selection(pre, post)
    &&& same_config(pre, post)
}

/// Exactly what a successful `complete_task` with a task in flight does:
/// the task is marked complete in both the era state and the registry, its
/// balance is zeroed, and the disbursement accounting of `s` is applied.
pub open spec fn complete_task_effect(
    pre: Polkapobal,
    post: Polkapobal,
    name: Seq<char>,
    s: DisburseSummary,
) -> bool {
    let i = pre.task_index(name);
    &&& pre.active_task matches Some(t) && t.0@ == name
    &&& pre.has_task(name)
    &&& post.active_task matches Some(t2) && t2.0@ == name && t2.1 == true
    &&& post.tasks@.len() == pre.tasks@.len()
    &&& forall|j: int| 0 <= j < pre.tasks@.len() && j != i ==> post.tasks@[j] == pre.tasks@[j]
    &&& post.tasks@[i].name == pre.tasks@[i].name
    &&& post.tasks@[i].is_complete == true
    &&& post.tasks@[i].funds == 0
    &&& s.share == pre.task_info_of(name).1 as int / (SELECTED_PARTICIPANTS as int)
    &&& s.remainder == pre.task_info_of(name).1 as int % (SELECTED_PARTICIPANTS as int)
    &&& s.failed@.len() == SELECTED_PARTICIPANTS
    &&& post.unclaimed_funds == pre.unclaimed_funds + s.remainder + count_true(s.failed@)
        * s.share
    &&& same_members(pre, post)
    &&& same_proofs(pre, post)
    &&& post.last_selection == pre.last_selection
    &&& post.active_participants@ == pre.active_participants@
    &&& same_config(pre, post)
}

/// Copies a participant list element by element.
fn clone_accounts(v: &Vec<AccountId>) -> (r: Vec<AccountId>)
    ensures
        r@ == v@,
{
    let mut out: Vec<AccountId> = Vec::new();
    let mut i: usize = 0;
    while i < v.len()
        invariant
            i <= v@.len(),
            out@.len() == i,
            forall|j: int| 0 <= j < i ==> out@[j] == v@[j],
        decreases v@.len() - i,
    {
        out.push(v[i]);
        i = i + 1;
    }
    proof {
        assert(out@ =~= v@);
    }
    out
}

/// Under unique proof names, the slot that holds a name is the one that
/// `proof_index` denotes.
pub proof fn lemma_proof_index_is(c: Polkapobal, i: int)
    requires
        c.proofs_inv(),
        0 <= i < c.proofs@.len(),
    ensures
        c.has_proof(c.proofs@[i].0@),
        c.proof_index(c.proofs@[i].0@) == i,
{
    let name = c.proofs@[i].0@;
    assert(c.has_proof(name));
    let k = c.proof_index(name);
    if k != i {
        if k < i {
            assert(c.proofs@[k].0@ != c.proofs@[i].0@);
        } else {
            assert(c.proofs@[i].0@ != c.proofs@[k].0@);
        }
    }
}

/// Under unique task names, the slot that holds a name is the one that
/// `task_index` denotes.
pub proof fn lemma_task_index_is(c: Polkapobal, i: int)
    requires
        c.tasks_inv(),
        0 <= i < c.tasks@.len(),
    ensures
        c.has_task(c.tasks@[i].name@),
        c.task_index(c.tasks@[i].name@) == i,
{
    let name = c.tasks@[i].name@;
    assert(c.has_task(name));
    let k = c.task_index(name);
    if k != i {
        if k < i {
            assert(c.tasks@[k].name@ != c.tasks@[i].name@);
        } else {
            assert(c.tasks@[i].name@ != c.tasks@[k].name@);
        }
    }
}

/// Removing one entry of a uniquely-named task sequence by swapping in the
/// last entry keeps every other task, with its info, and drops exactly the
/// named one.
pub proof fn lemma_remove_entry_preserves(s: Seq<TaskEntry>, t: Seq<TaskEntry>, i: int)
    requires
        forall|a: int, b: int| 0 <= a < b < s.len() ==> s[a].name@ != s[b].name@,
        0 <= i < s.len(),
        t == s.update(i, s.last()).drop_last(),
    ensures
        t.len() == s.len() - 1,
        forall|a: int, b: int| 0 <= a < b < t.len() ==> t[a].name@ != t[b].name@,
        forall|j: int| 0 <= j < t.len() ==> #[trigger] t[j] == (if j == i {
            s[s.len() - 1]
        } else {
            s[j]
        }),
        forall|j: int| 0 <= j < t.len() ==> exists|k: int|
            0 <= k < s.len() && k != i && #[trigger] t[j] == s[k],
        forall|k: int| 0 <= k < s.len() && k != i ==> exists|j: int|
            0 <= j < t.len() && #[trigger] s[k] == t[j],
{
    let n = s.len() as int;
    assert forall|a: int, b: int| 0 <= a < b < t.len() implies t[a].name@ != t[b].name@ by {
        let x = if a == i { n - 1 } else { a };
        let y = if b == i { n - 1 } else { b };
        assert(t[a] == s[x] && t[b] == s[y]);
        assert(x != y);
    }
    assert forall|j: int| 0 <= j < t.len() implies exists|k: int|
        0 <= k < s.len() && k != i && #[trigger] t[j] == s[k] by {
        if j == i {
            assert(i < n - 1);
            assert(t[j] == s[n - 1]);
        } else {
            assert(t[j] == s[j]);
        }
    }
    assert forall|k: int| 0 <= k < s.len() && k != i implies exists|j: int|
        0 <= j < t.len() && #[trigger] s[k] == t[j] by {
        if k == n - 1 {
            assert(i < n - 1);
            assert(s[k] == t[i]);
        } else {
            assert(s[k] == t[k]);
        }
    }
}

/// Funds are never negative, so every prefix sum is bounded by the total.
pub proof fn lemma_sum_funds_prefix_bound(s: Seq<TaskEntry>, i: int)
    requires
        0 <= i <= s.len(),
    ensures
        sum_funds(s.subrange(0, i)) <= sum_funds(s),
    decreases s.len(),
{
    if i == s.len() {
        assert(s.subrange(0, i) =~= s);
    } else {
        assert(s.subrange(0, i) =~= s.drop_last().subrange(0, i));
        lemma_sum_funds_prefix_bound(s.drop_last(), i);
    }
}

/// Removing index `i` from a duplicate-free sequence by swapping in the
/// last element keeps every other element, drops exactly `s[i]`, and keeps
/// the sequence duplicate-free.
pub proof fn lemma_swap_remove_keeps<A>(s: Seq<A>, i: int)
    requires
        0 <= i < s.len(),
        s.no_duplicates(),
    ensures
        s.update(i, s.last()).drop_last().len() == s.len() - 1,
        s.update(i, s.last()).drop_last().no_duplicates(),
        forall|x: A| #[trigger]
            s.update(i, s.last()).drop_last().contains(x) <==> (s.contains(x) && x != s[i]),
{
    let n = s.len() as int;
    let t = s.update(i, s.last()).drop_last();
    assert forall|j: int| 0 <= j < n - 1 implies t[j] == (if j == i {
        s[n - 1]
    } else {
        s[j]
    }) by {}
    assert forall|j: int, k: int| 0 <= j < n - 1 && 0 <= k < n - 1 && j != k implies t[j]
        != t[k] by {
        let a = if j == i { n - 1 } else { j };
        let b = if k == i { n - 1 } else { k };
        assert(t[j] == s[a] && t[k] == s[b]);
        assert(a != b);
    }
    assert forall|x: A| t.contains(x) implies (s.contains(x) && x != s[i]) by {
        let j = choose|j: int| 0 <= j < t.len() && t[j] == x;
        if j == i {
            assert(s[n - 1] == x);
            assert(i < n - 1);
        } else {
            assert(s[j] == x);
        }
    }
    assert forall|x: A| s.contains(x) && x != s[i] implies t.contains(x) by {
        let k = choose|k: int| 0 <= k < s.len() && s[k] == x;
        if k == n - 1 {
            assert(i < n - 1);
            assert(t[i] == x);
        } else {
            assert(t[k] == x);
        }
    }
}

impl Polkapobal {
    /// Creates the contract. The hosting environment supplies the creating
    /// caller, who becomes the owner, and the current block height.
    pub fn new(selection_era: BlockNumber, caller: AccountId, current_block: BlockNumber) -> (c:
        Polkapobal)
        ensures
            c.inv(),
            c.owner == caller,
            c.members@ == Seq::<AccountId>::empty(),
            c.is_member@ == Set::<AccountId>::empty(),
            c.tasks@ == Seq::<TaskEntry>::empty(),
            c.unclaimed_funds == 0,
            c.start_block == current_block,
            c.next_selection == selection_era,
            c.last_selection == current_block,
            c.active_participants@ == Seq::<AccountId>::empty(),
            c.active_task is None,
            c.proofs@ == Seq::<(String, ProofHash)>::empty(),
    {
        Polkapobal {
            owner: caller,
            members: Vec::new(),
            is_member: HashSet::new(),
            tasks: Vec::new(),
            unclaimed_funds: 0,
            start_block: current_block,
            next_selection: selection_era,
            last_selection: current_block,
            active_participants: Vec::new(),
            active_task: None,
            proofs: Vec::new(),
        }
    }

    /// Owner-only: replaces the selection interval unconditionally.
    pub fn set_selection_era(&mut self, caller: AccountId, selection_era: BlockNumber) -> (r:
        Result<SelectionEraChanged, ContractError>)
        requires
            old(self).inv(),
        ensures
            final(self).inv(),
            caller != old(self).owner ==> r == Err::<SelectionEraChanged, ContractError>(ContractError::NotOwner)
                && *final(self) == *old(self),
            caller == old(self).owner ==> {
                &&& r == Ok::<SelectionEraChanged, ContractError>(
                    SelectionEraChanged { new_era: selection_era },
                )
                &&& final(self).next_selection == selection_era
                &&& same_members(*old(self), *final(self))
                &&& same_tasks(*old(self), *final(self))
                &&& same_proofs(*old(self), *final(self))
                &&& same_selection(*old(self), *final(self))
                &&& final(self).owner == old(self).owner
                &&& final(self).start_block == old(self).start_block
                &&& final(self).unclaimed_funds == old(self).unclaimed_funds
            },
    {
        if caller != self.owner {
            return Err(ContractError::NotOwner);
        }
        self.next_selection = selection_era;
        Ok(SelectionEraChanged { new_era: selection_era })
    }

    /// Any caller may register themselves; fails if already present.
    /// Inserts the caller into both member representations.
    pub fn register_member(&mut self, caller: AccountId) -> (r: Result<MemberRegistered, ContractError>)
        requires
            old(self).inv(),
        ensures
            final(self).inv(),
            old(self).member_set().contains(caller) ==> r == Err::<MemberRegistered, ContractError>(
                ContractError::AlreadyMember,
            ) && *final(self) == *old(self),
            !old(self).member_set().contains(caller) ==> r == Ok::<MemberRegistered, ContractError>(
                MemberRegistered { member: caller },
            ) && register_effect(*old(self), *final(self), caller),
    {
        if self.is_member.contains(&caller) {
            return Err(ContractError::AlreadyMember);
        }
        self.is_member.insert(caller);
        self.members.push(caller);
        Ok(MemberRegistered { member: caller })
    }

    /// A registered member may deregister themselves; fails with
    /// `NotMember` otherwise. Removes the caller from both representations;
    /// the last sequence element moves into the vacated slot.
    pub fn deregister_member(&mut self, caller: AccountId) -> (r: Result<MemberDeregistered, ContractError>)
        requires
            old(self).inv(),
        ensures
            final(self).inv(),
            !old(self).member_set().contains(caller) ==> r == Err::<MemberDeregistered, ContractError>(
                ContractError::NotMember,
            ) && *final(self) == *old(self),
            old(self).member_set().contains(caller) ==> r == Ok::<MemberDeregistered, ContractError>(
                MemberDeregistered { member: caller },
            ) && deregister_effect(*old(self), *final(self), caller),
            final(self).member_set() == old(self).member_set().remove(caller),
    {
        if !self.is_member.contains(&caller) {
            return Err(ContractError::NotMember);
        }
        let index = match self.member_index(caller) {
            Some(i) => i,
            None => {
                return Err(ContractError::NotMember);
            },
        };
        let ghost pre = *self;
        self.members.swap_remove(index);
        self.is_member.remove(&caller);
        proof {
            lemma_swap_remove_keeps(pre.members@, index as int);
            assert(self.is_member@ =~= pre.is_member@.remove(caller));
        }
        Ok(MemberDeregistered { member: caller })
    }

    /// Owner-only: empties both member representations at once.
    pub fn clear_members(&mut self, caller: AccountId) -> (r: Result<MembersCleared, ContractError>)
        requires
            old(self).inv(),
        ensures
            final(self).inv(),
            caller != old(self).owner ==> r == Err::<MembersCleared, ContractError>(ContractError::NotOwner)
                && *final(self) == *old(self),
            caller == old(self).owner ==> r == Ok::<MembersCleared, ContractError>(MembersCleared {})
                && clear_members_effect(*old(self), *final(self)),
    {
        if caller != self.owner {
            return Err(ContractError::NotOwner);
        }
        self.members.clear();
        self.is_member.clear();
        Ok(MembersCleared {})
    }

    /// A member may add a task; its name must be fresh. The new task starts
    /// incomplete with zero funds, appended to the active sequence.
    pub fn add_task(&mut self, caller: AccountId, task: String) -> (r: Result<
        TaskAdded,
        ContractError,
    >)
        requires
            old(self).inv(),
        ensures
            final(self).inv(),
            !old(self).member_set().contains(caller) ==> r == Err::<TaskAdded, ContractError>(
                ContractError::NotMember,
            ) && *final(self) == *old(self),
            old(self).member_set().contains(caller) && old(self).has_task(task@) ==> r == Err::<
                TaskAdded,
                ContractError,
            >(ContractError::TaskExists) && *final(self) == *old(self),
            old(self).member_set().contains(caller) && !old(self).has_task(task@) ==> (r matches Ok(
                ev,
            ) && ev.task@ == task@ && add_task_effect(*old(self), *final(self), task@)),
    {
        if !self.is_member.contains(&caller) {
            return Err(ContractError::NotMember);
        }
        if let Some(_) = self.find_task(&task) {
            return Err(ContractError::TaskExists);
        }
        let ghost pre = *self;
        let name = task.clone();
        self.tasks.push(TaskEntry { name, is_complete: false, funds: 0 });
        proof {
            assert(self.tasks@.drop_last() =~= pre.tasks@);
            assert forall|i: int, j: int| 0 <= i < j < self.tasks@.len() implies self.tasks@[i].name@
                != self.tasks@[j].name@ by {
                if j == self.tasks@.len() - 1 {
                    assert(pre.tasks@[i].name@ != task@);
                }
            }
        }
        Ok(TaskAdded { task })
    }

    /// Owner-only: deletes the named task. Its accumulated funds move into
    /// the unclaimed pool (checked add); the last sequence element moves
    /// into the vacated slot.
    pub fn remove_task(&mut self, caller: AccountId, task: String) -> (r: Result<
        TaskRemoved,
        ContractError,
    >)
        requires
            old(self).inv(),
        ensures
            final(self).inv(),
            caller != old(self).owner ==> r == Err::<TaskRemoved, ContractError>(
                ContractError::NotOwner,
            ) && *final(self) == *old(self),
            caller == old(self).owner && !old(self).has_task(task@) ==> r == Err::<
                TaskRemoved,
                ContractError,
            >(ContractError::TaskNotFound) && *final(self) == *old(self),
            caller == old(self).owner && old(self).has_task(task@) && old(self).unclaimed_funds
                + old(self).task_info_of(task@).1 > Balance::MAX ==> r == Err::<
                TaskRemoved,
                ContractError,
            >(ContractError::BalanceOverflow) && *final(self) == *old(self),
            caller == old(self).owner && old(self).has_task(task@) && old(self).unclaimed_funds
                + old(self).task_info_of(task@).1 <= Balance::MAX ==> (r matches Ok(ev)
                && ev.task@ == task@ && remove_task_effect(*old(self), *final(self), task@)),
    {
        if caller != self.owner {
            return Err(ContractError::NotOwner);
        }
        let index = match self.find_task(&task) {
            Some(i) => i,
            None => {
                return Err(ContractError::TaskNotFound);
            },
        };
        proof {
            lemma_task_index_is(*self, index as int);
        }
        let funds = self.tasks[index].funds;
        let new_unclaimed = match self.unclaimed_funds.checked_add(funds) {
            Some(u) => u,
            None => {
                return Err(ContractError::BalanceOverflow);
            },
        };
        let ghost pre = *self;
        self.unclaimed_funds = new_unclaimed;
        self.tasks.swap_remove(index);
        proof {
            lemma_remove_entry_preserves(pre.tasks@, self.tasks@, index as int);
        }
        Ok(TaskRemoved { task })
    }

    /// Owner-only: removes every task at once, sweeping every balance into
    /// the unclaimed pool. Equivalent to `remove_task` over each task, but
    /// atomic: on overflow nothing is removed.
    pub fn clear_tasks(&mut self, caller: AccountId) -> (r: Result<TasksCleared, ContractError>)
        requires
            old(self).inv(),
        ensures
            final(self).inv(),
            caller != old(self).owner ==> r == Err::<TasksCleared, ContractError>(
                ContractError::NotOwner,
            ) && *final(self) == *old(self),
            caller == old(self).owner && old(self).unclaimed_funds + sum_funds(old(self).tasks@)
                > Balance::MAX ==> r == Err::<TasksCleared, ContractError>(
                ContractError::BalanceOverflow,
            ) && *final(self) == *old(self),
            caller == old(self).owner && old(self).unclaimed_funds + sum_funds(old(self).tasks@)
                <= Balance::MAX ==> r == Ok::<TasksCleared, ContractError>(TasksCleared {})
                && clear_tasks_effect(*old(self), *final(self)),
    {
        if caller != self.owner {
            return Err(ContractError::NotOwner);
        }
        let n = self.tasks.len();
        let mut total: Balance = 0;
        let mut i: usize = 0;
        proof {
            assert(self.tasks@.subrange(0, 0) =~= Seq::<TaskEntry>::empty());
        }
        while i < n
            invariant
                *self == *old(self),
                self.inv(),
                caller == self.owner,
                n == self.tasks@.len(),
                i <= n,
                total == sum_funds(self.tasks@.subrange(0, i as int)),
            decreases n - i,
        {
            proof {
                assert(self.tasks@.subrange(0, i as int + 1).drop_last() =~= self.tasks@.subrange(
                    0,
                    i as int,
                ));
                assert(self.tasks@.subrange(0, i as int + 1).last() == self.tasks@[i as int]);
            }
            total = match total.checked_add(self.tasks[i].funds) {
                Some(t) => t,
                None => {
                    proof {
                        lemma_sum_funds_prefix_bound(self.tasks@, i as int + 1);
                    }
                    return Err(ContractError::BalanceOverflow);
                },
            };
            i = i + 1;
        }
        proof {
            assert(self.tasks@.subrange(0, n as int) =~= self.tasks@);
        }
        let new_unclaimed = match self.unclaimed_funds.checked_add(total) {
            Some(u) => u,
            None => {
                return Err(ContractError::BalanceOverflow);
            },
        };
        self.unclaimed_funds = new_unclaimed;
        self.tasks.clear();
        Ok(TasksCleared {})
    }

    /// Any caller may fund an existing, not-yet-complete task; `amount` is
    /// the value the environment reports as sent along with the call. The
    /// task's balance grows by `amount` (checked add).
    pub fn fund_task(&mut self, caller: AccountId, task: String, amount: Balance) -> (r: Result<
        TaskFunded,
        ContractError,
    >)
        requires
            old(self).inv(),
        ensures
            final(self).inv(),
            !old(self).has_task(task@) ==> r == Err::<TaskFunded, ContractError>(
                ContractError::TaskNotFound,
            ) && *final(self) == *old(self),
            old(self).has_task(task@) && old(self).task_info_of(task@).0 ==> r == Err::<
                TaskFunded,
                ContractError,
            >(ContractError::TaskAlreadyComplete) && *final(self) == *old(self),
            old(self).has_task(task@) && !old(self).task_info_of(task@).0 && old(self).task_info_of(
                task@,
            ).1 + amount > Balance::MAX ==> r == Err::<TaskFunded, ContractError>(
                ContractError::BalanceOverflow,
            ) && *final(self) == *old(self),
            old(self).has_task(task@) && !old(self).task_info_of(task@).0 && old(self).task_info_of(
                task@,
            ).1 + amount <= Balance::MAX ==> (r matches Ok(ev) && ev.task@ == task@ && ev.donor
                == caller && ev.amount == amount && fund_task_effect(
                *old(self),
                *final(self),
                task@,
                amount,
            )),
    {
        let index = match self.find_task(&task) {
            Some(i) => i,
            None => {
                return Err(ContractError::TaskNotFound);
            },
        };
        proof {
            lemma_task_index_is(*self, index as int);
        }
        if self.tasks[index].is_complete {
            return Err(ContractError::TaskAlreadyComplete);
        }
        let new_funds = match self.tasks[index].funds.checked_add(amount) {
            Some(f) => f,
            None => {
                return Err(ContractError::BalanceOverflow);
            },
        };
        let ghost pre = *self;
        let name = self.tasks[index].name.clone();
        self.tasks.set(index, TaskEntry { name, is_complete: false, funds: new_funds });
        proof {
            assert forall|i: int, j: int| 0 <= i < j < self.tasks@.len() implies self.tasks@[i].name@
                != self.tasks@[j].name@ by {
                assert(pre.tasks@[i].name@ != pre.tasks@[j].name@);
            }
        }
        Ok(TaskFunded { task, donor: caller, amount })
    }

    /// Starts a new era, if allowed: enough blocks elapsed, no
    /// incomplete task in flight, and both registries non-empty. Commits
    /// the selected participants and task and resets the era clock at the
    /// current block.
    pub fn start_new_era(&mut self, current_block: BlockNumber) -> (r: Result<
        NewEraStarted,
        ContractError,
    >)
        requires
            old(self).inv(),
        ensures
            final(self).inv(),
            final(self).last_selection >= old(self).last_selection,
            match start_new_era_check(*old(self), current_block) {
                Some(e) => r == Err::<NewEraStarted, ContractError>(e) && *final(self) == *old(
                    self,
                ),
                None => {
                    &&& r matches Ok(ev)
                    &&& start_new_era_effect(*old(self), *final(self), current_block)
                    &&& ev.era == current_block
                    &&& ev.participants@ == selected_members(old(self).members@, current_block)
                    &&& ev.task@ == old(self).tasks@[current_block as int % old(
                        self,
                    ).tasks@.len() as int].name@
                },
            },
    {
        if (current_block as u64) < (self.last_selection as u64) + (self.next_selection as u64) {
            return Err(ContractError::EraNotReached);
        }
        match &self.active_task {
            Some(t) => {
                if !t.1 {
                    return Err(ContractError::TaskIncomplete);
                }
            },
            None => {},
        }
        let members = match self.randomly_select_members(current_block) {
            Ok(m) => m,
            Err(e) => {
                return Err(e);
            },
        };
        let task = match self.randomly_select_task(current_block) {
            Ok(t) => t,
            Err(e) => {
                return Err(e);
            },
        };
        self.last_selection = current_block;
        let participants = clone_accounts(&members);
        self.active_participants = members;
        let task_name = task.clone();
        self.active_task = Some((task, false));
        Ok(NewEraStarted { era: current_block, participants, task: task_name })
    }

    /// The placeholder participant selection: deterministic from the block
    /// height and the member sequence. Fails only on an empty registry.
    pub fn randomly_select_members(&self, current_block: BlockNumber) -> (r: Result<
        Vec<AccountId>,
        ContractError,
    >)
        ensures
            self.members@.len() == 0 ==> r == Err::<Vec<AccountId>, ContractError>(
                ContractError::NoMembers,
            ),
            self.members@.len() > 0 ==> (r matches Ok(v) && v@ == selected_members(
                self.members@,
                current_block,
            )),
    {
        if self.members.len() == 0 {
            return Err(ContractError::NoMembers);
        }
        let mut selected: Vec<AccountId> = Vec::new();
        let mut i: usize = 0;
        while i < SELECTED_PARTICIPANTS
            invariant
                self.members@.len() > 0,
                i <= SELECTED_PARTICIPANTS,
                selected@.len() == i,
                forall|j: int| 0 <= j < i ==> selected@[j] == self.members@[(current_block + j) % (
                self.members@.len() as int)],
            decreases SELECTED_PARTICIPANTS - i,
        {
            let idx = (((current_block as u64) + (i as u64)) % (self.members.len() as u64)) as usize;
            selected.push(self.members[idx]);
            i = i + 1;
        }
        proof {
            assert(selected@ =~= selected_members(self.members@, current_block));
        }
        Ok(selected)
    }

    /// The placeholder task selection: the task at `block mod len`. Fails
    /// only on an empty registry.
    pub fn randomly_select_task(&self, current_block: BlockNumber) -> (r: Result<
        String,
        ContractError,
    >)
        ensures
            self.tasks@.len() == 0 ==> r == Err::<String, ContractError>(ContractError::NoTasks),
            self.tasks@.len() > 0 ==> (r matches Ok(name) && name@ == self.tasks@[current_block
                as int % self.tasks@.len() as int].name@),
    {
        if self.tasks.len() == 0 {
            return Err(ContractError::NoTasks);
        }
        let idx = ((current_block as u64) % (self.tasks.len() as u64)) as usize;
        Ok(self.tasks[idx].name.clone())
    }

    /// An active participant records the completion proof for the current
    /// era's task, overwriting any earlier upload for that task.
    pub fn upload_completion_proof(&mut self, caller: AccountId, proof_hash: ProofHash) -> (r:
        Result<(), ContractError>)
        requires
            old(self).inv(),
        ensures
            final(self).inv(),
            !old(self).active_participants@.contains(caller) ==> r == Err::<(), ContractError>(
                ContractError::NotActiveParticipant,
            ) && *final(self) == *old(self),
            old(self).active_participants@.contains(caller) ==> r == Ok::<(), ContractError>(())
                && (old(self).active_task matches Some(t) && upload_proof_effect(
                *old(self),
                *final(self),
                t.0@,
                proof_hash,
            )),
    {
        if !self.contains_participant(caller) {
            return Err(ContractError::NotActiveParticipant);
        }
        let name = match &self.active_task {
            Some(t) => t.0.clone(),
            None => {
                proof {
                    assert(false);
                }
                return Err(ContractError::NotActiveParticipant);
            },
        };
        let ghost pre = *self;
        match self.find_proof(&name) {
            Some(i) => {
                proof {
                    lemma_proof_index_is(*self, i as int);
                }
                self.proofs.set(i, (name, proof_hash));
                proof {
                    assert forall|j: int| 0 <= j < self.proofs@.len() implies self.proofs@[j].0@
                        == pre.proofs@[j].0@ by {}
                    lemma_proof_index_is(*self, i as int);
                    assert forall|n: Seq<char>| n != pre.proofs@[i as int].0@ implies (
                    self.has_proof(n) <==> pre.has_proof(n)) by {
                        if self.has_proof(n) {
                            let j = self.proof_index(n);
                            assert(pre.proofs@[j].0@ == n);
                        }
                        if pre.has_proof(n) {
                            let j = pre.proof_index(n);
                            assert(self.proofs@[j].0@ == n);
                        }
                    }
                    assert forall|n: Seq<char>|
                        n != pre.proofs@[i as int].0@ && pre.has_proof(n) implies self.proof_of(n)
                        == pre.proof_of(n) by {
                        let j = pre.proof_index(n);
                        lemma_proof_index_is(pre, j);
                        lemma_proof_index_is(*self, j);
                    }
                }
            },
            None => {
                self.proofs.push((name, proof_hash));
                proof {
                    let last = self.proofs@.len() - 1;
                    assert(self.proofs@.drop_last() =~= pre.proofs@);
                    assert forall|a: int, b: int| 0 <= a < b < self.proofs@.len() implies self
                        .proofs@[a].0@ != self.proofs@[b].0@ by {
                        if b == last {
                            assert(pre.proofs@[a].0@ != self.proofs@[last].0@);
                        }
                    }
                    lemma_proof_index_is(*self, last);
                    assert forall|n: Seq<char>| n != self.proofs@[last].0@ implies (self.has_proof(
                        n,
                    ) <==> pre.has_proof(n)) by {
                        if self.has_proof(n) {
                            let j = self.proof_index(n);
                            assert(j != last);
                            assert(pre.proofs@[j].0@ == n);
                        }
                        if pre.has_proof(n) {
                            let j = pre.proof_index(n);
                            assert(self.proofs@[j].0@ == n);
                        }
                    }
                    assert forall|n: Seq<char>|
                        n != self.proofs@[last].0@ && pre.has_proof(n) implies self.proof_of(n)
                        == pre.proof_of(n) by {
                        let j = pre.proof_index(n);
                        lemma_proof_index_is(pre, j);
                        lemma_proof_index_is(*self, j);
                    }
                }
            },
        }
        Ok(())
    }

    /// Owner-only. With no active task this is a no-op: no error, no
    /// change. Otherwise the active task is marked complete, its balance
    /// is disbursed to the active participants, and the balance is zeroed.
    /// The whole operation aborts, unchanged, if the pool cannot cover the
    /// balance or the unclaimed pool would overflow.
    pub fn complete_task(&mut self, caller: AccountId) -> (r: Result<
        Option<DisburseSummary>,
        ContractError,
    >)
        requires
            old(self).inv(),
            caller == old(self).owner ==> (old(self).active_task matches Some(t) ==> old(
                self,
            ).has_task(t.0@)),
        ensures
            final(self).inv(),
            caller != old(self).owner ==> r == Err::<Option<DisburseSummary>, ContractError>(
                ContractError::NotOwner,
            ) && *final(self) == *old(self),
            caller == old(self).owner && old(self).active_task is None ==> r == Ok::<
                Option<DisburseSummary>,
                ContractError,
            >(None) && *final(self) == *old(self),
            caller == old(self).owner && old(self).active_task is Some ==> match r {
                Ok(opt) => opt matches Some(s) && (old(self).active_task matches Some(t)
                    && complete_task_effect(*old(self), *final(self), t.0@, s)),
                Err(e) => *final(self) == *old(self) && (e == ContractError::InsufficientFunds || e
                    == ContractError::BalanceOverflow),
            },
            caller == old(self).owner && (old(self).active_task matches Some(t) && old(
                self,
            ).task_info_of(t.0@).1 == 0) ==> (r matches Ok(opt) && opt is Some),
            caller == old(self).owner && (old(self).active_task matches Some(t) && old(
                self,
            ).unclaimed_funds + old(self).task_info_of(t.0@).1 <= u128::MAX) ==> r != Err::<
                Option<DisburseSummary>,
                ContractError,
            >(ContractError::BalanceOverflow),
    {
        if caller != self.owner {
            return Err(ContractError::NotOwner);
        }
        let name = match &self.active_task {
            None => {
                return Ok(None);
            },
            Some(t) => t.0.clone(),
        };
        let index = match self.find_task(&name) {
            Some(i) => i,
            None => {
                proof {
                    assert(false);
                }
                return Err(ContractError::InsufficientFunds);
            },
        };
        proof {
            lemma_task_index_is(*self, index as int);
        }
        let amount = self.tasks[index].funds;
        let beneficiaries = clone_accounts(&self.active_participants);
        let ghost pre = *self;
        let summary = match self.disburse_rewards(beneficiaries, amount) {
            Ok(s) => s,
            Err(e) => {
                return Err(e);
            },
        };
        let entry_name = self.tasks[index].name.clone();
        self.tasks.set(index, TaskEntry { name: entry_name, is_complete: true, funds: 0 });
        self.active_task = Some((name, true));
        proof {
            assert forall|i: int, j: int| 0 <= i < j < self.tasks@.len() implies self.tasks@[i].name@
                != self.tasks@[j].name@ by {
                assert(pre.tasks@[i].name@ != pre.tasks@[j].name@);
            }
        }
        Ok(Some(summary))
    }

    /// Splits `amount` across the beneficiaries: each is sent the integer
    /// share `amount / n`. A failed transfer does not abort the others:
    /// that share is parked in the unclaimed pool instead, as is the
    /// remainder `amount % n`, unconditionally. Fails fatally, changing
    /// nothing, if the contract's pool does not cover `amount` or the
    /// unclaimed pool would overflow.
    pub fn disburse_rewards(&mut self, beneficiaries: Vec<AccountId>, amount: Balance) -> (r:
        Result<DisburseSummary, ContractError>)
        requires
            old(self).inv(),
            beneficiaries@.len() > 0,
        ensures
            final(self).inv(),
            r matches Err(e) ==> *final(self) == *old(self) && (e == ContractError::InsufficientFunds
                || e == ContractError::BalanceOverflow),
            amount == 0 ==> r is Ok,
            r == Err::<DisburseSummary, ContractError>(ContractError::BalanceOverflow) ==> old(
                self,
            ).unclaimed_funds + amount > u128::MAX,
            r matches Ok(s) ==> disburse_effect(
                *old(self),
                *final(self),
                s,
                amount,
                beneficiaries@.len() as int,
            ),
    {
        let n = beneficiaries.len();
        let bal = crate::chain::chain_balance();
        if bal < amount {
            return Err(ContractError::InsufficientFunds);
        }
        let share = amount / (n as u128);
        let remainder = amount % (n as u128);
        proof {
            vstd::arithmetic::div_mod::lemma_fundamental_div_mod(amount as int, n as int);
        }
        let mut failed: Vec<bool> = Vec::new();
        let mut parked: Balance = 0;
        let mut i: usize = 0;
        while i < n
            invariant
                *self == *old(self),
                self.inv(),
                n == beneficiaries@.len(),
                0 < n <= usize::MAX,
                i <= n,
                failed@.len() == i,
                share == amount as int / n as int,
                remainder == amount as int % n as int,
                amount == n * share + remainder,
                0 <= count_true(failed@) <= i,
                parked == count_true(failed@) * share,
            decreases n - i,
        {
            let outcome = crate::chain::chain_transfer(beneficiaries[i], share);
            if outcome.is_err() {
                proof {
                    lemma_count_true_push(failed@, true);
                    vstd::arithmetic::mul::lemma_mul_is_distributive_add(
                        share as int,
                        count_true(failed@),
                        1,
                    );
                    vstd::arithmetic::mul::lemma_mul_inequality(
                        count_true(failed@) + 1,
                        n as int,
                        share as int,
                    );
                    assert((count_true(failed@) + 1) * share <= n * share);
                }
                failed.push(true);
                parked = parked + share;
            } else {
                proof {
                    lemma_count_true_push(failed@, false);
                }
                failed.push(false);
            }
            i = i + 1;
        }
        proof {
            vstd::arithmetic::mul::lemma_mul_inequality(
                count_true(failed@),
                n as int,
                share as int,
            );
            assert(count_true(failed@) * share <= n * share);
        }
        let total_parked = parked + remainder;
        match self.unclaimed_funds.checked_add(total_parked) {
            Some(u) => {
                self.unclaimed_funds = u;
                Ok(DisburseSummary { share, remainder, failed })
            },
            None => Err(ContractError::BalanceOverflow),
        }
    }

    /// Point lookup into the info-table view: the named task's completion
    /// flag and accumulated funds, if it exists.
    pub fn task_info(&self, task: &String) -> (r: Option<(bool, Balance)>)
        requires
            self.inv(),
        ensures
            self.has_task(task@) ==> r == Some(self.task_info_of(task@)),
            !self.has_task(task@) ==> r is None,
    {
        match self.find_task(task) {
            Some(i) => {
                proof {
                    lemma_task_index_is(*self, i as int);
                }
                Some((self.tasks[i].is_complete, self.tasks[i].funds))
            },
            None => None,
        }
    }

    /// Point lookup of the stored completion proof for a task name.
    pub fn proof_for(&self, task: &String) -> (r: Option<ProofHash>)
        requires
            self.inv(),
        ensures
            self.has_proof(task@) ==> r == Some(self.proof_of(task@)),
            !self.has_proof(task@) ==> r is None,
    {
        match self.find_proof(task) {
            Some(i) => {
                proof {
                    lemma_proof_index_is(*self, i as int);
                }
                Some(self.proofs[i].1)
            },
            None => None,
        }
    }

    /// Linear scan for the caller among the active participants.
    fn contains_participant(&self, who: AccountId) -> (r: bool)
        ensures
            r == self.active_participants@.contains(who),
    {
        let mut i: usize = 0;
        while i < self.active_participants.len()
            invariant
                i <= self.active_participants@.len(),
                forall|j: int| 0 <= j < i ==> self.active_participants@[j] != who,
            decreases self.active_participants@.len() - i,
        {
            if self.active_participants[i] == who {
                proof {
                    assert(self.active_participants@.contains(who));
                }
                return true;
            }
            i = i + 1;
        }
        false
    }

    /// Linear scan for the named proof's slot in the proof table.
    fn find_proof(&self, name: &String) -> (r: Option<usize>)
        ensures
            r matches Some(i) ==> i < self.proofs@.len() && self.proofs@[i as int].0@ == name@,
            r is None ==> !self.has_proof(name@),
    {
        let mut i: usize = 0;
        while i < self.proofs.len()
            invariant
                i <= self.proofs@.len(),
                forall|j: int| 0 <= j < i ==> self.proofs@[j].0@ != name@,
            decreases self.proofs@.len() - i,
        {
            if self.proofs[i].0 == *name {
                return Some(i);
            }
            i = i + 1;
        }
        None
    }

    /// Linear scan for the named task's slot in the registry.
    fn find_task(&self, name: &String) -> (r: Option<usize>)
        ensures
            r matches Some(i) ==> i < self.tasks@.len() && self.tasks@[i as int].name@ == name@,
            r is None ==> !self.has_task(name@),
    {
        let mut i: usize = 0;
        while i < self.tasks.len()
            invariant
                i <= self.tasks@.len(),
                forall|j: int| 0 <= j < i ==> self.tasks@[j].name@ != name@,
            decreases self.tasks@.len() - i,
        {
            if self.tasks[i].name == *name {
                return Some(i);
            }
            i = i + 1;
        }
        None
    }

    /// Linear scan for the caller's slot in the member sequence.
    fn member_index(&self, who: AccountId) -> (r: Option<usize>)
        ensures
            r matches Some(i) ==> i < self.members@.len() && self.members@[i as int] == who,
            r is None ==> !self.members@.contains(who),
    {
        let mut i: usize = 0;
        while i < self.members.len()
            invariant
                i <= self.members@.len(),
                forall|j: int| 0 <= j < i ==> self.members@[j] != who,
            decreases self.members@.len() - i,
        {
            if self.members[i] == who {
                return Some(i);
            }
            i = i + 1;
        }
        None
    }
}

} // verus!
