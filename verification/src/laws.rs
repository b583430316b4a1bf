use vstd::prelude::*;

use crate::contract::{
    count_true, disburse_effect, fund_task_effect, lemma_remove_entry_preserves,
    lemma_task_index_is, remove_task_effect, same_config, same_members, same_proofs,
    same_selection, DisburseSummary, Polkapobal,
};
use crate::types::{AccountId, Balance};

verus! {

/// In every state satisfying the invariant -- and every reachable state
/// does, since `new` establishes it and every operation's contract
/// preserves it -- the member sequence and the member set hold exactly the
/// same elements.
pub proof fn lemma_member_representations_agree(c: Polkapobal)
    requires
        c.inv(),
    ensures
        forall|m: AccountId| #[trigger]
            c.member_set().contains(m) <==> c.member_seq().contains(m),
{
}

/// In every state satisfying the invariant, a task name appears in the
/// active-task sequence exactly when the name-keyed info table has an
/// entry for it.
pub proof fn lemma_task_representations_agree(c: Polkapobal)
    requires
        c.inv(),
    ensures
        forall|n: Seq<char>| #[trigger]
            c.task_names().contains(n) <==> c.task_info_map().dom().contains(n),
{
    assert forall|n: Seq<char>| #[trigger] c.task_names().contains(n) implies c.has_task(n) by {
        let i = choose|i: int|
            0 <= i < c.task_names().len() && c.task_names()[i] == n;
        assert(c.tasks@[i].name@ == n);
    }
    assert forall|n: Seq<char>| c.has_task(n) implies #[trigger] c.task_names().contains(n) by {
        let i = choose|i: int| 0 <= i < c.tasks@.len() && c.tasks@[i].name@ == n;
        assert(c.task_names()[i] == n);
    }
}

/// Funding a task and then immediately removing it moves the funded
/// amount, on top of whatever the task already held, into the unclaimed
/// pool -- and nothing else moves: membership, proofs, the era state and
/// every other task are exactly as before. In particular, funding a
/// freshly added (unfunded) task with `amount` and removing it moves
/// exactly `amount`.
pub proof fn lemma_fund_then_remove(
    s0: Polkapobal,
    s1: Polkapobal,
    s2: Polkapobal,
    name: Seq<char>,
    amount: Balance,
)
    requires
        s0.inv(),
        fund_task_effect(s0, s1, name, amount),
        remove_task_effect(s1, s2, name),
    ensures
        s2.unclaimed_funds == s0.unclaimed_funds + s0.task_info_of(name).1 + amount,
        s0.task_info_of(name).1 == 0 ==> s2.unclaimed_funds == s0.unclaimed_funds + amount,
        same_members(s0, s2),
        same_proofs(s0, s2),
        same_selection(s0, s2),
        same_config(s0, s2),
        !s2.has_task(name),
        forall|n: Seq<char>| n != name ==> ((#[trigger] s2.has_task(n)) <==> s0.has_task(n)),
        forall|n: Seq<char>| n != name && s0.has_task(n) ==> (#[trigger] s2.task_info_of(n))
            == s0.task_info_of(n),
{
    let i = s0.task_index(name);
    assert(0 <= i < s0.tasks@.len() && s0.tasks@[i].name@ == name);
    assert forall|a: int, b: int| 0 <= a < b < s1.tasks@.len() implies s1.tasks@[a].name@
        != s1.tasks@[b].name@ by {
        assert(s0.tasks@[a].name@ != s0.tasks@[b].name@);
    }
    assert(s1.tasks@[i].name@ == name);
    lemma_task_index_is(s1, i);
    assert(s1.task_info_of(name).1 == s0.task_info_of(name).1 + amount);
    lemma_remove_entry_preserves(s1.tasks@, s2.tasks@, i);
    assert forall|n: Seq<char>| s2.has_task(n) implies (s1.has_task(n) && n != name) by {
        let j = choose|j: int| 0 <= j < s2.tasks@.len() && s2.tasks@[j].name@ == n;
        let k = choose|k: int|
            0 <= k < s1.tasks@.len() && k != i && s2.tasks@[j] == s1.tasks@[k];
        assert(s1.tasks@[k].name@ == n);
        assert(n != name) by {
            if n == name {
                if k < i {
                    assert(s1.tasks@[k].name@ != s1.tasks@[i].name@);
                } else {
                    assert(s1.tasks@[i].name@ != s1.tasks@[k].name@);
                }
            }
        }
    }
    assert forall|n: Seq<char>| n != name && s0.has_task(n) implies s2.has_task(n)
        && s2.task_info_of(n) == s0.task_info_of(n) by {
        let k = choose|k: int| 0 <= k < s0.tasks@.len() && s0.tasks@[k].name@ == n;
        assert(k != i);
        assert(s1.tasks@[k] == s0.tasks@[k]);
        let j = choose|j: int| 0 <= j < s2.tasks@.len() && s1.tasks@[k] == s2.tasks@[j];
        assert(s2.tasks@[j].name@ == n);
        assert(s2.has_task(n));
        lemma_task_index_is(s0, k);
        assert forall|a: int, b: int| 0 <= a < b < s2.tasks@.len() implies s2.tasks@[a].name@
            != s2.tasks@[b].name@ by {}
        lemma_task_index_is(s2, j);
        assert(s2.task_info_of(n) == s0.task_info_of(n));
    }
}

/// If exactly one beneficiary's transfer failed during a disbursement of
/// `amount` over `n` beneficiaries, then exactly that beneficiary's share
/// `amount / n`, on top of the unconditional remainder `amount % n`,
/// landed in the unclaimed pool, while the other `n - 1` beneficiaries
/// were sent their shares normally.
pub proof fn lemma_single_failure_parks_one_share(
    pre: Polkapobal,
    post: Polkapobal,
    s: DisburseSummary,
    amount: Balance,
    n: int,
)
    requires
        disburse_effect(pre, post, s, amount, n),
        count_true(s.failed@) == 1,
    ensures
        post.unclaimed_funds == pre.unclaimed_funds + amount as int % n + amount as int / n,
{
}

} // verus!
