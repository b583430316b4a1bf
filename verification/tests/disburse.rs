use polkapobal::{ContractError, Polkapobal};

const DEFAULT_SELECTION_ERA: u32 = 10;
const ALICE: u64 = 1;
const BOB: u64 = 2;
const CHARLIE: u64 = 3;
const DJANGO: u64 = 4;
const EVE: u64 = 5;

// the off-chain chain spec refuses balances below its existential minimum,
// so the pool starts large; the disbursed amounts stay the original ones
const POOL: u128 = 1_000_000_000;

type Env = ink::env::DefaultEnvironment;

fn account(id: u64) -> ink::primitives::AccountId {
    let mut raw = [0u8; 32];
    raw[..8].copy_from_slice(&id.to_le_bytes());
    ink::primitives::AccountId::from(raw)
}

fn set_balance(account_id: ink::primitives::AccountId, balance: u128) {
    ink::env::test::set_account_balance::<Env>(account_id, balance)
}

fn get_balance(account_id: ink::primitives::AccountId) -> u128 {
    ink::env::test::get_account_balance::<Env>(account_id).expect("Cannot get account balance")
}

fn create_default_contract() -> Polkapobal {
    Polkapobal::new(DEFAULT_SELECTION_ERA, ALICE, 0)
}

#[test]
fn disburse_rewards_works() {
    ink::env::test::run_test::<Env, _>(|_| {
        let mut contract = create_default_contract();

        let contract_address = ink::env::test::callee::<Env>();

        let beneficiaries = vec![BOB, CHARLIE, DJANGO, EVE];

        set_balance(contract_address, POOL);

        // sanity check, set balances to 0
        for beneficiary in beneficiaries.clone() {
            set_balance(account(beneficiary), 0);
        }

        let summary = contract.disburse_rewards(beneficiaries.clone(), 100).unwrap();
        assert_eq!(summary.share, 25);
        assert_eq!(summary.remainder, 0);
        assert_eq!(summary.failed, vec![false; 4]);

        assert_eq!(get_balance(contract_address), POOL - 100);
        for beneficiary in &beneficiaries {
            assert_eq!(get_balance(account(*beneficiary)), 25);
        }

        // indivisable by 4
        let indivisable_amount: u128 = 75;
        let beneficiary_amount = indivisable_amount / 4;
        let remainder = indivisable_amount % 4;

        // sanity check, ensure amount is truncated to 18
        assert_eq!(beneficiary_amount, 18);

        let summary = contract.disburse_rewards(beneficiaries.clone(), indivisable_amount).unwrap();
        assert_eq!(summary.share, 18);
        assert_eq!(summary.remainder, 3);

        // remainder is 3, so only 72 is disbursed
        assert_eq!(
            get_balance(contract_address),
            POOL - 100 - (indivisable_amount - remainder)
        );
        for beneficiary in &beneficiaries {
            assert_eq!(get_balance(account(*beneficiary)), 25 + beneficiary_amount);
        }
        assert_eq!(contract.unclaimed_funds, remainder);
        Ok(())
    })
    .unwrap();
}

#[test]
fn disburse_insufficient_funds_fails() {
    ink::env::test::run_test::<Env, _>(|_| {
        let mut contract = create_default_contract();

        let contract_address = ink::env::test::callee::<Env>();
        set_balance(contract_address, POOL);

        let result = contract.disburse_rewards(vec![BOB, CHARLIE], POOL + 1);

        assert_eq!(result, Err(ContractError::InsufficientFunds));
        assert_eq!(contract.unclaimed_funds, 0);
        assert_eq!(get_balance(contract_address), POOL);
        Ok(())
    })
    .unwrap();
}

#[test]
fn disburse_zero_amount_always_succeeds() {
    ink::env::test::run_test::<Env, _>(|_| {
        let mut contract = create_default_contract();

        let contract_address = ink::env::test::callee::<Env>();
        set_balance(contract_address, POOL);

        // nothing to split: success is owed whatever the chain holds
        let summary = contract.disburse_rewards(vec![BOB, CHARLIE], 0).unwrap();

        assert_eq!(summary.share, 0);
        assert_eq!(summary.remainder, 0);
        assert_eq!(contract.unclaimed_funds, 0);
        assert_eq!(get_balance(contract_address), POOL);
        Ok(())
    })
    .unwrap();
}

#[test]
fn complete_task_noop_when_no_active_task() {
    // no era has started: completing is a no-op, not an error,
    // and nothing touches the chain
    let mut contract = create_default_contract();

    let result = contract.complete_task(ALICE).unwrap();

    assert_eq!(result.is_none(), true);
    assert_eq!(contract.active_task, None);
    assert_eq!(contract.unclaimed_funds, 0);
    assert_eq!(contract.tasks.len(), 0);
}

#[test]
fn complete_task_requires_owner() {
    let mut contract = create_default_contract();

    let result = contract.complete_task(EVE);

    assert_eq!(result, Err(ContractError::NotOwner));
}

#[test]
fn complete_task_disburses_and_resets() {
    ink::env::test::run_test::<Env, _>(|_| {
        let mut contract = create_default_contract();

        let contract_address = ink::env::test::callee::<Env>();
        set_balance(contract_address, POOL);

        for id in [ALICE, BOB, CHARLIE, DJANGO] {
            contract.register_member(id).unwrap();
            set_balance(account(id), 0);
        }

        let task = String::from("Task");
        contract.add_task(ALICE, task.clone()).unwrap();
        contract.fund_task(EVE, task.clone(), 75).unwrap();
        contract.start_new_era(DEFAULT_SELECTION_ERA).unwrap();

        let summary = contract.complete_task(ALICE).unwrap().unwrap();

        assert_eq!(summary.share, 18);
        assert_eq!(summary.remainder, 3);
        assert_eq!(summary.failed, vec![false; 4]);
        // the task is complete, its balance zeroed, the remainder parked
        assert_eq!(contract.unclaimed_funds, 3);
        assert_eq!(contract.task_info(&task).unwrap(), (true, 0));
        assert_eq!(contract.active_task, Some((task.clone(), true)));
        // every selected participant was sent 18; with 4 members each of
        // the 4 selection slots lands on a distinct member
        assert_eq!(get_balance(contract_address), POOL - 72);
        for id in [ALICE, BOB, CHARLIE, DJANGO] {
            assert_eq!(get_balance(account(id)), 18);
        }

        // with the task complete, a later era may start again
        let result = contract.start_new_era(2 * DEFAULT_SELECTION_ERA);
        assert_eq!(result.is_ok(), true);
        Ok(())
    })
    .unwrap();
}

#[test]
fn complete_task_insufficient_funds_aborts() {
    ink::env::test::run_test::<Env, _>(|_| {
        let mut contract = create_default_contract();

        let contract_address = ink::env::test::callee::<Env>();
        set_balance(contract_address, POOL);

        contract.register_member(ALICE).unwrap();
        let task = String::from("Task");
        contract.add_task(ALICE, task.clone()).unwrap();
        contract.fund_task(EVE, task.clone(), POOL + 1).unwrap();
        contract.start_new_era(DEFAULT_SELECTION_ERA).unwrap();

        let result = contract.complete_task(ALICE);

        assert_eq!(result, Err(ContractError::InsufficientFunds));
        // the whole completion aborted: nothing changed
        assert_eq!(contract.task_info(&task).unwrap(), (false, POOL + 1));
        assert_eq!(contract.active_task, Some((task.clone(), false)));
        assert_eq!(contract.unclaimed_funds, 0);
        Ok(())
    })
    .unwrap();
}

#[test]
fn fund_completed_task_fails() {
    ink::env::test::run_test::<Env, _>(|_| {
        let mut contract = create_default_contract();

        let contract_address = ink::env::test::callee::<Env>();
        set_balance(contract_address, POOL);

        contract.register_member(ALICE).unwrap();
        let task = String::from("Task");
        contract.add_task(ALICE, task.clone()).unwrap();
        contract.start_new_era(DEFAULT_SELECTION_ERA).unwrap();
        contract.complete_task(ALICE).unwrap();

        let result = contract.fund_task(BOB, task.clone(), 10);

        assert_eq!(result, Err(ContractError::TaskAlreadyComplete));
        assert_eq!(contract.task_info(&task).unwrap(), (true, 0));
        Ok(())
    })
    .unwrap();
}
