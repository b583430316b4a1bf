use polkapobal::{ContractError, Polkapobal, SELECTED_PARTICIPANTS};

const DEFAULT_SELECTION_ERA: u32 = 10;
const ALICE: u64 = 1;

#[test]
fn start_new_era_works() {
    let init_block = 10;

    let mut contract = Polkapobal::new(DEFAULT_SELECTION_ERA, ALICE, init_block);

    let mut members: Vec<u64> = Vec::new();

    let num_members: u64 = 100;
    // register 100 members with ids 0..99
    for i in 0..num_members {
        members.push(i);
        contract.register_member(i).unwrap();
    }

    let mut tasks: Vec<String> = Vec::new();

    let num_tasks: u64 = 100;
    // create 100 tasks
    for i in 0..num_tasks {
        let task = format!("Task {}", i);
        tasks.push(task.clone());

        contract.add_task(ALICE, task).unwrap();
    }

    assert_eq!(contract.members.len(), num_members as usize);
    assert_eq!(contract.members, members);
    assert_eq!(contract.last_selection, init_block);

    // the block height has advanced past the selection interval
    let current_block = init_block + DEFAULT_SELECTION_ERA;
    let event = contract.start_new_era(current_block).unwrap();

    assert_eq!(contract.last_selection, init_block + contract.next_selection);
    assert_eq!(contract.active_participants.len(), 4);
    assert_eq!(contract.active_task.is_some(), true);
    assert_eq!(event.era, current_block);
    assert_eq!(event.participants, contract.active_participants);
}

#[test]
fn selection_is_deterministic() {
    let mut contract = Polkapobal::new(DEFAULT_SELECTION_ERA, ALICE, 0);

    for i in 0..10u64 {
        contract.register_member(i).unwrap();
    }
    for i in 0..3u64 {
        contract.add_task(ALICE, format!("Task {}", i)).unwrap();
    }

    // at block 13: members[(13 + i) % 10] for each of the 4 slots,
    // and tasks[13 % 3]
    let event = contract.start_new_era(13).unwrap();

    assert_eq!(contract.active_participants, vec![3, 4, 5, 6]);
    assert_eq!(event.task, String::from("Task 1"));
    assert_eq!(contract.active_task, Some((String::from("Task 1"), false)));
}

#[test]
fn duplicate_participants_when_few_members() {
    // fewer members than selection slots: duplicates are allowed
    let mut contract = Polkapobal::new(DEFAULT_SELECTION_ERA, ALICE, 0);

    contract.register_member(ALICE).unwrap();
    contract.add_task(ALICE, String::from("Task")).unwrap();

    contract.start_new_era(DEFAULT_SELECTION_ERA).unwrap();

    assert_eq!(contract.active_participants.len(), SELECTED_PARTICIPANTS);
    assert_eq!(contract.active_participants, vec![ALICE; 4]);
}

#[test]
fn upload_completion_proof_works() {
    let mut contract = Polkapobal::new(DEFAULT_SELECTION_ERA, ALICE, 0);

    let task = String::from("Task");
    let proof_hash: u64 = 1;

    let num_members: u64 = 4;
    for i in 0..num_members {
        contract.register_member(i).unwrap();
    }

    contract.add_task(3, task.clone()).unwrap();
    contract.start_new_era(DEFAULT_SELECTION_ERA).unwrap();

    // alice is among the selected participants: members[(10 + i) % 4]
    // covers every one of the 4 registered members
    contract.upload_completion_proof(ALICE, proof_hash).unwrap();

    assert_eq!(contract.proof_for(&task).unwrap(), proof_hash);
}

#[test]
fn upload_overwrites_earlier_proof() {
    let mut contract = Polkapobal::new(DEFAULT_SELECTION_ERA, ALICE, 0);

    let task = String::from("Task");
    for i in 0..4u64 {
        contract.register_member(i).unwrap();
    }
    contract.add_task(ALICE, task.clone()).unwrap();
    contract.start_new_era(DEFAULT_SELECTION_ERA).unwrap();

    contract.upload_completion_proof(2, 7).unwrap();
    contract.upload_completion_proof(3, 9).unwrap();

    assert_eq!(contract.proof_for(&task).unwrap(), 9);
}

#[test]
fn zero_interval_allows_immediate_era() {
    // no minimum bound is enforced on the interval
    let mut contract = Polkapobal::new(DEFAULT_SELECTION_ERA, ALICE, 0);
    contract.register_member(ALICE).unwrap();
    contract.add_task(ALICE, String::from("Task")).unwrap();

    contract.set_selection_era(ALICE, 0).unwrap();
    let result = contract.start_new_era(0);

    assert!(result.is_ok());
    assert_eq!(contract.last_selection, 0);
}

#[test]
fn start_new_era_when_era_not_reached_panics() {
    let mut contract = Polkapobal::new(DEFAULT_SELECTION_ERA, ALICE, 20);

    let result = contract.start_new_era(20);

    assert_eq!(result, Err(ContractError::EraNotReached));
    // nothing changed
    assert_eq!(contract.active_participants.len(), 0);
    assert_eq!(contract.active_task, None);
    assert_eq!(contract.last_selection, 20);
}

#[test]
fn start_new_era_with_empty_members_panics() {
    let mut contract = Polkapobal::new(DEFAULT_SELECTION_ERA, ALICE, 0);

    let result = contract.start_new_era(DEFAULT_SELECTION_ERA);

    assert_eq!(result, Err(ContractError::NoMembers));
}

#[test]
fn start_new_era_with_empty_tasks_panics() {
    let mut contract = Polkapobal::new(DEFAULT_SELECTION_ERA, ALICE, 0);
    contract.register_member(ALICE).unwrap();

    let result = contract.start_new_era(DEFAULT_SELECTION_ERA);

    assert_eq!(result, Err(ContractError::NoTasks));
}

#[test]
fn start_new_era_with_task_in_flight_fails() {
    let mut contract = Polkapobal::new(DEFAULT_SELECTION_ERA, ALICE, 0);
    contract.register_member(ALICE).unwrap();
    contract.add_task(ALICE, String::from("Task")).unwrap();

    contract.start_new_era(DEFAULT_SELECTION_ERA).unwrap();
    let first_selection = contract.last_selection;

    // the selected task was never completed
    let result = contract.start_new_era(2 * DEFAULT_SELECTION_ERA);

    assert_eq!(result, Err(ContractError::TaskIncomplete));
    assert_eq!(contract.last_selection, first_selection);
}

#[test]
fn upload_completion_proof_not_participant_panics() {
    let mut contract = Polkapobal::new(DEFAULT_SELECTION_ERA, ALICE, 0);

    let task = String::from("Task");
    let proof_hash: u64 = 1;

    contract.register_member(ALICE).unwrap();
    contract.add_task(ALICE, task.clone()).unwrap();

    let result = contract.upload_completion_proof(ALICE, proof_hash);

    assert_eq!(result, Err(ContractError::NotActiveParticipant));
    assert_eq!(contract.proof_for(&task), None);
}
