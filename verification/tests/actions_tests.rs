use midnight_ledger::actions::{apply_actions, ActionEvent, CallOutcome, ContractAction, ContractDeploy};
use midnight_ledger::contract_state::{ContractMaintenanceAuthority, ContractState};
use midnight_ledger::hash::{night, ContractAddress, HashOutput, TokenType};
use midnight_ledger::intent::{ContractCall, Effects};
use midnight_ledger::ledger::TransactionInvalid;
use midnight_ledger::maintenance::{MaintenanceUpdate, SingleUpdate};
use midnight_ledger::vm::StackValue;

fn addr(b: u8) -> ContractAddress {
    ContractAddress(HashOutput([b; 32]))
}

fn effects(inputs: Vec<(TokenType, u128)>, outputs: Vec<(TokenType, u128)>) -> Effects {
    Effects {
        claimed_nullifiers: vec![],
        claimed_shielded_receives: vec![],
        claimed_shielded_spends: vec![],
        claimed_contract_calls: vec![],
        shielded_mints: vec![],
        unshielded_mints: vec![],
        unshielded_inputs: inputs,
        unshielded_outputs: outputs,
        claimed_unshielded_spends: vec![],
    }
}

fn call(a: ContractAddress, guaranteed: Option<Effects>, fallible: Option<Effects>) -> ContractAction {
    ContractAction::Call(ContractCall {
        address: a,
        ep_hash: HashOutput([1; 32]),
        communication_commitment: HashOutput([2; 32]),
        guaranteed_transcript: guaranteed,
        fallible_transcript: fallible,
    })
}

fn deploy(a: ContractAddress) -> ContractAction {
    ContractAction::Deploy(ContractDeploy { address: a, initial_state: ContractState::new(ContractMaintenanceAuthority::new()) })
}

fn ran(logged: Vec<StackValue>) -> Option<CallOutcome> {
    Some(CallOutcome { effects_as_declared: true, logged })
}

#[test]
fn deploy_then_call_moves_balance_and_logs() {
    let night = TokenType::Unshielded(night());
    let actions = vec![deploy(addr(5)), call(addr(5), None, Some(effects(vec![(night, 10)], vec![(night, 4)])))];
    let outcomes = vec![None, ran(vec![StackValue::Null])];
    let (cs, evs) = apply_actions(&vec![], &actions, false, &None, &outcomes).unwrap();
    assert_eq!(cs.len(), 1);
    assert_eq!(cs[0].0 .0 .0, [5u8; 32]);
    assert_eq!(cs[0].1.balance.get(&night), Some(6));
    assert_eq!(evs.len(), 2);
    assert!(matches!(evs[0], ActionEvent::ContractDeploy { address } if address.0 .0 == [5u8; 32]));
    assert!(matches!(&evs[1], ActionEvent::ContractLog { address, logged: StackValue::Null } if address.0 .0 == [5u8; 32]));
}

#[test]
fn deploys_are_skipped_in_the_guaranteed_part() {
    let (cs, evs) = apply_actions(&vec![], &vec![deploy(addr(5))], true, &None, &vec![None]).unwrap();
    assert!(cs.is_empty());
    assert!(evs.is_empty());
}

#[test]
fn deploying_twice_fails() {
    let actions = vec![deploy(addr(5)), deploy(addr(5))];
    match apply_actions(&vec![], &actions, false, &None, &vec![None, None]) {
        Err(TransactionInvalid::ContractAlreadyDeployed(a)) => assert_eq!(a.0 .0, [5u8; 32]),
        other => panic!("unexpected {:?}", other.err()),
    }
}

#[test]
fn calling_a_missing_contract_fails_and_whitelist_skips() {
    let night = TokenType::Unshielded(night());
    let actions = vec![call(addr(7), Some(effects(vec![(night, 1)], vec![])), None)];
    match apply_actions(&vec![], &actions, true, &None, &vec![ran(vec![])]) {
        Err(TransactionInvalid::ContractNotPresent(a)) => assert_eq!(a.0 .0, [7u8; 32]),
        other => panic!("unexpected {:?}", other.err()),
    }
    let (cs, _) = apply_actions(&vec![], &actions, true, &Some(vec![addr(8)]), &vec![ran(vec![])]).unwrap();
    assert!(cs.is_empty());
}

#[test]
fn failed_or_mismatched_runs_are_refused() {
    let night = TokenType::Unshielded(night());
    let contracts = vec![(addr(5), ContractState::new(ContractMaintenanceAuthority::new()))];
    let actions = vec![call(addr(5), Some(effects(vec![(night, 1)], vec![])), None)];
    match apply_actions(&contracts, &actions, true, &None, &vec![None]) {
        Err(TransactionInvalid::TranscriptRejected(a)) => assert_eq!(a.0 .0, [5u8; 32]),
        other => panic!("unexpected {:?}", other.err()),
    }
    let mismatch = vec![Some(CallOutcome { effects_as_declared: false, logged: vec![] })];
    match apply_actions(&contracts, &actions, true, &None, &mismatch) {
        Err(TransactionInvalid::EffectsMismatch(a)) => assert_eq!(a.0 .0, [5u8; 32]),
        other => panic!("unexpected {:?}", other.err()),
    }
    let overdraw = vec![call(addr(5), Some(effects(vec![], vec![(night, 1)])), None)];
    assert!(matches!(
        apply_actions(&contracts, &overdraw, true, &None, &vec![ran(vec![])]),
        Err(TransactionInvalid::BalanceCheckOutOfBounds { .. })
    ));
}

#[test]
fn maintenance_in_the_fallible_part_bumps_the_counter() {
    let contracts = vec![(addr(5), ContractState::new(ContractMaintenanceAuthority::new()))];
    let upd = MaintenanceUpdate {
        address: addr(5),
        updates: vec![SingleUpdate::ReplaceAuthority(ContractMaintenanceAuthority { committee: vec![], threshold: 2, counter: 1 })],
        counter: 0,
        signatures: vec![],
    };
    let (cs, _) = apply_actions(&contracts, &vec![ContractAction::Maintain(upd)], false, &None, &vec![None]).unwrap();
    assert_eq!(cs[0].1.maintenance_authority.threshold, 2);
    let stale = MaintenanceUpdate { address: addr(5), updates: vec![], counter: 3, signatures: vec![] };
    match apply_actions(&contracts, &vec![ContractAction::Maintain(stale)], false, &None, &vec![None]) {
        Err(TransactionInvalid::ReplayCounterMismatch(a)) => assert_eq!(a.0 .0, [5u8; 32]),
        other => panic!("unexpected {:?}", other.err()),
    }
}
