use midnight_ledger::balance::MalformedTransaction;
use midnight_ledger::contract_state::{
    ContractMaintenanceAuthority, ContractOperation, ContractOperationVersion, ContractOperationVersionedVerifierKey, ContractState, EntryPointBuf,
    VerifierKey,
};
use midnight_ledger::ledger::TransactionInvalid;
use midnight_ledger::balance::BalanceOperation;
use midnight_ledger::hash::{ContractAddress, HashOutput, TokenType, UnshieldedTokenType};
use midnight_ledger::intent::Effects;
use midnight_ledger::maintenance::{MaintenanceUpdate, SignaturesValue, SingleUpdate};
use midnight_ledger::transaction::WellFormedStrictness;

fn h(b: u8) -> HashOutput {
    HashOutput([b; 32])
}

fn authority(members: u8, threshold: u32, counter: u32) -> ContractMaintenanceAuthority {
    ContractMaintenanceAuthority { committee: (0..members).map(h).collect(), threshold, counter }
}

fn update(signers: &[u32], updates: Vec<SingleUpdate>) -> MaintenanceUpdate {
    MaintenanceUpdate {
        address: ContractAddress(h(1)),
        updates,
        counter: 3,
        signatures: signers.iter().map(|i| SignaturesValue(*i, vec![0u8; 64])).collect(),
    }
}

#[test]
fn maintenance_update_meeting_the_threshold() {
    let u = update(&[0, 2], vec![SingleUpdate::ReplaceAuthority(authority(2, 1, 4))]);
    assert!(u.well_formed(&authority(3, 2, 3), WellFormedStrictness::default(), &vec![true, true]).is_ok());
}

#[test]
fn maintenance_signers_must_increase() {
    let u = update(&[1, 1], vec![]);
    assert!(matches!(
        u.well_formed(&authority(3, 1, 3), WellFormedStrictness::default(), &vec![true, true]),
        Err(MalformedTransaction::NotNormalized)
    ));
}

#[test]
fn new_authority_takes_the_next_counter() {
    let u = update(&[0], vec![SingleUpdate::VerifierKeyRemove(EntryPointBuf(b"go".to_vec()), ContractOperationVersion::V3), SingleUpdate::ReplaceAuthority(authority(1, 1, 3))]);
    assert!(matches!(
        u.well_formed(&authority(1, 1, 3), WellFormedStrictness::default(), &vec![true]),
        Err(MalformedTransaction::NotNormalized)
    ));
}

#[test]
fn maintenance_signature_failures_in_order() {
    // the first signature does not verify: it is reported before the unknown signer
    let u = update(&[0, 7], vec![]);
    match u.well_formed(&authority(3, 1, 3), WellFormedStrictness::default(), &vec![false, true]) {
        Err(MalformedTransaction::InvalidCommitteeSignature { key_id, .. }) => assert_eq!(key_id, 0),
        _ => panic!("expected an invalid signature"),
    }
    // without signature verification, the unknown signer is reported
    let mut lax = WellFormedStrictness::default();
    lax.verify_signatures = false;
    match u.well_formed(&authority(3, 1, 3), lax, &vec![false, true]) {
        Err(MalformedTransaction::KeyNotInCommittee { key_id, .. }) => assert_eq!(key_id, 7),
        _ => panic!("expected an unknown signer"),
    }
}

#[test]
fn maintenance_threshold_missed() {
    let u = update(&[1], vec![]);
    match u.well_formed(&authority(3, 2, 3), WellFormedStrictness::default(), &vec![true]) {
        Err(MalformedTransaction::ThresholdMissed { signatures, threshold, .. }) => assert_eq!((signatures, threshold), (1, 2)),
        _ => panic!("expected the threshold to be missed"),
    }
}

fn key(b: u8) -> ContractOperationVersionedVerifierKey {
    ContractOperationVersionedVerifierKey::V3(VerifierKey(vec![b; 4]))
}

fn state_with(ep: &[u8], counter: u32) -> ContractState {
    let mut st = ContractState::new(authority(2, 1, counter));
    st.operations.push((EntryPointBuf(ep.to_vec()), ContractOperation::new(Some(VerifierKey(vec![1; 4])))));
    st
}

#[test]
fn maintenance_update_changes_keys_and_counter() {
    let st = state_with(b"mint", 3);
    let u = update(
        &[0],
        vec![
            SingleUpdate::VerifierKeyRemove(EntryPointBuf(b"mint".to_vec()), ContractOperationVersion::V3),
            SingleUpdate::VerifierKeyInsert(EntryPointBuf(b"burn".to_vec()), key(9)),
        ],
    );
    let st2 = u.apply(&st).unwrap();
    assert_eq!(st2.maintenance_authority.counter, 4);
    assert!(st2.operation(&EntryPointBuf(b"mint".to_vec())).is_none());
    let burn = st2.operation(&EntryPointBuf(b"burn".to_vec())).unwrap();
    assert_eq!(burn.v2.as_ref().map(|k| k.0.clone()), Some(vec![9u8; 4]));
    // the same update again no longer matches the counter
    assert!(matches!(u.apply(&st2), Err(TransactionInvalid::ReplayCounterMismatch(_))));
}

#[test]
fn maintenance_update_replaces_the_authority() {
    let st = state_with(b"mint", 3);
    let u = update(&[0], vec![SingleUpdate::ReplaceAuthority(authority(5, 3, 4))]);
    let st2 = u.apply(&st).unwrap();
    assert_eq!(st2.maintenance_authority.committee.len(), 5);
    assert_eq!((st2.maintenance_authority.threshold, st2.maintenance_authority.counter), (3, 4));
}

#[test]
fn maintenance_key_errors() {
    let st = state_with(b"mint", 3);
    let remove_missing = update(&[0], vec![SingleUpdate::VerifierKeyRemove(EntryPointBuf(b"burn".to_vec()), ContractOperationVersion::V3)]);
    match remove_missing.apply(&st) {
        Err(TransactionInvalid::VerifierKeyNotFound(ep, _)) => assert_eq!(ep.0, b"burn".to_vec()),
        _ => panic!("expected a missing key"),
    }
    let insert_present = update(&[0], vec![SingleUpdate::VerifierKeyInsert(EntryPointBuf(b"mint".to_vec()), key(2))]);
    match insert_present.apply(&st) {
        Err(TransactionInvalid::VerifierKeyAlreadyPresent(ep, v)) => {
            assert_eq!(ep.0, b"mint".to_vec());
            assert_eq!(v, ContractOperationVersion::V3);
        }
        _ => panic!("expected a present key"),
    }
    let wrong_counter = MaintenanceUpdate { counter: 2, ..update(&[0], vec![]) };
    assert!(matches!(wrong_counter.apply(&st), Err(TransactionInvalid::ReplayCounterMismatch(_))));
}

#[test]
fn contract_state_well_formedness() {
    let addr = ContractAddress(h(1));
    assert!(state_with(b"mint", 0).well_formed(addr).is_ok());
    assert!(matches!(state_with(b"mint", 1).well_formed(addr), Err(MalformedTransaction::NotNormalized)));
    let mut st = state_with(b"mint", 1);
    st.operations.push((EntryPointBuf(b"burn".to_vec()), ContractOperation::new(None)));
    match st.well_formed(addr) {
        Err(MalformedTransaction::VerifierKeyNotSet { operation, .. }) => assert_eq!(operation.0, b"burn".to_vec()),
        _ => panic!("expected a missing verifier key"),
    }
}

fn effects(inputs: Vec<(TokenType, u128)>, outputs: Vec<(TokenType, u128)>) -> Effects {
    Effects {
        claimed_nullifiers: vec![],
        claimed_shielded_receives: vec![],
        claimed_shielded_spends: vec![],
        claimed_contract_calls: vec![],
        shielded_mints: vec![],
        unshielded_mints: vec![],
        unshielded_inputs: inputs,
        unshielded_outputs: outputs,
        claimed_unshielded_spends: vec![],
    }
}

#[test]
fn call_effects_move_contract_balance() {
    let night = TokenType::Unshielded(UnshieldedTokenType(h(0)));
    let st = state_with(b"mint", 0);
    let b = st.effects_balance(&effects(vec![(night, 10), (TokenType::Dust, 4), (night, 5)], vec![(night, 12)])).unwrap();
    assert_eq!(b.get(&night), Some(3));
    assert_eq!(b.get(&TokenType::Dust), Some(4));
    // taking out more than the contract holds fails, naming the balance at the time
    match st.effects_balance(&effects(vec![(night, 10)], vec![(night, 11)])) {
        Err(TransactionInvalid::BalanceCheckOutOfBounds { current_balance, operation_value, operation, .. }) => {
            assert_eq!((current_balance, operation_value), (10, 11));
            assert_eq!(operation, BalanceOperation::Subtraction);
        }
        _ => panic!("expected an overdrawn balance"),
    }
    match st.effects_balance(&effects(vec![(night, u128::MAX), (night, 1)], vec![])) {
        Err(TransactionInvalid::BalanceCheckOutOfBounds { current_balance, operation, .. }) => {
            assert_eq!(current_balance, u128::MAX);
            assert_eq!(operation, BalanceOperation::Addition);
        }
        _ => panic!("expected an overflowing balance"),
    }
}
