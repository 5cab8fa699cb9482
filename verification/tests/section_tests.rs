use midnight_ledger::dust::{DustState, InitialNonce};
use midnight_ledger::hash::{night, HashOutput, IntentHash, UserAddress};
use midnight_ledger::intent::{Intent, StandardTransaction};
use midnight_ledger::keyed::{AmountMap, KeyMap};
use midnight_ledger::ledger::{initial_parameters, LedgerState, TransactionInvalid};
use midnight_ledger::replay::{ReplayProtectionState, TransactionApplicationError};
use midnight_ledger::utxo::{UnshieldedOffer, Utxo, UtxoMeta, UtxoOutput, UtxoSpend, UtxoState};

fn held() -> Utxo {
    Utxo {
        value: 30,
        owner: UserAddress(HashOutput([1; 32])),
        type_: night(),
        intent_hash: IntentHash(HashOutput([0; 32])),
        output_no: 0,
    }
}

fn state_with_output() -> LedgerState {
    let mut utxo = UtxoState::new();
    utxo.insert(held(), UtxoMeta { ctime: 0 });
    LedgerState {
        network_id: "n".to_string(),
        parameters: initial_parameters(),
        locked_pool: 0,
        bridge_receiving: AmountMap::new(),
        reserve_pool: 0,
        block_reward_pool: 0,
        unclaimed_block_rewards: AmountMap::new(),
        treasury: KeyMap::new(),
        contract: AmountMap::new(),
        utxo,
        replay_protection: ReplayProtectionState::new(),
        dust: DustState::new(),
    }
}

fn spend_held() -> UnshieldedOffer {
    let a = held();
    UnshieldedOffer {
        inputs: vec![UtxoSpend { value: a.value, owner: a.owner, type_: a.type_, intent_hash: a.intent_hash, output_no: 0 }],
        outputs: vec![
            UtxoOutput { value: 10, owner: UserAddress(HashOutput([2; 32])), type_: night() },
            UtxoOutput { value: 20, owner: UserAddress(HashOutput([3; 32])), type_: night() },
        ],
        signatures: vec![],
    }
}

fn tx_with(guaranteed: Option<UnshieldedOffer>, fallible: Option<UnshieldedOffer>) -> StandardTransaction {
    let intent = Intent { guaranteed_unshielded_offer: guaranteed, fallible_unshielded_offer: fallible, calls: vec![], dust_actions: None, ttl: 50 };
    StandardTransaction { network_id: "n".to_string(), intents: vec![(1, intent)], guaranteed_coins: None, fallible_coins: vec![] }
}

fn nonces(n: usize) -> Vec<InitialNonce> {
    (0..n).map(|i| InitialNonce(HashOutput([i as u8 + 40; 32]))).collect()
}

const HASH: IntentHash = IntentHash(HashOutput([8; 32]));

#[test]
fn guaranteed_section_spends_and_records_intent() {
    let st = state_with_output();
    let tx = tx_with(Some(spend_held()), None);
    let (next, events) = st
        .apply_section(&tx, 0, &vec![HASH], &vec![nonces(1)], &vec![nonces(2)], 0, &UtxoState::new(), 42)
        .unwrap();
    assert!(events.is_empty());
    assert!(!next.utxo.contains_key(&held()));
    let second = Utxo { value: 20, owner: UserAddress(HashOutput([3; 32])), type_: night(), intent_hash: HASH, output_no: 1 };
    assert_eq!(next.utxo.get(&second), Some(UtxoMeta { ctime: 42 }));
    assert_eq!(next.utxo.ann().value, 30);
    assert!(next.replay_protection.contains(&HASH));
    assert!(!st.replay_protection.contains(&HASH));
    // The same section again is a replay.
    match next.apply_section(&tx, 0, &vec![HASH], &vec![nonces(1)], &vec![nonces(2)], 0, &UtxoState::new(), 43) {
        Err(TransactionInvalid::ReplayProtectionViolation(TransactionApplicationError::IntentAlreadyExists)) => {}
        other => panic!("unexpected {:?}", other.err()),
    }
}

#[test]
fn guaranteed_section_with_unknown_input_fails() {
    let mut st = state_with_output();
    st.utxo = UtxoState::new();
    let tx = tx_with(Some(spend_held()), None);
    match st.apply_section(&tx, 0, &vec![HASH], &vec![nonces(1)], &vec![nonces(2)], 0, &UtxoState::new(), 42) {
        Err(TransactionInvalid::InputNotInUtxos(u)) => assert_eq!(u.value, 30),
        other => panic!("unexpected {:?}", other.err()),
    }
}

#[test]
fn fallible_segment_applies_its_offer_only() {
    let st = state_with_output();
    let tx = tx_with(None, Some(spend_held()));
    let (next, _) = st
        .apply_section(&tx, 1, &vec![HASH], &vec![nonces(1)], &vec![nonces(2)], 0, &UtxoState::new(), 42)
        .unwrap();
    assert!(!next.utxo.contains_key(&held()));
    assert_eq!(next.utxo.ann().size, 2);
    assert!(!next.replay_protection.contains(&HASH));
    // A segment without an intent changes nothing.
    let (same, events) = st
        .apply_section(&tx, 2, &vec![HASH], &vec![nonces(1)], &vec![nonces(2)], 0, &UtxoState::new(), 42)
        .unwrap();
    assert!(events.is_empty());
    assert!(same.utxo.contains_key(&held()));
    // The guaranteed section of this transaction holds no offer.
    let (g, _) = st
        .apply_section(&tx, 0, &vec![HASH], &vec![nonces(0)], &vec![nonces(0)], 0, &UtxoState::new(), 42)
        .unwrap();
    assert!(g.utxo.contains_key(&held()));
    assert!(g.replay_protection.contains(&HASH));
}
