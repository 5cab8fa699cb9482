use midnight_ledger::balance::MalformedTransaction;
use midnight_ledger::transaction::WellFormedStrictness;
use midnight_ledger::disjoint::DisjointCheckError;
use midnight_ledger::dust::{DustEvent, DustPublicKey, DustState, InitialNonce};
use midnight_ledger::hash::{HashOutput, IntentHash, UnshieldedTokenType, UserAddress};
use midnight_ledger::intent::{DustActions, DustRegistration, Intent, StandardTransaction, Transaction, ZswapInput, ZswapOffer, ZswapOutput, ZswapTransient};
use midnight_ledger::ledger::{ClaimKind, ClaimRewardsTransaction};
use midnight_ledger::replay::{ReplayProtectionState, TransactionApplicationError};
use midnight_ledger::state_value::{ArrayPushError, StateValue};
use midnight_ledger::utxo::{UnshieldedOffer, Utxo, UtxoMeta, UtxoOutput, UtxoSpend, UtxoState};
use midnight_ledger::dust::initial_dust_parameters;
use midnight_ledger::ledger::TransactionInvalid;

fn h(b: u8) -> HashOutput {
    HashOutput([b; 32])
}

fn intent(ttl: u64) -> Intent {
    Intent { guaranteed_unshielded_offer: None, fallible_unshielded_offer: None, calls: vec![], dust_actions: None, ttl }
}

fn tx(intents: Vec<(u16, Intent)>, guaranteed_coins: Option<ZswapOffer>, fallible_coins: Vec<(u16, ZswapOffer)>) -> StandardTransaction {
    StandardTransaction { network_id: "local-test".to_string(), intents, guaranteed_coins, fallible_coins }
}

/// A cell holding a zero of the given width: its serialized size.
fn zero_cell(_width: u32) -> StateValue {
    StateValue::Cell { serialized_size: 2 }
}

/// An array of `n` cells each holding a `u32` one.
fn array_of(n: usize) -> StateValue {
    let mut v = Vec::new();
    for _ in 0..n {
        v.push(StateValue::Cell { serialized_size: 5 });
    }
    StateValue::Array(v)
}

#[test]
fn test_log_size() {
    assert_eq!(StateValue::Null.log_size(), 0);

    // a cell holding a zero of 8, 16, 32 or 64 bits serializes to two bytes
    assert_eq!(zero_cell(8).log_size(), 1);
    assert_eq!(zero_cell(16).log_size(), 1);
    assert_eq!(zero_cell(32).log_size(), 1);
    assert_eq!(zero_cell(64).log_size(), 1);

    assert_eq!(StateValue::MapValue { size: 0 }.log_size(), 0);
    assert_eq!(StateValue::MapValue { size: 3 }.log_size(), 2);
    assert_eq!(StateValue::MapValue { size: 4 }.log_size(), 2);
    assert_eq!(StateValue::MapValue { size: 5 }.log_size(), 3);
    assert_eq!(StateValue::MapValue { size: 7 }.log_size(), 3);
    assert_eq!(StateValue::MapValue { size: 8 }.log_size(), 3);
    assert_eq!(StateValue::MapValue { size: 9 }.log_size(), 4);

    assert_eq!(array_of(0).log_size(), 0);
    assert_eq!(array_of(3).log_size(), 2);
    assert_eq!(array_of(4).log_size(), 2);
    assert_eq!(array_of(7).log_size(), 3);
    assert_eq!(array_of(8).log_size(), 3);
    assert_eq!(array_of(15).log_size(), 4);
    assert_eq!(array_of(16).log_size(), 4);

    for h in 0..16u8 {
        assert_eq!(StateValue::BoundedMerkleTree { height: h }.log_size(), h as usize);
    }
}

#[test]
fn log_size_at_the_edges() {
    assert_eq!(StateValue::Cell { serialized_size: 1 }.log_size(), 0);
    assert_eq!(StateValue::Cell { serialized_size: 5 }.log_size(), 3);
    assert_eq!(StateValue::MapValue { size: u64::MAX }.log_size(), 64);
    assert_eq!(StateValue::MapValue { size: 1u64 << 63 }.log_size(), 63);
}

#[test]
fn disjoint_check_accepts_distinct_offers() {
    let g = ZswapOffer {
        inputs: vec![ZswapInput { nullifier: h(1), contract_address: None }],
        outputs: vec![ZswapOutput { coin_com: h(2), contract_address: None }],
        transient: vec![],
        deltas: vec![],
    };
    let f = ZswapOffer {
        inputs: vec![ZswapInput { nullifier: h(3), contract_address: None }],
        outputs: vec![ZswapOutput { coin_com: h(4), contract_address: None }],
        transient: vec![],
        deltas: vec![],
    };
    assert!(tx(vec![], Some(g), vec![(1, f)]).disjoint_check().is_ok());
}

#[test]
fn disjoint_check_refuses_repeated_shielded_input() {
    let g = ZswapOffer {
        inputs: vec![ZswapInput { nullifier: h(1), contract_address: None }],
        outputs: vec![],
        transient: vec![],
        deltas: vec![],
    };
    // the fallible offer spends the same coin through a transient
    let f = ZswapOffer {
        inputs: vec![],
        outputs: vec![],
        transient: vec![ZswapTransient { nullifier: h(1), coin_com: h(9), contract_address: None }],
        deltas: vec![],
    };
    match tx(vec![], Some(g), vec![(1, f)]).disjoint_check() {
        Err(DisjointCheckError::ShieldedInputsDisjointFailure { shielded_inputs, transient_inputs }) => {
            assert_eq!(shielded_inputs.len(), 1);
            assert_eq!(transient_inputs.len(), 1);
        }
        other => panic!("unexpected: {:?}", other),
    }
}

#[test]
fn disjoint_check_refuses_repeated_shielded_output() {
    let out = ZswapOutput { coin_com: h(2), contract_address: None };
    let a = ZswapOffer { inputs: vec![], outputs: vec![out], transient: vec![], deltas: vec![] };
    let b = ZswapOffer { inputs: vec![], outputs: vec![out], transient: vec![], deltas: vec![] };
    assert!(matches!(
        tx(vec![], None, vec![(1, a), (2, b)]).disjoint_check(),
        Err(DisjointCheckError::ShieldedOutputsDisjointFailure { .. })
    ));
}

fn spend(b: u8) -> UtxoSpend {
    UtxoSpend { value: 5, owner: UserAddress(h(b)), type_: UnshieldedTokenType(h(0)), intent_hash: IntentHash(h(b)), output_no: 0 }
}

#[test]
fn disjoint_check_refuses_unshielded_input_spent_twice() {
    let mut i1 = intent(10);
    i1.guaranteed_unshielded_offer = Some(UnshieldedOffer { inputs: vec![spend(1)], outputs: vec![], signatures: vec![] });
    let mut i2 = intent(10);
    i2.fallible_unshielded_offer = Some(UnshieldedOffer { inputs: vec![spend(2), spend(1)], outputs: vec![], signatures: vec![] });
    match tx(vec![(1, i1), (2, i2)], None, vec![]).disjoint_check() {
        Err(DisjointCheckError::UnshieldedInputsDisjointFailure { unshielded_inputs, offer_inputs }) => {
            assert_eq!(unshielded_inputs.len(), 1);
            assert_eq!(offer_inputs.len(), 2);
        }
        other => panic!("unexpected: {:?}", other),
    }
}

#[test]
fn apply_tx_records_intents_and_refuses_replays() {
    let t = tx(vec![(1, intent(110)), (2, intent(120))], None, vec![]);
    let hashes = vec![IntentHash(h(1)), IntentHash(h(2))];
    let st = ReplayProtectionState::new().apply_tx(&t, &hashes, 100, 50).unwrap();
    assert!(st.contains(&IntentHash(h(1))));
    assert!(st.contains(&IntentHash(h(2))));
    match st.apply_tx(&t, &hashes, 101, 50) {
        Err(e) => assert_eq!(e, TransactionApplicationError::IntentAlreadyExists),
        Ok(_) => panic!("replay accepted"),
    }
}

#[test]
fn apply_tx_refuses_expired_intent() {
    let t = tx(vec![(1, intent(110)), (2, intent(90))], None, vec![]);
    let hashes = vec![IntentHash(h(1)), IntentHash(h(2))];
    match ReplayProtectionState::new().apply_tx(&t, &hashes, 100, 50) {
        Err(e) => assert_eq!(e, TransactionApplicationError::IntentTtlExpired(90, 100)),
        Ok(_) => panic!("expired intent accepted"),
    }
}

#[test]
fn dust_apply_offer_starts_and_stops_generation() {
    let owner = UserAddress(h(7));
    let dust_key = DustPublicKey(h(8));
    let mut st = DustState::new();
    st.address_delegation.insert(owner, dust_key);
    let night = UnshieldedTokenType(HashOutput([0u8; 32]));
    let offer = UnshieldedOffer { inputs: vec![], outputs: vec![UtxoOutput { value: 1000, owner, type_: night }], signatures: vec![] };
    let (st2, evs) = st.apply_offer(&offer, &vec![], &vec![InitialNonce(h(9))], &intent(0), 1, 50).unwrap();
    assert_eq!(evs.len(), 1);
    assert!(matches!(evs[0], DustEvent::InitialUtxo { .. }));
    assert_eq!(st2.generating_tree.len(), 1);
    assert_eq!(st2.generating_tree[0].value, 1000);
    // spending that output stops its generation
    let spend_offer = UnshieldedOffer {
        inputs: vec![UtxoSpend { value: 1000, owner, type_: night, intent_hash: IntentHash(h(3)), output_no: 0 }],
        outputs: vec![],
        signatures: vec![],
    };
    let (st3, evs3) = st2.apply_offer(&spend_offer, &vec![InitialNonce(h(9))], &vec![], &intent(0), 1, 80).unwrap();
    assert_eq!(evs3.len(), 1);
    assert_eq!(st3.generating_tree[0].dtime, 80);
}

#[test]
fn dust_apply_offer_leaves_registered_owner_to_registration() {
    let owner = UserAddress(h(7));
    let mut st = DustState::new();
    st.address_delegation.insert(owner, DustPublicKey(h(8)));
    let night = UnshieldedTokenType(HashOutput([0u8; 32]));
    let offer = UnshieldedOffer { inputs: vec![], outputs: vec![UtxoOutput { value: 1000, owner, type_: night }], signatures: vec![] };
    let mut parent = intent(0);
    parent.dust_actions = Some(DustActions {
        spends: vec![],
        registrations: vec![DustRegistration { night_key: owner, dust_address: Some(DustPublicKey(h(8))), allow_fee_payment: 0 }],
        ctime: 0,
    });
    let (st2, evs) = st.apply_offer(&offer, &vec![], &vec![InitialNonce(h(9))], &parent, 0, 50).unwrap();
    assert!(evs.is_empty());
    assert!(st2.generating_tree.is_empty());
    // in a fallible segment the registration does not cover it
    let (st3, evs3) = st.apply_offer(&offer, &vec![], &vec![InitialNonce(h(9))], &parent, 2, 50).unwrap();
    assert_eq!(evs3.len(), 1);
    assert_eq!(st3.generating_tree.len(), 1);
}

#[test]
fn ttl_check_weak_reports_first_bad_intent() {
    let t = tx(vec![(1, intent(100)), (2, intent(300)), (3, intent(50))], None, vec![]);
    assert_eq!(t.ttl_check_weak(90, 100), Err(TransactionApplicationError::IntentTtlTooFarInFuture(300, 190)));
    assert_eq!(t.ttl_check_weak(90, 300), Err(TransactionApplicationError::IntentTtlExpired(50, 90)));
    assert!(t.ttl_check_weak(50, 250).is_ok());
}

#[test]
fn well_formed_structure_runs_checks_in_order() {
    let strict = WellFormedStrictness::default();
    let ok = tx(vec![(1, intent(100))], None, vec![]);
    assert!(ok.well_formed_structure(&"local-test".to_string(), strict, 90, 100, 0).is_ok());
    match ok.well_formed_structure(&"other".to_string(), strict, 90, 100, 0) {
        Err(MalformedTransaction::InvalidNetworkId { expected, found }) => {
            assert_eq!(expected, "other");
            assert_eq!(found, "local-test");
        }
        other => panic!("unexpected: {:?}", other),
    }
    assert!(matches!(
        ok.well_formed_structure(&"local-test".to_string(), strict, 200, 100, 0),
        Err(MalformedTransaction::TransactionApplicationError(TransactionApplicationError::IntentTtlExpired(100, 200)))
    ));
    let zero = tx(vec![(0, intent(100))], None, vec![]);
    assert!(matches!(
        zero.well_formed_structure(&"local-test".to_string(), strict, 90, 100, 0),
        Err(MalformedTransaction::IllegallyDeclaredGuaranteed)
    ));
    // an unpaid fee is an overspend of DUST in segment zero
    assert!(matches!(
        ok.well_formed_structure(&"local-test".to_string(), strict, 90, 100, 5),
        Err(MalformedTransaction::BalanceCheckOverspend { overspent_value: -5, .. })
    ));
    let relaxed = WellFormedStrictness { enforce_balancing: false, ..strict };
    assert!(ok.well_formed_structure(&"local-test".to_string(), relaxed, 90, 100, 5).is_ok());
}

fn registration_fixture(outputs: Vec<UtxoOutput>, dust_address: Option<DustPublicKey>) -> (DustState, UtxoState, Intent, DustRegistration) {
    let owner = UserAddress(h(7));
    let night = UnshieldedTokenType(HashOutput([0u8; 32]));
    let input = UtxoSpend { value: 1000, owner, type_: night, intent_hash: IntentHash(h(3)), output_no: 0 };
    let mut utxos = UtxoState::new();
    utxos.insert(Utxo::from_spend(&input), UtxoMeta { ctime: 100 });
    let reg = DustRegistration { night_key: owner, dust_address, allow_fee_payment: 1_000_000 };
    let mut parent = intent(0);
    parent.guaranteed_unshielded_offer = Some(UnshieldedOffer { inputs: vec![input], outputs, signatures: vec![] });
    parent.dust_actions = Some(DustActions { spends: vec![], registrations: vec![reg], ctime: 200 });
    (DustState::new(), utxos, parent, reg)
}

#[test]
fn generationless_fee_availability_accrues_from_creation() {
    let (st, utxos, parent, reg) = registration_fixture(vec![], Some(DustPublicKey(h(8))));
    let params = initial_dust_parameters();
    // 100 seconds at 1000 * 8267 per second, below the cap of 1000 * 5e9
    assert_eq!(st.generationless_fee_availability(&utxos, &parent, &reg.night_key, &vec![InitialNonce(h(1))], &params), 826_700_000);
    // another owner's inputs accrue nothing for this one
    assert_eq!(st.generationless_fee_availability(&utxos, &parent, &UserAddress(h(9)), &vec![InitialNonce(h(1))], &params), 0);
}

#[test]
fn apply_registration_pays_fees_and_distributes_dust() {
    let owner = UserAddress(h(7));
    let night = UnshieldedTokenType(HashOutput([0u8; 32]));
    let outputs = vec![UtxoOutput { value: 300, owner, type_: night }, UtxoOutput { value: 700, owner, type_: night }];
    let (st, utxos, parent, reg) = registration_fixture(outputs, Some(DustPublicKey(h(8))));
    let params = initial_dust_parameters();
    let (st2, fees_left, evs) = st
        .apply_registration(&utxos, 300_000, &parent, &reg, &vec![InitialNonce(h(1))], &vec![InitialNonce(h(4)), InitialNonce(h(5))], &params, 200, 210)
        .unwrap();
    assert_eq!(fees_left, 0);
    assert_eq!(st2.address_delegation.get(&owner).map(|k| k.0 .0), Some([8u8; 32]));
    assert_eq!(evs.len(), 2);
    match (evs[0], evs[1]) {
        (DustEvent::InitialUtxo { initial_value: a, .. }, DustEvent::InitialUtxo { initial_value: b, .. }) => {
            assert_eq!(a, 247_920_000);
            assert_eq!(b, 578_480_000);
        }
        _ => panic!("expected two new DUST outputs"),
    }
}

#[test]
fn apply_registration_refuses_unknown_deregistration_and_empty_outputs() {
    let params = initial_dust_parameters();
    let (st, utxos, parent, reg) = registration_fixture(vec![], None);
    match st.apply_registration(&utxos, 0, &parent, &reg, &vec![InitialNonce(h(1))], &vec![], &params, 200, 210) {
        Err(TransactionInvalid::DustDeregistrationNotRegistered(a)) => assert_eq!(a.0 .0, [7u8; 32]),
        other => panic!("unexpected: {:?}", other.is_ok()),
    }
    let owner = UserAddress(h(7));
    let night = UnshieldedTokenType(HashOutput([0u8; 32]));
    let (st, utxos, parent, reg) = registration_fixture(vec![UtxoOutput { value: 0, owner, type_: night }], Some(DustPublicKey(h(8))));
    assert!(matches!(
        st.apply_registration(&utxos, 0, &parent, &reg, &vec![InitialNonce(h(1))], &vec![InitialNonce(h(4))], &params, 200, 210),
        Err(TransactionInvalid::DivideByZero)
    ));
}

#[test]
fn segments_are_sorted_and_unique() {
    let offer = ZswapOffer { inputs: vec![], outputs: vec![], transient: vec![], deltas: vec![] };
    let t = tx(vec![(2, intent(0)), (5, intent(0))], None, vec![(1, offer.clone()), (5, offer)]);
    assert_eq!(t.segments(), vec![0, 1, 2, 5]);
    assert_eq!(Transaction::Standard(tx(vec![], None, vec![])).segments(), vec![0]);
}

#[test]
fn claim_has_no_segments_and_no_balance() {
    let claim = Transaction::ClaimRewards(ClaimRewardsTransaction {
        network_id: "local-test".to_string(),
        value: 10,
        owner: UserAddress(h(1)),
        nonce: h(2),
        kind: ClaimKind::Reward,
    });
    assert!(claim.segments().is_empty());
    let m = claim.balance(Some(3)).unwrap();
    assert!(m.keys().is_empty());
}

#[test]
fn intent_offer_getters() {
    let owner = UserAddress(h(7));
    let night = UnshieldedTokenType(HashOutput([0u8; 32]));
    let mut i = intent(0);
    i.fallible_unshielded_offer = Some(UnshieldedOffer {
        inputs: vec![UtxoSpend { value: 4, owner, type_: night, intent_hash: IntentHash(h(3)), output_no: 1 }],
        outputs: vec![UtxoOutput { value: 4, owner, type_: night }],
        signatures: vec![],
    });
    assert!(i.guaranteed_inputs().is_empty());
    assert!(i.guaranteed_outputs().is_empty());
    assert_eq!(i.fallible_inputs().len(), 1);
    assert_eq!(i.fallible_inputs()[0].output_no, 1);
    assert_eq!(i.fallible_outputs()[0].value, 4);
}

#[test]
fn dust_apply_spend_records_nullifier_and_refuses_double_spend() {
    let st = DustState::new();
    let spend = midnight_ledger::intent::DustSpend { v_fee: 12, old_nullifier: h(1), new_commitment: h(2) };
    let (st2, ev) = st.apply_spend(&spend, 40, 50).unwrap();
    match ev {
        DustEvent::DustSpendProcessed { commitment_index, v_fee, declared_time, block_time, .. } => {
            assert_eq!(commitment_index, 0);
            assert_eq!(v_fee, 12);
            assert_eq!(declared_time, 40);
            assert_eq!(block_time, 50);
        }
        _ => panic!("expected a processed spend"),
    }
    assert_eq!(st2.commitments_first_free, 1);
    match st2.apply_spend(&spend, 41, 51) {
        Err(TransactionInvalid::DustDoubleSpend(n)) => assert_eq!(n.0, [1u8; 32]),
        other => panic!("unexpected: {:?}", other.is_ok()),
    }
}

#[test]
fn shielded_offer_getters() {
    let g = ZswapOffer {
        inputs: vec![ZswapInput { nullifier: h(1), contract_address: None }],
        outputs: vec![ZswapOutput { coin_com: h(2), contract_address: None }],
        transient: vec![],
        deltas: vec![],
    };
    let f1 = ZswapOffer {
        inputs: vec![ZswapInput { nullifier: h(3), contract_address: None }],
        outputs: vec![],
        transient: vec![ZswapTransient { nullifier: h(4), coin_com: h(5), contract_address: None }],
        deltas: vec![],
    };
    let f2 = ZswapOffer {
        inputs: vec![ZswapInput { nullifier: h(6), contract_address: None }],
        outputs: vec![ZswapOutput { coin_com: h(7), contract_address: None }],
        transient: vec![],
        deltas: vec![],
    };
    let t = tx(vec![], Some(g), vec![(1, f1), (2, f2)]);
    let ins: Vec<[u8; 32]> = t.inputs().iter().map(|i| i.nullifier.0).collect();
    assert_eq!(ins, vec![[1u8; 32], [3u8; 32], [6u8; 32]]);
    assert_eq!(t.fallible_inputs().len(), 2);
    assert_eq!(t.guaranteed_outputs().len(), 1);
    assert_eq!(t.outputs().len(), 2);
    assert_eq!(t.transients().len(), 1);
    assert!(t.guaranteed_transients().is_empty());
    assert_eq!(t.fallible_transients()[0].coin_com.0, [5u8; 32]);
    assert_eq!(t.fallible_outputs()[0].coin_com.0, [7u8; 32]);
    assert_eq!(t.guaranteed_inputs()[0].nullifier.0, [1u8; 32]);
}

#[test]
fn array_push_grows_arrays_up_to_fifteen() {
    let a = array_of(14);
    let b = a.array_push(StateValue::MapValue { size: 2 }).unwrap();
    match &b {
        StateValue::Array(v) => {
            assert_eq!(v.len(), 15);
            assert_eq!(v[0], StateValue::Cell { serialized_size: 5 });
            assert_eq!(v[14], StateValue::MapValue { size: 2 });
        }
        _ => panic!("expected an array"),
    }
    assert_eq!(b.type_(), "array");
    assert_eq!(b.array_push(StateValue::Null), Err(ArrayPushError::TooLong));
    assert_eq!(StateValue::Null.array_push(StateValue::Null), Err(ArrayPushError::NotAnArray));
    assert_eq!(StateValue::MapValue { size: 1 }.type_(), "map");
}
