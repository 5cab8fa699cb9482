use midnight_ledger::keyed::NightAnn;
use midnight_ledger::hash::{night, HashOutput, IntentHash, UnshieldedTokenType, UserAddress};
use midnight_ledger::utxo::{UnshieldedOffer, Utxo, UtxoError, UtxoMeta, UtxoOutput, UtxoSpend, UtxoState};

fn sample_utxo(n: u128) -> (Utxo, UtxoMeta) {
    (
        Utxo {
            value: n,
            owner: UserAddress(HashOutput([0; 32])),
            type_: night(),
            intent_hash: IntentHash(HashOutput([0; 32])),
            output_no: 0,
        },
        UtxoMeta { ctime: 0 },
    )
}

#[test]
fn insert_updates_annotation() {
    let mut new_state = UtxoState::new();
    let (utxo, meta) = sample_utxo(15);
    new_state.insert(utxo, meta);
    assert!(new_state.contains_key(&utxo));
    let ann = new_state.ann();
    assert_eq!(ann.size, 1);
    assert_eq!(ann.value, 15);
}

#[test]
fn remove_updates_annotation() {
    let (utxo, meta) = sample_utxo(100);
    let mut state = UtxoState::new();
    state.insert(utxo, meta);
    state.remove(&utxo);
    assert!(!state.contains_key(&utxo));
    let ann = state.ann();
    assert_eq!(ann.size, 0);
    assert_eq!(ann.value, 0);
}

#[test]
fn multiple_inserts_accumulate() {
    let mut state = UtxoState::new();
    let (a, ma) = sample_utxo(7);
    let (b, mb) = sample_utxo(11);
    state.insert(a, ma);
    state.insert(b, mb);
    let ann = state.ann();
    assert_eq!(ann.size, 2);
    assert_eq!(ann.value, 18);
    assert!(state.contains_key(&a));
    assert!(state.contains_key(&b));
}

#[test]
fn remove_one_of_many() {
    let (a, ma) = sample_utxo(5);
    let (b, mb) = sample_utxo(9);
    let mut state = UtxoState::new();
    state.insert(a, ma);
    state.insert(b, mb);
    state.remove(&a);
    let ann = state.ann();
    assert_eq!(ann.size, 1);
    assert_eq!(ann.value, 9);
    assert!(!state.contains_key(&a));
    assert!(state.contains_key(&b));
}

#[test]
fn non_night_outputs_do_not_count_as_night() {
    let mut state = UtxoState::new();
    let other = Utxo {
        value: 50,
        owner: UserAddress(HashOutput([1; 32])),
        type_: UnshieldedTokenType(HashOutput([4; 32])),
        intent_hash: IntentHash(HashOutput([0; 32])),
        output_no: 0,
    };
    state.insert(other, UtxoMeta { ctime: 3 });
    assert_eq!(state.ann().size, 1);
    assert_eq!(state.ann().value, 0);
    assert_eq!(state.get(&other), Some(UtxoMeta { ctime: 3 }));
}

#[test]
fn apply_offer_spends_inputs_and_numbers_outputs() {
    let mut state = UtxoState::new();
    let (a, ma) = sample_utxo(30);
    state.insert(a, ma);
    let offer = UnshieldedOffer {
        inputs: vec![UtxoSpend { value: 30, owner: a.owner, type_: a.type_, intent_hash: a.intent_hash, output_no: 0 }],
        outputs: vec![
            UtxoOutput { value: 10, owner: UserAddress(HashOutput([2; 32])), type_: night() },
            UtxoOutput { value: 20, owner: UserAddress(HashOutput([3; 32])), type_: night() },
        ],
        signatures: vec![],
    };
    let h = IntentHash(HashOutput([8; 32]));
    assert!(state.apply_offer(&offer, h, 42).is_ok());
    assert!(!state.contains_key(&a));
    assert_eq!(state.ann().size, 2);
    assert_eq!(state.ann().value, 30);
    let second = Utxo { value: 20, owner: UserAddress(HashOutput([3; 32])), type_: night(), intent_hash: h, output_no: 1 };
    assert_eq!(state.get(&second), Some(UtxoMeta { ctime: 42 }));
    // Spending the same input again fails and leaves the set as it was.
    match state.apply_offer(&offer, h, 43) {
        Err(UtxoError::InputNotInUtxos(u)) => assert_eq!(u.value, 30),
        Ok(()) => panic!("double spend accepted"),
    }
    assert_eq!(state.ann().size, 2);
}

#[test]
fn night_annotation_of_one_output() {
    let night = Utxo { value: 9, owner: UserAddress(HashOutput([1u8; 32])), type_: UnshieldedTokenType(HashOutput([0u8; 32])), intent_hash: IntentHash(HashOutput([2u8; 32])), output_no: 0 };
    let other = Utxo { type_: UnshieldedTokenType(HashOutput([5u8; 32])), ..night };
    assert_eq!(NightAnn::from_value(&night), NightAnn { size: 1, value: 9 });
    assert_eq!(NightAnn::from_value(&other), NightAnn { size: 1, value: 0 });
}

#[test]
fn utxo_offer_spending_an_output_twice_fails() {
    let mut st = UtxoState::new();
    let (utxo, meta) = sample_utxo(15);
    st.insert(utxo, meta);
    let input = UtxoSpend { value: 15, owner: utxo.owner, type_: utxo.type_, intent_hash: utxo.intent_hash, output_no: 0 };
    let offer = UnshieldedOffer { inputs: vec![input, input], outputs: vec![], signatures: vec![] };
    match st.apply_offer(&offer, IntentHash(HashOutput([1; 32])), 10) {
        Err(UtxoError::InputNotInUtxos(u)) => assert_eq!(u.value, 15),
        _ => panic!("expected the second spend to fail"),
    }
    // nothing changed
    assert_eq!(st.ann().size, 1);
    let single = UnshieldedOffer { inputs: vec![input], outputs: vec![], signatures: vec![] };
    assert!(st.apply_offer(&single, IntentHash(HashOutput([1; 32])), 10).is_ok());
    assert_eq!(st.ann().size, 0);
}
