use midnight_ledger::balance::MalformedTransaction;
use midnight_ledger::dust::{initial_dust_parameters, DustEvent, DustPublicKey, DustState, InitialNonce};
use midnight_ledger::ledger::TransactionInvalid;
use midnight_ledger::hash::{HashOutput, IntentHash, UnshieldedTokenType, UserAddress};
use midnight_ledger::intent::{DustActions, DustRegistration, DustSpend, Intent, StandardTransaction, Transaction};
use midnight_ledger::ledger::{ClaimKind, ClaimRewardsTransaction};
use midnight_ledger::intent_checks::{least_repeated, OfferSignatures};
use midnight_ledger::transaction::WellFormedStrictness;
use midnight_ledger::utxo::{Signature, UnshieldedOffer, Utxo, UtxoMeta, UtxoOutput, UtxoSpend, UtxoState};

fn h(b: u8) -> HashOutput {
    HashOutput([b; 32])
}

fn spend(value: u128, owner: u8, output_no: u32) -> UtxoSpend {
    UtxoSpend {
        value,
        owner: UserAddress(h(owner)),
        type_: UnshieldedTokenType(h(0)),
        intent_hash: IntentHash(h(3)),
        output_no,
    }
}

fn output(value: u128, owner: u8) -> UtxoOutput {
    UtxoOutput { value, owner: UserAddress(h(owner)), type_: UnshieldedTokenType(h(0)) }
}

fn bare_intent() -> Intent {
    Intent { guaranteed_unshielded_offer: None, fallible_unshielded_offer: None, calls: vec![], dust_actions: None, ttl: 0 }
}

fn registration(key: u8, allow_fee_payment: u128) -> DustRegistration {
    DustRegistration { night_key: UserAddress(h(key)), dust_address: Some(DustPublicKey(h(9))), allow_fee_payment }
}

fn dust_spend() -> DustSpend {
    DustSpend { v_fee: 5, old_nullifier: h(1), new_commitment: h(2) }
}

#[test]
fn offer_in_order_is_well_formed() {
    let offer = UnshieldedOffer {
        inputs: vec![spend(1, 5, 0), spend(2, 1, 0), spend(2, 4, 0), spend(2, 4, 1)],
        outputs: vec![output(1, 9), output(1, 9), output(3, 0)],
        signatures: vec![Signature::Schnorr([1; 64]); 4],
    };
    assert!(offer.well_formed().is_ok());
}

#[test]
fn offer_needs_one_signature_per_input() {
    let offer = UnshieldedOffer { inputs: vec![spend(1, 5, 0), spend(2, 1, 0)], outputs: vec![], signatures: vec![Signature::Erased] };
    assert!(offer.well_formed().is_ok());
    match offer.verify_signatures(&vec![true]) {
        Err(MalformedTransaction::InputsSignaturesLengthMismatch { inputs, signatures }) => {
            assert_eq!(inputs.len(), 2);
            assert_eq!(signatures, 1);
        }
        _ => panic!("expected a signature count mismatch"),
    }
}

#[test]
fn offer_inputs_out_of_order() {
    // equal values order by owner: owner 4 before owner 1 is out of order
    let inputs = vec![spend(2, 4, 0), spend(2, 1, 0)];
    let offer = UnshieldedOffer { inputs, outputs: vec![], signatures: vec![] };
    match offer.well_formed() {
        Err(MalformedTransaction::InputsNotSorted(v)) => {
            assert_eq!(v.len(), 2);
            assert_eq!(v[0].owner.0 .0, [4u8; 32]);
        }
        _ => panic!("expected unsorted inputs"),
    }
}

#[test]
fn offer_outputs_out_of_order() {
    let offer = UnshieldedOffer { inputs: vec![spend(1, 1, 0)], outputs: vec![output(7, 1), output(3, 1)], signatures: vec![] };
    match offer.well_formed() {
        Err(MalformedTransaction::OutputsNotSorted(v)) => {
            assert_eq!(v.len(), 2);
            assert_eq!(v[0].value, 7);
        }
        _ => panic!("expected unsorted outputs"),
    }
}

#[test]
fn offer_with_repeated_input() {
    let offer = UnshieldedOffer { inputs: vec![spend(1, 1, 0), spend(1, 1, 0), spend(4, 1, 0)], outputs: vec![], signatures: vec![] };
    match offer.well_formed() {
        Err(MalformedTransaction::DuplicateInputs(v)) => assert_eq!(v.len(), 3),
        _ => panic!("expected duplicate inputs"),
    }
}

#[test]
fn empty_dust_actions_are_not_normalized() {
    let da = DustActions { spends: vec![], registrations: vec![], ctime: 10 };
    let parent = bare_intent();
    let r = da.well_formed(&DustState::new(), &UtxoState::new(), &initial_dust_parameters(), &parent, &vec![], WellFormedStrictness::default(), 10);
    assert!(matches!(r, Err(MalformedTransaction::NotNormalized)));
}

#[test]
fn dust_actions_outside_their_window() {
    let params = initial_dust_parameters();
    let parent = bare_intent();
    // from the future
    let da = DustActions { spends: vec![dust_spend()], registrations: vec![], ctime: 101 };
    match da.well_formed(&DustState::new(), &UtxoState::new(), &params, &parent, &vec![], WellFormedStrictness::default(), 100) {
        Err(MalformedTransaction::OutOfDustValidityWindow { dust_ctime, validity_start, validity_end }) => {
            assert_eq!((dust_ctime, validity_start, validity_end), (101, 0, 100));
        }
        _ => panic!("expected a window error"),
    }
    // older than the grace period of 10800 seconds
    let da = DustActions { spends: vec![dust_spend()], registrations: vec![], ctime: 1_000 };
    match da.well_formed(&DustState::new(), &UtxoState::new(), &params, &parent, &vec![], WellFormedStrictness::default(), 11_801) {
        Err(MalformedTransaction::OutOfDustValidityWindow { dust_ctime, validity_start, validity_end }) => {
            assert_eq!((dust_ctime, validity_start, validity_end), (1_000, 1_001, 11_801));
        }
        _ => panic!("expected a window error"),
    }
    // exactly at the start of the window is accepted
    let r = da.well_formed(&DustState::new(), &UtxoState::new(), &params, &parent, &vec![], WellFormedStrictness::default(), 11_800);
    assert!(r.is_ok());
}

#[test]
fn least_repeated_key_is_reported() {
    let regs = vec![registration(9, 0), registration(4, 0), registration(9, 0), registration(4, 0), registration(6, 0)];
    assert_eq!(least_repeated(&regs).map(|k| k.0 .0), Some([4u8; 32]));
    assert!(least_repeated(&vec![registration(1, 0), registration(2, 0)]).is_none());
    let da = DustActions { spends: vec![], registrations: regs, ctime: 10 };
    match da.well_formed(&DustState::new(), &UtxoState::new(), &initial_dust_parameters(), &bare_intent(), &vec![], WellFormedStrictness::default(), 10) {
        Err(MalformedTransaction::MultipleDustRegistrationsForKey { key }) => assert_eq!(key.0 .0, [4u8; 32]),
        _ => panic!("expected a repeated registration"),
    }
}

fn fee_fixture(allow: u128) -> (UtxoState, Intent, DustActions) {
    let owner = UserAddress(h(7));
    let night = UnshieldedTokenType(HashOutput([0u8; 32]));
    let input = UtxoSpend { value: 1000, owner, type_: night, intent_hash: IntentHash(h(3)), output_no: 0 };
    let mut utxos = UtxoState::new();
    utxos.insert(Utxo::from_spend(&input), UtxoMeta { ctime: 100 });
    let da = DustActions { spends: vec![], registrations: vec![registration(7, allow)], ctime: 200 };
    let mut parent = bare_intent();
    parent.guaranteed_unshielded_offer = Some(UnshieldedOffer { inputs: vec![input], outputs: vec![], signatures: vec![] });
    parent.dust_actions = Some(da.clone());
    (utxos, parent, da)
}

#[test]
fn registration_fee_allowance_must_be_covered() {
    let params = initial_dust_parameters();
    // 100 seconds at 1000 * 8267 per second have accrued 826_700_000
    let (utxos, parent, da) = fee_fixture(826_700_001);
    match da.well_formed(&DustState::new(), &utxos, &params, &parent, &vec![InitialNonce(h(1))], WellFormedStrictness::default(), 200) {
        Err(MalformedTransaction::InsufficientDustForRegistrationFee { registration, available_dust }) => {
            assert_eq!(available_dust, 826_700_000);
            assert_eq!(registration.allow_fee_payment, 826_700_001);
        }
        _ => panic!("expected an uncovered allowance"),
    }
    let (utxos, parent, da) = fee_fixture(826_700_000);
    assert!(da.well_formed(&DustState::new(), &utxos, &params, &parent, &vec![InitialNonce(h(1))], WellFormedStrictness::default(), 200).is_ok());
    // without balancing enforced, the allowance is not checked
    let (utxos, parent, da) = fee_fixture(u128::MAX);
    let mut lax = WellFormedStrictness::default();
    lax.enforce_balancing = false;
    assert!(da.well_formed(&DustState::new(), &utxos, &params, &parent, &vec![InitialNonce(h(1))], lax, 200).is_ok());
}

fn no_sigs() -> OfferSignatures {
    OfferSignatures { guaranteed: vec![], fallible: vec![] }
}

#[test]
fn intent_checks_in_order() {
    let params = initial_dust_parameters();
    let st = DustState::new();
    let utxos = UtxoState::new();
    let strict = WellFormedStrictness::default();
    let plain = bare_intent();
    assert!(matches!(
        plain.well_formed(0, true, &no_sigs(), &st, &utxos, &params, &vec![], strict, 10),
        Err(MalformedTransaction::IntentAtGuaranteedSegmentId)
    ));
    assert!(plain.well_formed(1, true, &no_sigs(), &st, &utxos, &params, &vec![], strict, 10).is_ok());
    // the fallible offer is checked after the guaranteed one
    let mut bad = bare_intent();
    bad.fallible_unshielded_offer = Some(UnshieldedOffer { inputs: vec![], outputs: vec![output(2, 1), output(1, 1)], signatures: vec![] });
    bad.dust_actions = Some(DustActions { spends: vec![], registrations: vec![], ctime: 10 });
    assert!(matches!(bad.well_formed(1, true, &no_sigs(), &st, &utxos, &params, &vec![], strict, 10), Err(MalformedTransaction::OutputsNotSorted(_))));
    bad.fallible_unshielded_offer = None;
    assert!(matches!(bad.well_formed(1, true, &no_sigs(), &st, &utxos, &params, &vec![], strict, 10), Err(MalformedTransaction::NotNormalized)));
}

#[test]
fn intents_checked_in_segment_order() {
    let params = initial_dust_parameters();
    let mut second = bare_intent();
    second.dust_actions = Some(DustActions { spends: vec![], registrations: vec![], ctime: 10 });
    let tx = StandardTransaction {
        network_id: "local-test".to_string(),
        intents: vec![(1, bare_intent()), (2, second)],
        guaranteed_coins: None,
        fallible_coins: vec![],
    };
    let r = tx.intents_well_formed(true, &vec![no_sigs(), no_sigs()], &DustState::new(), &UtxoState::new(), &params, &vec![vec![], vec![]], WellFormedStrictness::default(), 10);
    assert!(matches!(r, Err(MalformedTransaction::NotNormalized)));
    let tx0 = StandardTransaction {
        network_id: "local-test".to_string(),
        intents: vec![(0, bare_intent())],
        guaranteed_coins: None,
        fallible_coins: vec![],
    };
    let r = tx0.intents_well_formed(true, &vec![no_sigs()], &DustState::new(), &UtxoState::new(), &params, &vec![vec![]], WellFormedStrictness::default(), 10);
    assert!(matches!(r, Err(MalformedTransaction::IllegallyDeclaredGuaranteed)));
}

fn fee_stage_intents(second_nullifier: u8) -> (UtxoState, Vec<(u16, Intent)>) {
    let owner = UserAddress(h(7));
    let night = UnshieldedTokenType(HashOutput([0u8; 32]));
    let input = UtxoSpend { value: 1000, owner, type_: night, intent_hash: IntentHash(h(3)), output_no: 0 };
    let mut utxos = UtxoState::new();
    utxos.insert(Utxo::from_spend(&input), UtxoMeta { ctime: 100 });
    let mut first = bare_intent();
    first.guaranteed_unshielded_offer = Some(UnshieldedOffer {
        inputs: vec![input],
        outputs: vec![UtxoOutput { value: 300, owner, type_: night }, UtxoOutput { value: 700, owner, type_: night }],
        signatures: vec![],
    });
    first.dust_actions = Some(DustActions {
        spends: vec![DustSpend { v_fee: 5, old_nullifier: h(11), new_commitment: h(21) }],
        registrations: vec![DustRegistration { night_key: owner, dust_address: Some(DustPublicKey(h(8))), allow_fee_payment: 1_000_000 }],
        ctime: 200,
    });
    let mut second = bare_intent();
    second.dust_actions = Some(DustActions {
        spends: vec![DustSpend { v_fee: 10, old_nullifier: h(second_nullifier), new_commitment: h(22) }],
        registrations: vec![],
        ctime: 200,
    });
    (utxos, vec![(1, first), (2, second)])
}

#[test]
fn fee_stage_applies_spends_before_registrations() {
    let (utxos, intents) = fee_stage_intents(12);
    let ins = vec![vec![InitialNonce(h(1))], vec![]];
    let outs = vec![vec![InitialNonce(h(4)), InitialNonce(h(5))], vec![]];
    let (st, fees_left, evs) = DustState::new()
        .apply_dust_actions(&utxos, 100_000_012, &intents, &ins, &outs, &initial_dust_parameters(), 210)
        .unwrap();
    // the spends pay 5 and 10, the registration the 1_000_000 it allows
    assert_eq!(fees_left, 98_999_997);
    assert_eq!(evs.len(), 4);
    match (evs[0], evs[1]) {
        (DustEvent::DustSpendProcessed { commitment_index: a, v_fee: fa, .. }, DustEvent::DustSpendProcessed { commitment_index: b, v_fee: fb, .. }) => {
            assert_eq!((a, fa, b, fb), (0, 5, 1, 10));
        }
        _ => panic!("expected the spends first"),
    }
    assert!(matches!(evs[2], DustEvent::InitialUtxo { .. }));
    assert!(matches!(evs[3], DustEvent::InitialUtxo { .. }));
    assert_eq!(st.address_delegation.get(&UserAddress(h(7))).map(|k| k.0 .0), Some([8u8; 32]));
}

#[test]
fn fee_stage_refuses_a_nullifier_spent_twice() {
    let (utxos, intents) = fee_stage_intents(11);
    let ins = vec![vec![InitialNonce(h(1))], vec![]];
    let outs = vec![vec![InitialNonce(h(4)), InitialNonce(h(5))], vec![]];
    let r = DustState::new().apply_dust_actions(&utxos, 0, &intents, &ins, &outs, &initial_dust_parameters(), 210);
    match r {
        Err(TransactionInvalid::DustDoubleSpend(n)) => assert_eq!(n.0, [11u8; 32]),
        _ => panic!("expected a double spend"),
    }
}

#[test]
fn transaction_well_formed_runs_intent_checks_last() {
    let params = initial_dust_parameters();
    let mut bad = bare_intent();
    bad.ttl = 100;
    bad.dust_actions = Some(DustActions { spends: vec![], registrations: vec![], ctime: 10 });
    let stx = StandardTransaction { network_id: "local-test".to_string(), intents: vec![(1, bad)], guaranteed_coins: None, fallible_coins: vec![] };
    let tx = Transaction::Standard(stx);
    let mut lax = WellFormedStrictness::default();
    lax.enforce_balancing = false;
    let (st, utxos) = (DustState::new(), UtxoState::new());
    // the structural checks pass, then the intent's empty DUST actions fail
    let r = tx.clone().well_formed(b"tx", 2, 100, &"local-test".to_string(), lax, 90, 100, 0, &st, &utxos, &params, &vec![vec![]], true, &vec![no_sigs()], true);
    assert!(matches!(r, Err(MalformedTransaction::NotNormalized)));
    // a wrong network is reported first
    let r = tx.clone().well_formed(b"tx", 2, 100, &"elsewhere".to_string(), lax, 90, 100, 0, &st, &utxos, &params, &vec![vec![]], true, &vec![no_sigs()], true);
    assert!(matches!(r, Err(MalformedTransaction::InvalidNetworkId { .. })));
    // and a transaction over the size limit before that
    match tx.clone().well_formed(b"tx", 101, 100, &"elsewhere".to_string(), lax, 90, 100, 0, &st, &utxos, &params, &vec![vec![]], true, &vec![no_sigs()], true) {
        Err(MalformedTransaction::TransactionTooLarge { tx_size, limit }) => assert_eq!((tx_size, limit), (101, 100)),
        _ => panic!("expected the transaction to be too large"),
    }
    // unless limits are not enforced
    let mut unlimited = lax;
    unlimited.enforce_limits = false;
    let r = tx.well_formed(b"tx", 101, 100, &"elsewhere".to_string(), unlimited, 90, 100, 0, &st, &utxos, &params, &vec![vec![]], true, &vec![no_sigs()], true);
    assert!(matches!(r, Err(MalformedTransaction::InvalidNetworkId { .. })));
    let claim = Transaction::ClaimRewards(ClaimRewardsTransaction {
        network_id: "local-test".to_string(),
        value: 10,
        owner: UserAddress(h(1)),
        nonce: h(2),
        kind: ClaimKind::Reward,
    });
    match claim.clone().well_formed(b"claim", 5, 100, &"elsewhere".to_string(), lax, 90, 100, 0, &st, &utxos, &params, &vec![], true, &vec![], true) {
        Err(MalformedTransaction::InvalidNetworkId { expected, found }) => {
            assert_eq!(expected, "elsewhere");
            assert_eq!(found, "local-test");
        }
        _ => panic!("expected a network mismatch"),
    }
    let v = claim.well_formed(b"claim", 5, 100, &"local-test".to_string(), lax, 90, 100, 0, &st, &utxos, &params, &vec![], true, &vec![], true).unwrap();
    // the hash is the SHA-256 digest of the tagged serialization
    assert_eq!(v.hash.0 .0[..4], [0xdd, 0x1b, 0x3c, 0x31]);
    assert!(matches!(v.inner, Transaction::ClaimRewards(_)));
}

#[test]
fn verified_transaction_has_its_signatures_erased() {
    let params = initial_dust_parameters();
    let mut i = bare_intent();
    i.ttl = 100;
    i.guaranteed_unshielded_offer = Some(UnshieldedOffer { inputs: vec![], outputs: vec![output(1, 1)], signatures: vec![] });
    i.fallible_unshielded_offer = Some(UnshieldedOffer { inputs: vec![spend(1, 1, 0)], outputs: vec![], signatures: vec![Signature::Schnorr([5; 64])] });
    let tx = Transaction::Standard(StandardTransaction { network_id: "n".to_string(), intents: vec![(1, i)], guaranteed_coins: None, fallible_coins: vec![] });
    let erased = tx.erase_signatures();
    match erased {
        Transaction::Standard(stx) => {
            let o = stx.intents[0].1.fallible_unshielded_offer.as_ref().unwrap();
            assert_eq!(o.signatures.len(), 1);
            assert!(matches!(o.signatures[0], Signature::Erased));
            assert_eq!(o.inputs.len(), 1);
        }
        _ => panic!("expected a standard transaction"),
    }
    let _ = params;
}

#[test]
fn offer_signatures_must_all_verify() {
    let offer = UnshieldedOffer {
        inputs: vec![spend(1, 5, 0), spend(2, 1, 0)],
        outputs: vec![],
        signatures: vec![Signature::Schnorr([1; 64]), Signature::Schnorr([2; 64])],
    };
    assert!(offer.verify_signatures(&vec![true, true]).is_ok());
    assert!(matches!(offer.verify_signatures(&vec![true, false]), Err(MalformedTransaction::IntentSignatureVerificationFailure)));
    let short = UnshieldedOffer { inputs: vec![spend(1, 5, 0)], outputs: vec![], signatures: vec![] };
    assert!(matches!(short.verify_signatures(&vec![]), Err(MalformedTransaction::InputsSignaturesLengthMismatch { signatures: 0, .. })));
}

#[test]
fn sealed_intents_check_offer_signatures() {
    let params = initial_dust_parameters();
    let (st, utxos) = (DustState::new(), UtxoState::new());
    let strict = WellFormedStrictness::default();
    let mut intent = bare_intent();
    intent.guaranteed_unshielded_offer =
        Some(UnshieldedOffer { inputs: vec![spend(1, 5, 0)], outputs: vec![], signatures: vec![Signature::Schnorr([1; 64])] });
    intent.fallible_unshielded_offer =
        Some(UnshieldedOffer { inputs: vec![spend(2, 5, 0)], outputs: vec![], signatures: vec![] });
    let bad = OfferSignatures { guaranteed: vec![false], fallible: vec![] };
    // an unsealed transaction does not check signatures
    assert!(intent.well_formed(1, false, &bad, &st, &utxos, &params, &vec![], strict, 10).is_ok());
    // a sealed one checks the guaranteed offer's signatures first
    assert!(matches!(
        intent.well_formed(1, true, &bad, &st, &utxos, &params, &vec![], strict, 10),
        Err(MalformedTransaction::IntentSignatureVerificationFailure)
    ));
    // then the fallible offer's, which lacks a signature
    let good = OfferSignatures { guaranteed: vec![true], fallible: vec![] };
    assert!(matches!(
        intent.well_formed(1, true, &good, &st, &utxos, &params, &vec![], strict, 10),
        Err(MalformedTransaction::InputsSignaturesLengthMismatch { signatures: 0, .. })
    ));
}

#[test]
fn sealed_claims_check_their_signature() {
    let params = initial_dust_parameters();
    let (st, utxos) = (DustState::new(), UtxoState::new());
    let mut lax = WellFormedStrictness::default();
    lax.enforce_balancing = false;
    let claim = Transaction::ClaimRewards(ClaimRewardsTransaction {
        network_id: "local-test".to_string(),
        value: 10,
        owner: UserAddress(h(1)),
        nonce: h(2),
        kind: ClaimKind::Reward,
    });
    let r = claim.clone().well_formed(b"claim", 5, 100, &"local-test".to_string(), lax, 90, 100, 0, &st, &utxos, &params, &vec![], true, &vec![], false);
    assert!(matches!(r, Err(MalformedTransaction::IntentSignatureVerificationFailure)));
    let r = claim.well_formed(b"claim", 5, 100, &"local-test".to_string(), lax, 90, 100, 0, &st, &utxos, &params, &vec![], false, &vec![], false);
    assert!(r.is_ok());
}
