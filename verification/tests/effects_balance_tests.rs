use midnight_ledger::balance::{BalanceKey, BalanceOperation, MalformedTransaction};
use midnight_ledger::effects::{EffectItem, EffectsCheckError};
use midnight_ledger::hash::{ContractAddress, HashOutput, ShieldedTokenType, TokenType, UnshieldedTokenType, UserAddress};
use midnight_ledger::intent::{
    ClaimedContractCall, ClaimedUnshieldedSpend, ContractCall, Delta, DustActions, DustRegistration, DustSpend, Effects,
    Intent, PublicAddress, StandardTransaction, ZswapInput, ZswapOffer, ZswapOutput,
};
use midnight_ledger::transaction::WellFormedStrictness;
use midnight_ledger::utxo::{UnshieldedOffer, UtxoOutput, UtxoSpend};
use midnight_ledger::hash::IntentHash;

fn h(b: u8) -> HashOutput {
    HashOutput([b; 32])
}

fn caddr(b: u8) -> ContractAddress {
    ContractAddress(h(b))
}

fn empty_effects() -> Effects {
    Effects {
        claimed_nullifiers: vec![],
        claimed_shielded_receives: vec![],
        claimed_shielded_spends: vec![],
        claimed_contract_calls: vec![],
        shielded_mints: vec![],
        unshielded_mints: vec![],
        unshielded_inputs: vec![],
        unshielded_outputs: vec![],
        claimed_unshielded_spends: vec![],
    }
}

fn call_with(address: u8, guaranteed: Option<Effects>, fallible: Option<Effects>) -> ContractCall {
    ContractCall {
        address: caddr(address),
        ep_hash: h(50),
        communication_commitment: h(51),
        guaranteed_transcript: guaranteed,
        fallible_transcript: fallible,
    }
}

fn intent(calls: Vec<ContractCall>) -> Intent {
    Intent { guaranteed_unshielded_offer: None, fallible_unshielded_offer: None, calls, dust_actions: None, ttl: 0 }
}

fn tx(intents: Vec<(u16, Intent)>, guaranteed_coins: Option<ZswapOffer>) -> StandardTransaction {
    StandardTransaction { network_id: "local-test".to_string(), intents, guaranteed_coins, fallible_coins: vec![] }
}

fn offer_with_contract_input(nullifier: u8, owner: u8) -> ZswapOffer {
    ZswapOffer {
        inputs: vec![ZswapInput { nullifier: h(nullifier), contract_address: Some(caddr(owner)) }],
        outputs: vec![],
        transient: vec![],
        deltas: vec![],
    }
}

#[test]
fn effects_check_accepts_empty_transaction() {
    assert!(tx(vec![], None).effects_check().is_ok());
}

#[test]
fn effects_check_accepts_claimed_nullifier() {
    let mut e = empty_effects();
    e.claimed_nullifiers.push(h(7));
    let t = tx(vec![(1, intent(vec![call_with(3, Some(e), None)]))], Some(offer_with_contract_input(7, 3)));
    assert!(t.effects_check().is_ok());
}

#[test]
fn effects_check_refuses_unclaimed_nullifier() {
    let t = tx(vec![(1, intent(vec![call_with(3, Some(empty_effects()), None)]))], Some(offer_with_contract_input(7, 3)));
    match t.effects_check() {
        Err(EffectsCheckError::NullifiersNEClaimedNullifiers { nullifiers, claimed_nullifiers }) => {
            assert_eq!(nullifiers.len(), 1);
            assert!(claimed_nullifiers.is_empty());
            match nullifiers[0] {
                EffectItem::Nullifier { segment, .. } => assert_eq!(segment, 0),
                _ => panic!("wrong item"),
            }
        }
        other => panic!("unexpected: {:?}", other),
    }
}

#[test]
fn effects_check_refuses_fallible_claim_of_guaranteed_nullifier() {
    // a fallible transcript claims in its intent's segment, not segment 0
    let mut e = empty_effects();
    e.claimed_nullifiers.push(h(7));
    let t = tx(vec![(1, intent(vec![call_with(3, None, Some(e))]))], Some(offer_with_contract_input(7, 3)));
    assert!(matches!(t.effects_check(), Err(EffectsCheckError::NullifiersNEClaimedNullifiers { .. })));
}

#[test]
fn effects_check_refuses_unreceived_commitment() {
    let offer = ZswapOffer {
        inputs: vec![],
        outputs: vec![ZswapOutput { coin_com: h(9), contract_address: Some(caddr(3)) }],
        transient: vec![],
        deltas: vec![],
    };
    let t = tx(vec![(1, intent(vec![call_with(3, Some(empty_effects()), None)]))], Some(offer));
    assert!(matches!(t.effects_check(), Err(EffectsCheckError::CommitmentsNEClaimedShieldedReceives { .. })));
}

#[test]
fn effects_check_refuses_repeated_spend_claims() {
    let mut e = empty_effects();
    e.claimed_shielded_spends.push(h(4));
    e.claimed_shielded_spends.push(h(4));
    let t = tx(vec![(1, intent(vec![call_with(3, Some(e), None)]))], None);
    match t.effects_check() {
        Err(EffectsCheckError::ClaimedUnshieldedSpendsUniquenessFailure(d)) => {
            assert_eq!(d.len(), 1);
            assert_eq!(d[0].1, 2);
        }
        other => panic!("unexpected: {:?}", other),
    }
}

#[test]
fn effects_check_refuses_spend_of_missing_commitment() {
    let mut e = empty_effects();
    e.claimed_shielded_spends.push(h(4));
    let t = tx(vec![(1, intent(vec![call_with(3, Some(e), None)]))], None);
    assert!(matches!(t.effects_check(), Err(EffectsCheckError::AllCommitmentsSubsetCheckFailure(_))));
}

#[test]
fn effects_check_accepts_spend_of_existing_commitment() {
    let mut e = empty_effects();
    e.claimed_shielded_spends.push(h(4));
    let offer = ZswapOffer {
        inputs: vec![],
        outputs: vec![ZswapOutput { coin_com: h(4), contract_address: None }],
        transient: vec![],
        deltas: vec![],
    };
    let t = tx(vec![(1, intent(vec![call_with(3, Some(e), None)]))], Some(offer));
    assert!(t.effects_check().is_ok());
}

#[test]
fn effects_check_refuses_claimed_call_that_is_not_made() {
    let mut e = empty_effects();
    e.claimed_contract_calls.push(ClaimedContractCall { seq: 0, address: caddr(8), ep_hash: h(1), commitment: h(2) });
    let t = tx(vec![(1, intent(vec![call_with(3, Some(e), None)]))], None);
    assert!(matches!(t.effects_check(), Err(EffectsCheckError::RealCallsSubsetCheckFailure(_))));
}

#[test]
fn effects_check_refuses_repeated_call_claims() {
    let mut e = empty_effects();
    let c = ClaimedContractCall { seq: 0, address: caddr(3), ep_hash: h(50), commitment: h(51) };
    e.claimed_contract_calls.push(c);
    e.claimed_contract_calls.push(c);
    let t = tx(vec![(1, intent(vec![call_with(3, Some(e), None)]))], None);
    assert!(matches!(t.effects_check(), Err(EffectsCheckError::ClaimedCallsUniquenessFailure(_))));
}

#[test]
fn effects_check_backs_claimed_unshielded_spend_with_output() {
    let owner = UserAddress(h(30));
    let ty = UnshieldedTokenType(h(31));
    let mut e = empty_effects();
    e.claimed_unshielded_spends.push(ClaimedUnshieldedSpend {
        token: TokenType::Unshielded(ty),
        recipient: PublicAddress::User(owner),
        value: 12,
    });
    let mut i = intent(vec![call_with(3, Some(e), None)]);
    i.guaranteed_unshielded_offer = Some(UnshieldedOffer { inputs: vec![], outputs: vec![UtxoOutput { value: 12, owner, type_: ty }], signatures: vec![] });
    assert!(tx(vec![(1, i)], None).effects_check().is_ok());

    let mut e2 = empty_effects();
    e2.claimed_unshielded_spends.push(ClaimedUnshieldedSpend {
        token: TokenType::Unshielded(ty),
        recipient: PublicAddress::User(owner),
        value: 13,
    });
    let mut i2 = intent(vec![call_with(3, Some(e2), None)]);
    i2.guaranteed_unshielded_offer = Some(UnshieldedOffer { inputs: vec![], outputs: vec![UtxoOutput { value: 12, owner, type_: ty }], signatures: vec![] });
    assert!(matches!(tx(vec![(1, i2)], None).effects_check(), Err(EffectsCheckError::RealUnshieldedSpendsSubsetCheckFailure(_))));
}

fn night_spend(value: u128) -> UtxoSpend {
    UtxoSpend { value, owner: UserAddress(h(1)), type_: UnshieldedTokenType(h(0)), intent_hash: IntentHash(h(2)), output_no: 0 }
}

#[test]
fn balance_counts_offers_fees_and_dust() {
    let mut i = intent(vec![]);
    i.guaranteed_unshielded_offer = Some(UnshieldedOffer {
        inputs: vec![night_spend(100)],
        outputs: vec![UtxoOutput { value: 60, owner: UserAddress(h(3)), type_: UnshieldedTokenType(h(0)) }],
        signatures: vec![],
    });
    i.dust_actions = Some(DustActions {
        spends: vec![DustSpend { v_fee: 7, old_nullifier: h(4), new_commitment: h(5) }],
        registrations: vec![DustRegistration { night_key: UserAddress(h(6)), dust_address: None, allow_fee_payment: 3 }],
        ctime: 0,
    });
    let t = tx(vec![(1, i)], None);
    let m = t.balance(Some(4)).unwrap();
    let night = BalanceKey { token_type: TokenType::Unshielded(UnshieldedTokenType(h(0))), segment: 0 };
    let dust = BalanceKey { token_type: TokenType::Dust, segment: 0 };
    assert_eq!(m.get(&night), Some(40));
    assert_eq!(m.get(&dust), Some(6));
    // without fees only the DUST entry of segment zero differs
    let m0 = t.balance(None).unwrap();
    assert_eq!(m0.get(&night), Some(40));
    assert_eq!(m0.get(&dust), Some(10));
    assert!(t.balancing_check(WellFormedStrictness::default(), 4).is_ok());
    match t.balancing_check(WellFormedStrictness::default(), 20) {
        Err(MalformedTransaction::BalanceCheckOverspend { token_type: TokenType::Dust, segment: 0, overspent_value }) => {
            assert_eq!(overspent_value, -10)
        }
        other => panic!("unexpected: {:?}", other),
    }
}

#[test]
fn balance_counts_contract_effects_unless_deltas_only() {
    let mut e = empty_effects();
    e.shielded_mints.push((ShieldedTokenType(h(8)), 5));
    e.unshielded_inputs.push((TokenType::Dust, 2));
    let t = tx(vec![(3, intent(vec![call_with(1, None, Some(e))]))], None);
    let m = t.balance(None).unwrap();
    assert_eq!(m.get(&BalanceKey { token_type: TokenType::Shielded(ShieldedTokenType(h(8))), segment: 3 }), Some(5));
    assert_eq!(m.get(&BalanceKey { token_type: TokenType::Dust, segment: 3 }), Some(-2));
    let d = t.balance_maybe_deltas_only(None, true).unwrap();
    assert_eq!(d.get(&BalanceKey { token_type: TokenType::Dust, segment: 3 }), None);
}

#[test]
fn balance_counts_shielded_deltas() {
    let offer = ZswapOffer {
        inputs: vec![],
        outputs: vec![],
        transient: vec![],
        deltas: vec![Delta { token_type: ShieldedTokenType(h(8)), value: -9 }, Delta { token_type: ShieldedTokenType(h(9)), value: 4 }],
    };
    let t = tx(vec![], Some(offer));
    let m = t.balance(None).unwrap();
    assert_eq!(m.get(&BalanceKey { token_type: TokenType::Shielded(ShieldedTokenType(h(8))), segment: 0 }), Some(-9));
    assert_eq!(m.get(&BalanceKey { token_type: TokenType::Shielded(ShieldedTokenType(h(9))), segment: 0 }), Some(4));
}

#[test]
fn balance_refuses_values_beyond_i128() {
    let offer = ZswapOffer {
        inputs: vec![],
        outputs: vec![],
        transient: vec![],
        deltas: vec![Delta { token_type: ShieldedTokenType(h(8)), value: i128::MIN }],
    };
    let t = tx(vec![], Some(offer));
    match t.balance(None) {
        Err(MalformedTransaction::BalanceCheckConversionFailure { operation_value, segment, .. }) => {
            assert_eq!(operation_value, 1u128 << 127);
            assert_eq!(segment, 0);
        }
        other => panic!("unexpected: {:?}", other.is_ok()),
    }
}

#[test]
fn balance_refuses_overflow() {
    let mut i = intent(vec![]);
    i.guaranteed_unshielded_offer = Some(UnshieldedOffer {
        inputs: vec![night_spend(i128::MAX as u128), night_spend(1)],
        outputs: vec![],
        signatures: vec![],
    });
    match tx(vec![(1, i)], None).balance(None) {
        Err(MalformedTransaction::BalanceCheckOutOfBounds { current_balance, operation_value, operation, .. }) => {
            assert_eq!(current_balance, i128::MAX);
            assert_eq!(operation_value, 1);
            assert_eq!(operation, BalanceOperation::Addition);
        }
        other => panic!("unexpected: {:?}", other.is_ok()),
    }
}
