use midnight_ledger::dust::{DustPublicKey, DustState, InitialNonce};
use midnight_ledger::hash::{night, HashOutput, IntentHash, TokenType, UserAddress};
use midnight_ledger::keyed::{AmountMap, KeyMap};
use midnight_ledger::ledger::{
    claim_unshielded, initial_parameters, ClaimKind, ClaimRewardsTransaction, InvariantViolation, LedgerState,
    OutputInstructionUnshielded, SystemTransaction, SystemTransactionError, TransactionInvalid, TransactionResult, MAX_SUPPLY,
};
use midnight_ledger::replay::ReplayProtectionState;
use midnight_ledger::utxo::UtxoState;

fn addr(b: u8) -> UserAddress {
    UserAddress(HashOutput([b; 32]))
}

fn base_state(locked: u128, reserve: u128, reward: u128) -> LedgerState {
    LedgerState {
        network_id: "a".to_string(),
        parameters: initial_parameters(),
        locked_pool: locked,
        bridge_receiving: AmountMap::new(),
        reserve_pool: reserve,
        block_reward_pool: reward,
        unclaimed_block_rewards: AmountMap::new(),
        treasury: KeyMap::new(),
        contract: AmountMap::new(),
        utxo: UtxoState::new(),
        replay_protection: ReplayProtectionState::new(),
        dust: DustState::new(),
    }
}

fn claim(value: u128, owner: UserAddress, kind: ClaimKind) -> ClaimRewardsTransaction {
    ClaimRewardsTransaction { network_id: "a".to_string(), value, owner, nonce: HashOutput([7; 32]), kind }
}

fn apply_claim(state: &LedgerState, tx: &ClaimRewardsTransaction) -> (LedgerState, TransactionResult) {
    claim_unshielded(state, tx, 0, 1_000_000, IntentHash(HashOutput([9; 32])), InitialNonce(HashOutput([3; 32])))
}

#[test]
fn simple_bridge_claim() {
    let mut state = base_state(0, 0, 0);
    state.bridge_receiving.insert(addr(1), MAX_SUPPLY);
    let tx = claim(MAX_SUPPLY, addr(1), ClaimKind::CardanoBridge);
    match apply_claim(&state, &tx) {
        (new_st, TransactionResult::Success(_)) => {
            if new_st.bridge_receiving.len() != 0 {
                panic!("bridge_receiving should now be empty, but is: {:?}", new_st.bridge_receiving.ann())
            }
        }
        (_, e) => panic!("{:?}", e),
    }
}

#[test]
fn bridge_claim_not_enough_available() {
    let mut state = base_state(10, 10, 0);
    state.bridge_receiving.insert(addr(1), 1000);
    let tx = claim(1001, addr(1), ClaimKind::CardanoBridge);
    match apply_claim(&state, &tx) {
        (_, TransactionResult::Failure(TransactionInvalid::InsufficientClaimable { .. })) => (),
        (_, TransactionResult::Failure(e)) => panic!("Expected InsufficientClaimable, but got {:?}", e),
        (_, TransactionResult::PartialSuccess(e, _)) => panic!("Expected InsufficientClaimable, but got {:?}", e),
        (_, TransactionResult::Success(_)) => panic!("Expected InsufficientClaimable, succeeded unexpectedly"),
    }
}

#[test]
fn simple_rewards_claim() {
    let mut state = base_state(0, 0, 0);
    state.unclaimed_block_rewards.insert(addr(1), MAX_SUPPLY);
    let tx = claim(MAX_SUPPLY, addr(1), ClaimKind::Reward);
    match apply_claim(&state, &tx) {
        (new_st, TransactionResult::Success(_)) => {
            if new_st.unclaimed_block_rewards.len() != 0 {
                panic!(
                    "unclaimed_block_rewards should now be empty, but is: {:?}",
                    new_st.unclaimed_block_rewards.ann()
                )
            }
        }
        (_, e) => panic!("{:?}", e),
    }
}

#[test]
fn rewards_claim_not_enough_available() {
    let mut state = base_state(10, 10, 0);
    state.unclaimed_block_rewards.insert(addr(1), 200000);
    let tx = claim(1000001, addr(1), ClaimKind::Reward);
    match apply_claim(&state, &tx) {
        (_, TransactionResult::Failure(TransactionInvalid::InsufficientClaimable { .. })) => (),
        (_, TransactionResult::Failure(e)) => panic!("Expected InsufficientClaimable, but got {:?}", e),
        (_, TransactionResult::PartialSuccess(e, _)) => panic!("Expected InsufficientClaimable, but got {:?}", e),
        (_, TransactionResult::Success(_)) => panic!("Expected InsufficientClaimable, succeeded unexpectedly"),
    }
}

#[test]
fn test_genesis_state() {
    assert_eq!(
        LedgerState::with_genesis_settings(
            "local-test".to_string(),
            initial_parameters(),
            10_000_000_000_000_000,
            10_000_000_000_000_000,
            10_000_000_000_000_000,
        )
        .err(),
        Some(InvariantViolation::NightBalance(30_000_000_000_000_000))
    );
    assert_eq!(
        LedgerState::with_genesis_settings(
            "local-test".to_string(),
            initial_parameters(),
            1_000_000_000_000_000,
            1_000_000_000_000_000,
            1_000_000_000_000_000,
        )
        .err(),
        Some(InvariantViolation::NightBalance(3_000_000_000_000_000))
    );
    assert!(LedgerState::with_genesis_settings(
        "local-test".to_string(),
        initial_parameters(),
        10_000_000_000_000_000,
        10_000_000_000_000_000,
        4_000_000_000_000_000,
    )
    .is_ok());
}

#[test]
fn genesis_puts_treasury_night_in_treasury() {
    let st = LedgerState::with_genesis_settings(
        "local-test".to_string(),
        initial_parameters(),
        10_000_000_000_000_000,
        10_000_000_000_000_000,
        4_000_000_000_000_000,
    )
    .ok()
    .unwrap();
    let night = TokenType::Unshielded(midnight_ledger::hash::night());
    assert_eq!(st.treasury.get(&night), Some(4_000_000_000_000_000));
    assert!(st.check_night_balance_invariant().is_ok());
    let fresh = LedgerState::new("n".to_string());
    assert_eq!(fresh.reserve_pool, MAX_SUPPLY);
    assert!(fresh.check_night_balance_invariant().is_ok());
}

#[test]
fn reward_claim_below_minimum_is_refused() {
    let mut state = base_state(0, 0, 0);
    state.unclaimed_block_rewards.insert(addr(1), MAX_SUPPLY);
    let tx = claim(999_999, addr(1), ClaimKind::Reward);
    match apply_claim(&state, &tx) {
        (st, TransactionResult::Failure(TransactionInvalid::RewardTooSmall { claimed, minimum })) => {
            assert_eq!(claimed, 999_999);
            assert_eq!(minimum, 1_000_000);
            assert_eq!(st.unclaimed_block_rewards.get(&addr(1)), Some(MAX_SUPPLY));
        }
        (_, e) => panic!("{:?}", e),
    }
}

#[test]
fn partial_claim_leaves_remainder_and_creates_output() {
    let mut state = base_state(0, 0, 0);
    state.unclaimed_block_rewards.insert(addr(1), MAX_SUPPLY);
    let tx = claim(5_000_000, addr(1), ClaimKind::Reward);
    let (st, res) = apply_claim(&state, &tx);
    assert!(matches!(res, TransactionResult::Success(_)));
    assert_eq!(st.unclaimed_block_rewards.get(&addr(1)), Some(MAX_SUPPLY - 5_000_000));
    assert_eq!(st.utxo.ann().size, 1);
    assert_eq!(st.utxo.ann().value, 5_000_000);
    assert!(st.replay_protection.contains(&IntentHash(HashOutput([9; 32]))));
    // The same output instruction cannot be replayed.
    let (st2, res2) = apply_claim(&st, &tx);
    match res2 {
        TransactionResult::Failure(TransactionInvalid::ReplayProtectionViolation(_)) => (),
        other => panic!("{:?}", other),
    }
    assert_eq!(st2.utxo.ann().value, 5_000_000);
}

#[test]
fn bridge_claim_with_dust_delegation_starts_generation() {
    let mut state = base_state(0, 0, 0);
    state.bridge_receiving.insert(addr(2), MAX_SUPPLY);
    state.dust.address_delegation.insert(addr(2), DustPublicKey(HashOutput([5; 32])));
    let tx = claim(MAX_SUPPLY, addr(2), ClaimKind::CardanoBridge);
    let (st, res) = apply_claim(&state, &tx);
    match res {
        TransactionResult::Success(evs) => assert_eq!(evs.len(), 1),
        other => panic!("{:?}", other),
    }
    assert_eq!(st.dust.generating_tree.len(), 1);
    assert_eq!(st.dust.generating_tree[0].value, MAX_SUPPLY);
    assert_eq!(st.dust.generating_tree[0].dtime, u64::MAX);
    assert_eq!(st.dust.commitments_first_free, 1);
    assert_eq!(st.dust.night_indices.get(&InitialNonce(HashOutput([3; 32]))), Some(0));
}

#[test]
fn bridged_distribution_conserves_supply() {
    // the whole supply sits in the locked pool
    let state = base_state(MAX_SUPPLY, 0, 0);
    let outs = vec![
        OutputInstructionUnshielded { amount: 100_000, target_address: addr(1), nonce: HashOutput([1; 32]) },
        OutputInstructionUnshielded { amount: 500, target_address: addr(2), nonce: HashOutput([2; 32]) },
    ];
    let hashes = vec![IntentHash(HashOutput([11; 32])), IntentHash(HashOutput([12; 32]))];
    let tx = SystemTransaction::DistributeNight(ClaimKind::CardanoBridge, outs);
    let (st, evs) = state.apply_system_tx(&tx, 10, &hashes).unwrap();
    assert!(evs.is_empty());
    assert_eq!(st.locked_pool, MAX_SUPPLY - 100_500);
    // 5% of the first amount goes to the treasury as fee, the rest waits to
    // be claimed; the second amount is below the minimum and is all fee
    assert_eq!(st.treasury.get(&TokenType::Unshielded(night())), Some(5_000 + 500));
    assert_eq!(st.bridge_receiving.get(&addr(1)), Some(95_000));
    assert_eq!(st.bridge_receiving.get(&addr(2)), Some(0));
    assert!(st.check_night_balance_invariant().is_ok());
}

#[test]
fn reserve_and_treasury_transactions_read_no_time() {
    let state = base_state(0, MAX_SUPPLY, 0);
    let (st, _) = state.apply_system_tx(&SystemTransaction::DistributeReserve(10), u64::MAX, &vec![]).unwrap();
    assert_eq!((st.reserve_pool, st.block_reward_pool), (MAX_SUPPLY - 10, 10));
    let pay = SystemTransaction::PayFromTreasuryUnshielded { outputs: vec![], token_type: night() };
    assert!(matches!(state.apply_system_tx(&pay, u64::MAX, &vec![]), Err(SystemTransactionError::TreasuryDisabled)));
}
