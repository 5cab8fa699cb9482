use midnight_ledger::hash::{ContractAddress, HashOutput};
use midnight_ledger::intent::{ClaimedContractCall, ContractCall, Effects, Intent, StandardTransaction};
use midnight_ledger::keyed::{KeyMap, MultiMap};
use midnight_ledger::sequencing::{
    build_call_lookup, call_sequencing_check, causality_check, relate_nodes, sequencing_context_check,
    sequencing_correlation_check, CallKey, CallNode, CallerRef, SequencingCheckError, SubCall,
};

fn h(b: u8) -> HashOutput {
    HashOutput([b; 32])
}

fn caddr(b: u8) -> ContractAddress {
    ContractAddress(h(b))
}

fn effects(claims: Vec<ClaimedContractCall>) -> Effects {
    Effects {
        claimed_nullifiers: vec![],
        claimed_shielded_receives: vec![],
        claimed_shielded_spends: vec![],
        claimed_contract_calls: claims,
        shielded_mints: vec![],
        unshielded_mints: vec![],
        unshielded_inputs: vec![],
        unshielded_outputs: vec![],
        claimed_unshielded_spends: vec![],
    }
}

fn call(address: u8, ep: u8, cc: u8, guaranteed: Option<Effects>, fallible: Option<Effects>) -> ContractCall {
    ContractCall {
        address: caddr(address),
        ep_hash: h(ep),
        communication_commitment: h(cc),
        guaranteed_transcript: guaranteed,
        fallible_transcript: fallible,
    }
}

fn claim(seq: u64, address: u8, ep: u8, cc: u8) -> ClaimedContractCall {
    ClaimedContractCall { seq, address: caddr(address), ep_hash: h(ep), commitment: h(cc) }
}

fn intent(calls: Vec<ContractCall>) -> Intent {
    Intent {
        guaranteed_unshielded_offer: None,
        fallible_unshielded_offer: None,
        calls,
        dust_actions: None,
        ttl: 0,
    }
}

fn tx(intents: Vec<(u16, Intent)>) -> StandardTransaction {
    StandardTransaction { network_id: "local-test".to_string(), intents, guaranteed_coins: None, fallible_coins: vec![] }
}

#[test]
fn causality_check_failure() {
    let cn_1 = CallNode { segment_id: 1, addr: caddr(1), call_index: 1 };
    let cn_2 = CallNode { segment_id: 1, addr: caddr(2), call_index: 2 };
    let mut guaranteed_calls = KeyMap::new();
    guaranteed_calls.insert(cn_1, ());
    let mut fallible_calls = KeyMap::new();
    fallible_calls.insert(cn_2, ());
    let mut adjacencies = MultiMap::new();
    adjacencies.push(cn_2, cn_1);
    match causality_check(&guaranteed_calls, &fallible_calls, &adjacencies) {
        Ok(_) => panic!("Unexpected success"),
        Err(SequencingCheckError::CausalityConstraintViolation { call_predecessor, call_successor, .. }) => {
            assert_eq!(call_predecessor, 2);
            assert_eq!(call_successor, 1);
        }
        Err(e) => panic!("Test failed as expected, but the error was unexpected: {:?}", e),
    }
}

#[test]
fn causality_check_accepts_guaranteed_before_fallible() {
    let cn_1 = CallNode { segment_id: 1, addr: caddr(1), call_index: 1 };
    let cn_2 = CallNode { segment_id: 1, addr: caddr(2), call_index: 2 };
    let mut guaranteed_calls = KeyMap::new();
    guaranteed_calls.insert(cn_1, ());
    let mut fallible_calls = KeyMap::new();
    fallible_calls.insert(cn_2, ());
    let mut adjacencies = MultiMap::new();
    adjacencies.push(cn_1, cn_2);
    assert!(causality_check(&guaranteed_calls, &fallible_calls, &adjacencies).is_ok());
}

#[test]
fn sequencing_check_failure() {
    // the call at position 2 claims the call at position 1
    let calls = vec![
        call(9, 9, 9, Some(effects(vec![])), None),
        call(1, 3, 4, Some(effects(vec![])), None),
        call(2, 5, 6, Some(effects(vec![claim(1, 1, 3, 4)])), None),
    ];
    let lookup = build_call_lookup(&calls);
    match call_sequencing_check(2, &calls[2], &lookup) {
        Ok(_) => panic!("Unexpected success"),
        Err(SequencingCheckError::CallSequencingViolation { call_predecessor, call_successor, .. }) => {
            assert_eq!(call_predecessor, 2);
            assert_eq!(call_successor, 1);
        }
        Err(e) => panic!("Test failed as expected, but the error was unexpected: {:?}", e),
    }
}

#[test]
fn call_sequencing_check_lists_sub_calls() {
    let calls = vec![
        call(2, 5, 6, Some(effects(vec![claim(7, 1, 3, 4)])), None),
        call(1, 3, 4, Some(effects(vec![])), None),
    ];
    let lookup = build_call_lookup(&calls);
    let subs = call_sequencing_check(0, &calls[0], &lookup).unwrap();
    assert_eq!(subs.len(), 1);
    assert_eq!(subs[0].call_index, 1);
    assert_eq!(subs[0].seq, 7);
}

#[test]
fn sequencing_correlation_check_failure() {
    let addr_1 = caddr(1);
    let sequenced_sub_calls = vec![
        SubCall { call_index: 1, seq: 2, address: addr_1 },
        SubCall { call_index: 2, seq: 1, address: caddr(7) },
    ];
    match sequencing_correlation_check(addr_1, sequenced_sub_calls) {
        Ok(_) => panic!("Unexpected success"),
        Err(SequencingCheckError::SequencingCorrelationViolation { call_position_1, call_position_2, .. }) => {
            // sorted by sequence number, the call at 2 comes first
            assert_eq!(call_position_1, 2);
            assert_eq!(call_position_2, 1);
        }
        Err(e) => panic!("Test failed as expected, but the error was unexpected: {:?}", e),
    }
}

#[test]
fn sequencing_correlation_check_accepts_agreeing_order() {
    let subs = vec![
        SubCall { call_index: 3, seq: 5, address: caddr(2) },
        SubCall { call_index: 1, seq: 2, address: caddr(3) },
    ];
    assert!(sequencing_correlation_check(caddr(1), subs).is_ok());
}

fn context_check_fixture(caller_fallible: bool, callee_guaranteed: bool) -> Result<(), SequencingCheckError> {
    let cn_1 = CallNode { segment_id: 1, addr: caddr(1), call_index: 1 };
    let cn_2 = CallNode { segment_id: 1, addr: caddr(2), call_index: 2 };
    let claims = vec![claim(2, 2, 5, 6)];
    let cc_1 = if caller_fallible {
        call(1, 3, 4, None, Some(effects(claims)))
    } else {
        call(1, 3, 4, Some(effects(claims)), None)
    };
    let cc_2 = if callee_guaranteed {
        call(2, 5, 6, Some(effects(vec![])), None)
    } else {
        call(2, 5, 6, None, Some(effects(vec![])))
    };
    let calls = vec![call(9, 9, 9, Some(effects(vec![])), None), cc_1, cc_2];
    let mut adjacencies = MultiMap::new();
    adjacencies.push(cn_1, cn_2);
    let mut callers_for_addr = MultiMap::new();
    callers_for_addr.push(
        CallKey { addr: caddr(2), ep_hash: h(5), commitment: h(6) },
        CallerRef { node: cn_1, guaranteed: !caller_fallible },
    );
    sequencing_context_check(&mut adjacencies, 1, &calls, &callers_for_addr)
}

#[test]
fn sequencing_context_check_failure_guaranteed_in_fallible() {
    match context_check_fixture(true, true) {
        Ok(_) => panic!("Unexpected success"),
        Err(SequencingCheckError::GuaranteedInFallibleContextViolation { caller, callee, .. }) => {
            assert_eq!(caller, 1);
            assert_eq!(callee, 2);
        }
        Err(e) => panic!("Test failed as expected, but the error was unexpected: {:?}", e),
    }
}

#[test]
fn sequencing_context_check_failure_fallible_in_guaranteed() {
    match context_check_fixture(false, false) {
        Ok(_) => panic!("Unexpected success"),
        Err(SequencingCheckError::FallibleInGuaranteedContextViolation { caller, callee, .. }) => {
            assert_eq!(caller, 1);
            assert_eq!(callee, 2);
        }
        Err(e) => panic!("Test failed as expected, but the error was unexpected: {:?}", e),
    }
}

#[test]
fn sequencing_context_check_records_edges() {
    let mut adjacencies = MultiMap::new();
    let cn_1 = CallNode { segment_id: 1, addr: caddr(1), call_index: 0 };
    let calls = vec![
        call(1, 3, 4, Some(effects(vec![claim(1, 2, 5, 6)])), None),
        call(2, 5, 6, Some(effects(vec![])), None),
    ];
    let mut callers_for_addr = MultiMap::new();
    callers_for_addr.push(CallKey { addr: caddr(2), ep_hash: h(5), commitment: h(6) }, CallerRef { node: cn_1, guaranteed: true });
    assert!(sequencing_context_check(&mut adjacencies, 1, &calls, &callers_for_addr).is_ok());
    let succ = adjacencies.get(&cn_1);
    assert_eq!(succ.len(), 1);
    assert_eq!(succ[0].call_index, 1);
}

#[test]
fn relate_nodes_same_address_ordering() {
    // 6 calls to the same address: 0-3 guaranteed-only, 4-5 fallible-only.
    let calls: Vec<ContractCall> = (0..6u8)
        .map(|i| {
            if i < 4 {
                call(1, i, i, Some(effects(vec![])), None)
            } else {
                call(1, i, i, None, Some(effects(vec![])))
            }
        })
        .collect();
    let mut guaranteed_calls = KeyMap::new();
    let mut fallible_calls = KeyMap::new();
    let mut last_call_by_address = KeyMap::new();
    let mut adjacencies = MultiMap::new();
    let _callers = relate_nodes(
        &mut guaranteed_calls,
        &mut fallible_calls,
        &mut last_call_by_address,
        &mut adjacencies,
        1,
        &calls,
    )
    .unwrap();
    let mut backward_edge_found = false;
    for i in 0..6u32 {
        let from = CallNode { segment_id: 1, addr: caddr(1), call_index: i };
        for to in adjacencies.get(&from) {
            if from.call_index > to.call_index {
                backward_edge_found = true;
            }
        }
    }
    assert!(!backward_edge_found, "'related_nodes' produced backwards edges");
    assert!(
        causality_check(&guaranteed_calls, &fallible_calls, &adjacencies).is_ok(),
        "Spurious CausalityConstraintViolation for a valid call ordering"
    );
}

#[test]
fn relate_nodes_refuses_empty_transcripts() {
    let calls = vec![call(1, 1, 1, Some(effects(vec![])), None), call(2, 2, 2, None, None)];
    let mut guaranteed_calls = KeyMap::new();
    let mut fallible_calls = KeyMap::new();
    let mut last_call_by_address = KeyMap::new();
    let mut adjacencies = MultiMap::new();
    match relate_nodes(&mut guaranteed_calls, &mut fallible_calls, &mut last_call_by_address, &mut adjacencies, 3, &calls) {
        Err(SequencingCheckError::CallHasEmptyTranscripts { segment_id, call_index, .. }) => {
            assert_eq!(segment_id, 3);
            assert_eq!(call_index, 1);
        }
        _ => panic!("expected CallHasEmptyTranscripts"),
    }
    assert!(!guaranteed_calls.contains_key(&CallNode { segment_id: 3, addr: caddr(1), call_index: 0 }));
}

#[test]
fn sequencing_check_accepts_ordered_calls() {
    let t = tx(vec![(
        1,
        intent(vec![
            call(1, 3, 4, Some(effects(vec![claim(1, 2, 5, 6), claim(2, 3, 7, 8)])), None),
            call(2, 5, 6, Some(effects(vec![])), None),
            call(3, 7, 8, Some(effects(vec![])), None),
        ]),
    )]);
    assert!(t.sequencing_check().is_ok());
}

#[test]
fn sequencing_check_refuses_fallible_before_guaranteed_across_intents() {
    let t = tx(vec![
        (1, intent(vec![call(1, 3, 4, None, Some(effects(vec![])))])),
        (2, intent(vec![call(1, 5, 6, Some(effects(vec![])), None)])),
    ]);
    match t.sequencing_check() {
        Err(SequencingCheckError::CausalityConstraintViolation { segment_id_predecessor, segment_id_successor, .. }) => {
            assert_eq!(segment_id_predecessor, 1);
            assert_eq!(segment_id_successor, 2);
        }
        other => panic!("unexpected: {:?}", other),
    }
}

#[test]
fn sequencing_check_reports_first_intent_error() {
    let t = tx(vec![
        (1, intent(vec![call(1, 3, 4, None, None)])),
        (2, intent(vec![call(2, 5, 6, Some(effects(vec![claim(1, 2, 5, 6)])), None)])),
    ]);
    match t.sequencing_check() {
        Err(SequencingCheckError::CallHasEmptyTranscripts { segment_id, .. }) => assert_eq!(segment_id, 1),
        other => panic!("unexpected: {:?}", other),
    }
}

#[test]
fn causality_check_reports_least_violating_call() {
    let g = CallNode { segment_id: 2, addr: caddr(5), call_index: 0 };
    let f_late = CallNode { segment_id: 1, addr: caddr(2), call_index: 5 };
    let f_early = CallNode { segment_id: 1, addr: caddr(1), call_index: 9 };
    let mut guaranteed_calls = KeyMap::new();
    guaranteed_calls.insert(g, ());
    let mut fallible_calls = KeyMap::new();
    fallible_calls.insert(f_late, ());
    fallible_calls.insert(f_early, ());
    let mut adjacencies = MultiMap::new();
    adjacencies.push(f_late, g);
    adjacencies.push(f_early, g);
    match causality_check(&guaranteed_calls, &fallible_calls, &adjacencies) {
        Err(SequencingCheckError::CausalityConstraintViolation { call_predecessor, call_predecessor_address, .. }) => {
            assert_eq!(call_predecessor, 9);
            assert_eq!(call_predecessor_address.0 .0, [1u8; 32]);
        }
        other => panic!("unexpected: {:?}", other),
    }
}
