use midnight_ledger::dust::{initial_dust_parameters, DustEvent, DustGenerationInfo, DustPublicKey, InitialNonce};
use midnight_ledger::dust_wallet::{DerivedKeys, DustLocalState, DustSpendError, EventReplayError, QualifiedDustOutput, TreeName};
use midnight_ledger::hash::HashOutput;
use midnight_ledger::ledger::LedgerEvent;

fn h(b: u8) -> HashOutput {
    HashOutput([b; 32])
}

fn pk() -> DustPublicKey {
    DustPublicKey(h(1))
}

fn initial(owner: DustPublicKey, generation_index: u64, mt_index: u64, block_time: u64) -> LedgerEvent {
    LedgerEvent::Dust(DustEvent::InitialUtxo {
        initial_value: 0,
        owner,
        ctime: 100,
        backing_night: InitialNonce(h(7)),
        mt_index,
        generation: DustGenerationInfo { value: 1000, owner, nonce: InitialNonce(h(7)), dtime: u64::MAX },
        generation_index,
        block_time,
    })
}

fn keys(b: u8) -> DerivedKeys {
    DerivedKeys { nonce: h(b), nullifier: h(b + 100) }
}

#[test]
fn wallet_receives_its_outputs_and_skips_others() {
    let w = DustLocalState::new(initial_dust_parameters());
    let (w, ch) = w.replay_event(&pk(), &initial(DustPublicKey(h(2)), 0, 0, 100), &keys(3)).unwrap();
    assert!(ch.is_none());
    assert_eq!(w.commitment_tree_first_free, 1);
    let (w, ch) = w.replay_event(&pk(), &initial(pk(), 1, 1, 100), &keys(4)).unwrap();
    let got = ch.unwrap().received.unwrap();
    assert_eq!((got.mt_index, got.seq), (1, 0));
    assert!(w.dust_utxos.get(&h(104)).is_some());
    assert_eq!(w.night_indices.get(&InitialNonce(h(7))), Some(1));
    assert_eq!((w.generating_tree.len(), w.sync_time), (2, 100));
}

#[test]
fn wallet_refuses_out_of_order_and_past_events() {
    let w = DustLocalState::new(initial_dust_parameters());
    match w.replay_event(&pk(), &initial(pk(), 1, 0, 100), &keys(3)) {
        Err(EventReplayError::NonLinearInsertion { expected_next, received, tree_name }) => {
            assert_eq!((expected_next, received), (0, 1));
            assert_eq!(tree_name, TreeName::DustGeneration);
        }
        _ => panic!("expected an insertion out of order"),
    }
    match w.replay_event(&pk(), &initial(pk(), 0, 4, 100), &keys(3)) {
        Err(EventReplayError::NonLinearInsertion { tree_name, .. }) => assert_eq!(tree_name, TreeName::DustCommitment),
        _ => panic!("expected an insertion out of order"),
    }
    let (w, _) = w.replay_event(&pk(), &initial(pk(), 0, 0, 100), &keys(3)).unwrap();
    match w.replay_event(&pk(), &initial(pk(), 1, 1, 99), &keys(4)) {
        Err(EventReplayError::EventForPastTime { synced, event }) => assert_eq!((synced, event), (100, 99)),
        _ => panic!("expected an event for a past time"),
    }
}

#[test]
fn wallet_spends_and_follows_its_spend() {
    let w = DustLocalState::new(initial_dust_parameters());
    let (w, _) = w.replay_event(&pk(), &initial(pk(), 0, 0, 100), &keys(3)).unwrap();
    let utxo = QualifiedDustOutput {
        initial_value: 0,
        owner: pk(),
        nonce: h(3),
        seq: 0,
        ctime: 100,
        backing_night: InitialNonce(h(7)),
        mt_index: 0,
    };
    // 10 seconds at 1000 * 8267 per second
    match w.spend(&utxo, &h(103), &h(50), 82_670_001, 110) {
        Err(DustSpendError::NotEnoughDust { available, required }) => assert_eq!((available, required), (82_670_000, 82_670_001)),
        _ => panic!("expected not enough DUST"),
    }
    let (w2, sp) = w.spend(&utxo, &h(103), &h(50), 670_000, 110).unwrap();
    assert_eq!(sp.v_fee, 670_000);
    assert_eq!(w2.dust_utxos.get(&h(103)).unwrap().pending_until, Some(110 + 10_800));
    let mut other = utxo;
    other.backing_night = InitialNonce(h(8));
    assert!(matches!(w.spend(&other, &h(103), &h(50), 1, 110), Err(DustSpendError::BackingNightNotFound(_))));
    // the ledger processes the spend: the output is replaced by its successor
    let ev = LedgerEvent::Dust(DustEvent::DustSpendProcessed {
        commitment: h(50),
        commitment_index: 1,
        nullifier: h(103),
        v_fee: 670_000,
        declared_time: 110,
        block_time: 120,
    });
    let (w3, ch) = w2.replay_event(&pk(), &ev, &keys(9)).unwrap();
    let ch = ch.unwrap();
    assert_eq!(ch.spent.unwrap().seq, 0);
    let fresh = ch.received.unwrap();
    assert_eq!((fresh.initial_value, fresh.seq, fresh.mt_index), (82_000_000, 1, 1));
    assert!(w3.dust_utxos.get(&h(103)).is_none());
    assert!(w3.dust_utxos.get(&h(109)).is_some());
}
