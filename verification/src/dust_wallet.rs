//! A wallet's local view of DUST: the generation records and the commitment
//! tree as far as it has followed them, where its own backing NIGHT sits,
//! the DUST outputs it owns (by nullifier), and the time it is synced to.
//! It follows the ledger by replaying its events, and spends its outputs.
//! Nullifiers and nonces derive from the wallet's secret key with hashes
//! that the library does not compute: the caller passes them in.
use vstd::prelude::*;
use crate::hash::{KeyEq, HashOutput};
use crate::keyed::KeyMap;
use crate::dust::{
    DustEvent, DustParameters, DustGenerationInfo, DustPublicKey, InitialNonce, DustOutput, spec_updated_value, spec_sat_sub,
    sat_sub, DUST_TREE_CAPACITY,
};
use crate::ledger::LedgerEvent;
use crate::intent::DustSpend;

verus! {

/// A DUST output with where it sits: the backing NIGHT and the output's
/// leaf in the commitment tree.
#[derive(Debug, Clone, Copy)]
pub struct QualifiedDustOutput {
    pub initial_value: u128,
    pub owner: DustPublicKey,
    pub nonce: HashOutput,
    pub seq: u32,
    pub ctime: u64,
    pub backing_night: InitialNonce,
    pub mt_index: u64,
}

/// An output the wallet holds, and until when it is pending after the
/// wallet spent it.
#[derive(Debug, Clone, Copy)]
pub struct DustWalletUtxoState {
    pub utxo: QualifiedDustOutput,
    pub pending_until: Option<u64>,
}

/// The output itself, without where it sits.
pub open spec fn plain_output(q: QualifiedDustOutput) -> DustOutput {
    DustOutput { initial_value: q.initial_value, owner: q.owner, nonce: q.nonce, seq: q.seq, ctime: q.ctime }
}

/// The tree that an insertion out of order was for.
#[derive(Debug, Clone, Copy, PartialEq, Eq, Structural)]
pub enum TreeName {
    DustGeneration,
    DustCommitment,
}

/// Why replaying an event failed.
#[derive(Debug, Clone, Copy)]
pub enum EventReplayError {
    /// The event inserts into a tree at another leaf than its next free one.
    NonLinearInsertion { expected_next: u64, received: u64, tree_name: TreeName },
    /// The event is for a block time before the one the wallet is synced to.
    EventForPastTime { synced: u64, event: u64 },
    /// A tree has no such leaf, or no free leaf left.
    MerkleTreeError,
}

/// What an event changed of the wallet's outputs.
#[derive(Debug, Clone, Copy)]
pub struct DustStateChanges {
    pub received: Option<QualifiedDustOutput>,
    pub spent: Option<QualifiedDustOutput>,
}

/// The wallet as plain values.
pub struct WalletView {
    pub generating_tree: Seq<DustGenerationInfo>,
    pub commitment_tree_first_free: u64,
    pub night_indices: Map<InitialNonce, u64>,
    pub dust_utxos: Map<HashOutput, DustWalletUtxoState>,
    pub sync_time: u64,
    pub params: DustParameters,
}

/// The nonce and the nullifier of the output that an event concerns (the
/// new output, or the successor of a spent one), derived from the wallet's
/// secret key.
#[derive(Debug, Clone, Copy)]
pub struct DerivedKeys {
    pub nonce: HashOutput,
    pub nullifier: HashOutput,
}

/// The block time of an event is not before the synced time: the wallet is
/// then synced to it; else the event is refused.
pub open spec fn synced_to(
    v: WalletView,
    block_time: u64,
    change: Option<DustStateChanges>,
) -> Result<(WalletView, Option<DustStateChanges>), EventReplayError> {
    if block_time < v.sync_time {
        Err(EventReplayError::EventForPastTime { synced: v.sync_time, event: block_time })
    } else {
        Ok((WalletView { sync_time: block_time, ..v }, change))
    }
}

/// What replaying one ledger event gives the wallet of key `pk`.
/// - A new DUST output must take the next free generation leaf and the next
///   free commitment leaf (else `NonLinearInsertion`, generation checked
///   first) of trees with room (else `MerkleTreeError`); where the wallet
///   owns it, it records where the backing NIGHT's generation sits and
///   holds the output under its nullifier.
/// - A processed spend must take the next free commitment leaf; where the
///   wallet holds the spent output and knows its backing NIGHT, the spent
///   output is replaced by its successor (its value at the declared time
///   less the fee, saturating) under the successor's nullifier.
/// - A generation update replaces the record at its leaf (which must exist).
/// - New parameters replace the wallet's DUST parameters.
/// Each DUST event then needs a block time not before the synced time
/// (else `EventForPastTime`), which becomes the synced time.
pub open spec fn spec_replay_event(
    v: WalletView,
    pk: DustPublicKey,
    ev: LedgerEvent,
    keys: DerivedKeys,
) -> Result<(WalletView, Option<DustStateChanges>), EventReplayError> {
    match ev {
        LedgerEvent::ParamChange(p) => Ok((WalletView { params: p.dust, ..v }, None)),
        LedgerEvent::Dust(DustEvent::InitialUtxo {
            initial_value,
            owner,
            ctime,
            backing_night,
            mt_index,
            generation,
            generation_index,
            block_time,
        }) => {
            let gen_free = v.generating_tree.len();
            if generation_index != gen_free {
                Err(EventReplayError::NonLinearInsertion {
                    expected_next: gen_free as u64,
                    received: generation_index,
                    tree_name: TreeName::DustGeneration,
                })
            } else if gen_free >= DUST_TREE_CAPACITY {
                Err(EventReplayError::MerkleTreeError)
            } else if mt_index != v.commitment_tree_first_free {
                Err(EventReplayError::NonLinearInsertion {
                    expected_next: v.commitment_tree_first_free,
                    received: mt_index,
                    tree_name: TreeName::DustCommitment,
                })
            } else if mt_index >= DUST_TREE_CAPACITY {
                Err(EventReplayError::MerkleTreeError)
            } else {
                let v1 = WalletView {
                    generating_tree: v.generating_tree.push(generation),
                    commitment_tree_first_free: (mt_index + 1) as u64,
                    ..v
                };
                let out = QualifiedDustOutput {
                    initial_value,
                    owner,
                    nonce: keys.nonce,
                    seq: 0,
                    ctime,
                    backing_night,
                    mt_index,
                };
                if owner == pk {
                    synced_to(
                        WalletView {
                            night_indices: v1.night_indices.insert(backing_night, generation_index),
                            dust_utxos: v1.dust_utxos.insert(keys.nullifier, DustWalletUtxoState { utxo: out, pending_until: None }),
                            ..v1
                        },
                        block_time,
                        Some(DustStateChanges { received: Some(out), spent: None }),
                    )
                } else {
                    synced_to(v1, block_time, None)
                }
            }
        },
        LedgerEvent::Dust(DustEvent::DustSpendProcessed { commitment, commitment_index, nullifier, v_fee, declared_time, block_time }) => {
            if commitment_index != v.commitment_tree_first_free {
                Err(EventReplayError::NonLinearInsertion {
                    expected_next: v.commitment_tree_first_free,
                    received: commitment_index,
                    tree_name: TreeName::DustCommitment,
                })
            } else if commitment_index >= DUST_TREE_CAPACITY {
                Err(EventReplayError::MerkleTreeError)
            } else {
                let v1 = WalletView { commitment_tree_first_free: (commitment_index + 1) as u64, ..v };
                if v.dust_utxos.contains_key(nullifier) && v.night_indices.contains_key(v.dust_utxos[nullifier].utxo.backing_night)
                    && v.night_indices[v.dust_utxos[nullifier].utxo.backing_night] < v.generating_tree.len() {
                    let spent = v.dust_utxos[nullifier].utxo;
                    let gen = v.generating_tree[v.night_indices[spent.backing_night] as int];
                    let v_pre = spec_updated_value(plain_output(spent), gen, declared_time, v.params);
                    let fresh = QualifiedDustOutput {
                        initial_value: spec_sat_sub(v_pre, v_fee),
                        owner: spent.owner,
                        nonce: keys.nonce,
                        seq: (spent.seq + 1) as u32,
                        ctime: declared_time,
                        backing_night: spent.backing_night,
                        mt_index: commitment_index,
                    };
                    synced_to(
                        WalletView {
                            dust_utxos: v1.dust_utxos.remove(nullifier).insert(
                                keys.nullifier,
                                DustWalletUtxoState { utxo: fresh, pending_until: None },
                            ),
                            ..v1
                        },
                        block_time,
                        Some(DustStateChanges { received: Some(fresh), spent: Some(spent) }),
                    )
                } else {
                    synced_to(v1, block_time, None)
                }
            }
        },
        LedgerEvent::Dust(DustEvent::GenerationDtimeUpdate { index, generation, block_time }) => {
            if index >= v.generating_tree.len() {
                Err(EventReplayError::MerkleTreeError)
            } else {
                synced_to(WalletView { generating_tree: v.generating_tree.update(index as int, generation), ..v }, block_time, None)
            }
        },
    }
}

/// Why a spend could not be made.
#[derive(Debug, Clone, Copy)]
pub enum DustSpendError {
    /// The wallet does not know where the output's backing NIGHT's
    /// generation record sits.
    BackingNightNotFound(QualifiedDustOutput),
    /// The wallet does not hold the output.
    DustUtxoNotTracked(QualifiedDustOutput),
    /// The output holds less DUST than the fee.
    NotEnoughDust { available: u128, required: u128 },
}

/// A wallet's local DUST state.
pub struct DustLocalState {
    pub generating_tree: Vec<DustGenerationInfo>,
    pub commitment_tree_first_free: u64,
    pub night_indices: KeyMap<InitialNonce, u64>,
    pub dust_utxos: KeyMap<HashOutput, DustWalletUtxoState>,
    pub sync_time: u64,
    pub params: DustParameters,
}

impl DustLocalState {
    /// The maps are well formed.
    pub open spec fn wf(&self) -> bool {
        self.night_indices.wf() && self.dust_utxos.wf()
    }

    /// The wallet as plain values.
    pub open spec fn wview(&self) -> WalletView {
        WalletView {
            generating_tree: self.generating_tree@,
            commitment_tree_first_free: self.commitment_tree_first_free,
            night_indices: self.night_indices@,
            dust_utxos: self.dust_utxos@,
            sync_time: self.sync_time,
            params: self.params,
        }
    }

    /// An empty wallet with the given parameters, synced to time zero.
    pub fn new(params: DustParameters) -> (r: Self)
        ensures
            r.wf(),
            r.wview() == (WalletView {
                generating_tree: Seq::empty(),
                commitment_tree_first_free: 0,
                night_indices: Map::empty(),
                dust_utxos: Map::empty(),
                sync_time: 0,
                params,
            }),
    {
        DustLocalState {
            generating_tree: Vec::new(),
            commitment_tree_first_free: 0,
            night_indices: KeyMap::new(),
            dust_utxos: KeyMap::new(),
            sync_time: 0,
            params,
        }
    }

    /// A copy of this wallet.
    pub fn duplicate(&self) -> (r: Self)
        requires
            self.wf(),
        ensures
            r.wf(),
            r.wview() == self.wview(),
    {
        let mut tree: Vec<DustGenerationInfo> = Vec::new();
        let mut i: usize = 0;
        while i < self.generating_tree.len()
            invariant
                0 <= i <= self.generating_tree@.len(),
                tree@ == self.generating_tree@.take(i as int),
            decreases self.generating_tree@.len() - i,
        {
            tree.push(self.generating_tree[i]);
            i = i + 1;
            proof {
                assert(tree@ =~= self.generating_tree@.take(i as int));
            }
        }
        proof {
            assert(tree@ =~= self.generating_tree@);
        }
        DustLocalState {
            generating_tree: tree,
            commitment_tree_first_free: self.commitment_tree_first_free,
            night_indices: self.night_indices.duplicate(),
            dust_utxos: self.dust_utxos.duplicate(),
            sync_time: self.sync_time,
            params: self.params,
        }
    }

    /// Replays one ledger event (see `spec_replay_event`) for the wallet of
    /// key `pk`; `keys` holds the nonce and nullifier of the output the
    /// event concerns. Returns the new wallet and what changed of its
    /// outputs.
    pub fn replay_event(&self, pk: &DustPublicKey, ev: &LedgerEvent, keys: &DerivedKeys)
        -> (res: Result<(DustLocalState, Option<DustStateChanges>), EventReplayError>)
        requires
            self.wf(),
            ev matches LedgerEvent::Dust(DustEvent::DustSpendProcessed { nullifier, .. }) ==> (self.dust_utxos@.contains_key(*nullifier)
                ==> self.dust_utxos@[*nullifier].utxo.seq < u32::MAX && (self.night_indices@.contains_key(
                self.dust_utxos@[*nullifier].utxo.backing_night,
            ) ==> self.night_indices@[self.dust_utxos@[*nullifier].utxo.backing_night] < self.generating_tree@.len())),
        ensures
            match (res, spec_replay_event(self.wview(), *pk, *ev, *keys)) {
                (Ok((st, ch)), Ok((v, sch))) => st.wf() && st.wview() == v && ch == sch,
                (Err(e), Err(se)) => e == se,
                _ => false,
            },
    {
        let mut st = self.duplicate();
        match ev {
            LedgerEvent::ParamChange(p) => {
                st.params = p.dust;
                Ok((st, None))
            },
            LedgerEvent::Dust(DustEvent::InitialUtxo {
                initial_value,
                owner,
                ctime,
                backing_night,
                mt_index,
                generation,
                generation_index,
                block_time,
            }) => {
                let gen_free = st.generating_tree.len() as u64;
                if *generation_index != gen_free {
                    return Err(
                        EventReplayError::NonLinearInsertion {
                            expected_next: gen_free,
                            received: *generation_index,
                            tree_name: TreeName::DustGeneration,
                        },
                    );
                }
                if gen_free >= DUST_TREE_CAPACITY {
                    return Err(EventReplayError::MerkleTreeError);
                }
                if *mt_index != st.commitment_tree_first_free {
                    return Err(
                        EventReplayError::NonLinearInsertion {
                            expected_next: st.commitment_tree_first_free,
                            received: *mt_index,
                            tree_name: TreeName::DustCommitment,
                        },
                    );
                }
                if *mt_index >= DUST_TREE_CAPACITY {
                    return Err(EventReplayError::MerkleTreeError);
                }
                st.generating_tree.push(*generation);
                st.commitment_tree_first_free = *mt_index + 1;
                let out = QualifiedDustOutput {
                    initial_value: *initial_value,
                    owner: *owner,
                    nonce: keys.nonce,
                    seq: 0,
                    ctime: *ctime,
                    backing_night: *backing_night,
                    mt_index: *mt_index,
                };
                let change = if owner.0.key_eq(&pk.0) {
                    st.night_indices.insert(*backing_night, *generation_index);
                    st.dust_utxos.insert(keys.nullifier, DustWalletUtxoState { utxo: out, pending_until: None });
                    Some(DustStateChanges { received: Some(out), spent: None })
                } else {
                    None
                };
                if *block_time < st.sync_time {
                    return Err(EventReplayError::EventForPastTime { synced: st.sync_time, event: *block_time });
                }
                st.sync_time = *block_time;
                Ok((st, change))
            },
            LedgerEvent::Dust(DustEvent::DustSpendProcessed { commitment, commitment_index, nullifier, v_fee, declared_time, block_time }) => {
                if *commitment_index != st.commitment_tree_first_free {
                    return Err(
                        EventReplayError::NonLinearInsertion {
                            expected_next: st.commitment_tree_first_free,
                            received: *commitment_index,
                            tree_name: TreeName::DustCommitment,
                        },
                    );
                }
                if *commitment_index >= DUST_TREE_CAPACITY {
                    return Err(EventReplayError::MerkleTreeError);
                }
                st.commitment_tree_first_free = *commitment_index + 1;
                let mut change: Option<DustStateChanges> = None;
                match self.dust_utxos.get(nullifier) {
                    Some(held) => {
                        match self.night_indices.get(&held.utxo.backing_night) {
                            Some(gen_idx) => {
                                if (gen_idx as u128) < (self.generating_tree.len() as u128) {
                                    let spent = held.utxo;
                                    let gen = self.generating_tree[gen_idx as usize];
                                    let out = DustOutput {
                                        initial_value: spent.initial_value,
                                        owner: spent.owner,
                                        nonce: spent.nonce,
                                        seq: spent.seq,
                                        ctime: spent.ctime,
                                    };
                                    let v_pre = out.updated_value(&gen, *declared_time, &self.params);
                                    let fresh = QualifiedDustOutput {
                                        initial_value: sat_sub(v_pre, *v_fee),
                                        owner: spent.owner,
                                        nonce: keys.nonce,
                                        seq: spent.seq + 1,
                                        ctime: *declared_time,
                                        backing_night: spent.backing_night,
                                        mt_index: *commitment_index,
                                    };
                                    st.dust_utxos.remove(nullifier);
                                    st.dust_utxos.insert(keys.nullifier, DustWalletUtxoState { utxo: fresh, pending_until: None });
                                    change = Some(DustStateChanges { received: Some(fresh), spent: Some(spent) });
                                }
                            },
                            None => {},
                        }
                    },
                    None => {},
                }
                if *block_time < st.sync_time {
                    return Err(EventReplayError::EventForPastTime { synced: st.sync_time, event: *block_time });
                }
                st.sync_time = *block_time;
                Ok((st, change))
            },
            LedgerEvent::Dust(DustEvent::GenerationDtimeUpdate { index, generation, block_time }) => {
                if (*index as u128) >= (st.generating_tree.len() as u128) {
                    return Err(EventReplayError::MerkleTreeError);
                }
                st.generating_tree.set(*index as usize, *generation);
                if *block_time < st.sync_time {
                    return Err(EventReplayError::EventForPastTime { synced: st.sync_time, event: *block_time });
                }
                st.sync_time = *block_time;
                Ok((st, None))
            },
        }
    }
}

/// The wallet knows where the generation record of `utxo`'s backing NIGHT
/// sits.
pub open spec fn backing_known(v: WalletView, utxo: QualifiedDustOutput) -> bool {
    v.night_indices.contains_key(utxo.backing_night) && v.night_indices[utxo.backing_night] < v.generating_tree.len()
}

/// The value of `utxo` at `ctime`, under its backing NIGHT's record.
pub open spec fn value_at(v: WalletView, utxo: QualifiedDustOutput, ctime: u64) -> u128 {
    spec_updated_value(plain_output(utxo), v.generating_tree[v.night_indices[utxo.backing_night] as int], ctime, v.params)
}

/// What spending `utxo` (under `old_nullifier`) for a fee of `v_fee` at
/// `ctime` gives: refused where the backing NIGHT's record is unknown, where
/// the output lies beyond the commitment tree the wallet follows or is not
/// held, or where its value at `ctime` is below the fee; otherwise the held
/// output is pending until the grace period has passed, and the spend
/// carries the fee, the nullifier and `new_commitment`.
pub open spec fn spec_spend(
    v: WalletView,
    utxo: QualifiedDustOutput,
    old_nullifier: HashOutput,
    new_commitment: HashOutput,
    v_fee: u128,
    ctime: u64,
) -> Result<(WalletView, DustSpend), DustSpendError> {
    if !backing_known(v, utxo) {
        Err(DustSpendError::BackingNightNotFound(utxo))
    } else if utxo.mt_index >= v.commitment_tree_first_free {
        Err(DustSpendError::DustUtxoNotTracked(utxo))
    } else if v_fee > value_at(v, utxo, ctime) {
        Err(DustSpendError::NotEnoughDust { available: value_at(v, utxo, ctime), required: v_fee })
    } else if !v.dust_utxos.contains_key(old_nullifier) {
        Err(DustSpendError::DustUtxoNotTracked(utxo))
    } else {
        Ok((
            WalletView {
                dust_utxos: v.dust_utxos.insert(
                    old_nullifier,
                    DustWalletUtxoState { utxo: v.dust_utxos[old_nullifier].utxo, pending_until: Some((ctime + v.params.dust_grace_period) as u64) },
                ),
                ..v
            },
            DustSpend { v_fee, old_nullifier, new_commitment },
        ))
    }
}

impl DustLocalState {
    /// Spends `utxo`, whose nullifier under the wallet's key is
    /// `old_nullifier`, for a fee of `v_fee` at `ctime` (see `spec_spend`).
    /// `new_commitment` is the commitment of the successor output: the
    /// value at `ctime` less the fee, the next sequence number, and the
    /// nonce that follows.
    pub fn spend(&self, utxo: &QualifiedDustOutput, old_nullifier: &HashOutput, new_commitment: &HashOutput, v_fee: u128, ctime: u64)
        -> (res: Result<(DustLocalState, DustSpend), DustSpendError>)
        requires
            self.wf(),
            spec_spend(self.wview(), *utxo, *old_nullifier, *new_commitment, v_fee, ctime) is Ok
                ==> ctime + self.params.dust_grace_period <= u64::MAX,
        ensures
            match (res, spec_spend(self.wview(), *utxo, *old_nullifier, *new_commitment, v_fee, ctime)) {
                (Ok((st, sp)), Ok((v, ssp))) => st.wf() && st.wview() == v && sp == ssp,
                (Err(e), Err(se)) => e == se,
                _ => false,
            },
    {
        let gen_idx = match self.night_indices.get(&utxo.backing_night) {
            Some(i) => i,
            None => return Err(DustSpendError::BackingNightNotFound(*utxo)),
        };
        if (gen_idx as u128) >= (self.generating_tree.len() as u128) {
            return Err(DustSpendError::BackingNightNotFound(*utxo));
        }
        if utxo.mt_index >= self.commitment_tree_first_free {
            return Err(DustSpendError::DustUtxoNotTracked(*utxo));
        }
        let gen = self.generating_tree[gen_idx as usize];
        let out = DustOutput {
            initial_value: utxo.initial_value,
            owner: utxo.owner,
            nonce: utxo.nonce,
            seq: utxo.seq,
            ctime: utxo.ctime,
        };
        let v_new = out.updated_value(&gen, ctime, &self.params);
        if v_fee > v_new {
            return Err(DustSpendError::NotEnoughDust { available: v_new, required: v_fee });
        }
        let held = match self.dust_utxos.get(old_nullifier) {
            Some(h) => h,
            None => return Err(DustSpendError::DustUtxoNotTracked(*utxo)),
        };
        let mut st = self.duplicate();
        st.dust_utxos.insert(
            *old_nullifier,
            DustWalletUtxoState { utxo: held.utxo, pending_until: Some(ctime + self.params.dust_grace_period) },
        );
        Ok((st, DustSpend { v_fee, old_nullifier: *old_nullifier, new_commitment: *new_commitment }))
    }
}

/// Replaying a generation dtime update puts the new record at its index of
/// the wallet's generation tree and changes no other record, no output the
/// wallet holds and no index of backing NIGHT; the wallet is then synced to
/// the event's block time.
pub proof fn lemma_dtime_update_replaces_record(
    v: WalletView,
    pk: DustPublicKey,
    index: u64,
    generation: DustGenerationInfo,
    block_time: u64,
    keys: DerivedKeys,
)
    requires
        index < v.generating_tree.len(),
        v.sync_time <= block_time,
    ensures
        spec_replay_event(v, pk, LedgerEvent::Dust(DustEvent::GenerationDtimeUpdate { index, generation, block_time }), keys) matches Ok(
            (w, ch),
        ) && ch is None && w.generating_tree.len() == v.generating_tree.len() && w.generating_tree[index as int] == generation
            && (forall|j: int| 0 <= j < v.generating_tree.len() && j != index ==> w.generating_tree[j] == v.generating_tree[j])
            && w.dust_utxos == v.dust_utxos && w.night_indices == v.night_indices && w.sync_time == block_time,
{
}

/// A spend pays its fee out of what the output is worth at the spend's
/// time under its backing NIGHT's generation record: it is refused with the
/// output's worth exactly when the fee exceeds it (the output being held
/// and its record known), and it never succeeds otherwise; a spend that
/// succeeds marks the held output pending until the grace period after the
/// spend's time, keeps every other output, and carries the fee, the
/// nullifier and the new commitment.
pub proof fn lemma_spend_pays_from_worth(
    v: WalletView,
    utxo: QualifiedDustOutput,
    old_nullifier: HashOutput,
    new_commitment: HashOutput,
    v_fee: u128,
    ctime: u64,
)
    ensures
        ({
            let r = spec_spend(v, utxo, old_nullifier, new_commitment, v_fee, ctime);
            let known = v.night_indices.contains_key(utxo.backing_night) && v.night_indices[utxo.backing_night] < v.generating_tree.len();
            let worth = spec_updated_value(
                plain_output(utxo),
                v.generating_tree[v.night_indices[utxo.backing_night] as int],
                ctime,
                v.params,
            );
            &&& (r is Ok ==> known && utxo.mt_index < v.commitment_tree_first_free && v_fee <= worth && v.dust_utxos.contains_key(
                old_nullifier,
            ))
            &&& (known && utxo.mt_index < v.commitment_tree_first_free && v_fee > worth ==> r == Err::<(WalletView, DustSpend), DustSpendError>(
                DustSpendError::NotEnoughDust { available: worth, required: v_fee },
            ))
            &&& (r matches Ok((w, sp)) ==> sp == (DustSpend { v_fee, old_nullifier, new_commitment }) && w.dust_utxos.contains_key(old_nullifier)
                && w.dust_utxos[old_nullifier].utxo == v.dust_utxos[old_nullifier].utxo && w.dust_utxos[old_nullifier].pending_until
                == Some((ctime + v.params.dust_grace_period) as u64) && (forall|n: HashOutput| n != old_nullifier ==> #[trigger] w.dust_utxos.contains_key(n)
                == v.dust_utxos.contains_key(n) && (v.dust_utxos.contains_key(n) ==> w.dust_utxos[n] == v.dust_utxos[n]))
                && w.generating_tree == v.generating_tree && w.night_indices == v.night_indices)
        }),
{
}

/// Replaying a new DUST output appends its generation record to the
/// wallet's generation tree and takes the next commitment leaf; an output
/// of the wallet's own key is then held, under its nullifier, with the
/// event's value, owner, creation time, backing NIGHT and leaf, as the
/// first of its line, and its backing NIGHT's record is indexed; an output
/// of another key changes neither what the wallet holds nor its indices.
pub proof fn lemma_new_output_received(
    v: WalletView,
    pk: DustPublicKey,
    initial_value: u128,
    owner: DustPublicKey,
    ctime: u64,
    backing_night: InitialNonce,
    generation: DustGenerationInfo,
    block_time: u64,
    keys: DerivedKeys,
)
    requires
        v.generating_tree.len() < DUST_TREE_CAPACITY,
        v.commitment_tree_first_free < DUST_TREE_CAPACITY,
        v.sync_time <= block_time,
    ensures
        ({
            let ev = LedgerEvent::Dust(DustEvent::InitialUtxo {
                initial_value,
                owner,
                ctime,
                backing_night,
                mt_index: v.commitment_tree_first_free,
                generation,
                generation_index: v.generating_tree.len() as u64,
                block_time,
            });
            let out = QualifiedDustOutput {
                initial_value,
                owner,
                nonce: keys.nonce,
                seq: 0,
                ctime,
                backing_night,
                mt_index: v.commitment_tree_first_free,
            };
            spec_replay_event(v, pk, ev, keys) matches Ok((w, ch)) && w.generating_tree == v.generating_tree.push(generation)
                && w.commitment_tree_first_free == v.commitment_tree_first_free + 1 && w.sync_time == block_time && (owner == pk ==> (
            w.dust_utxos == v.dust_utxos.insert(keys.nullifier, DustWalletUtxoState { utxo: out, pending_until: None })
                && w.night_indices == v.night_indices.insert(backing_night, v.generating_tree.len() as u64) && ch == Some(
                DustStateChanges { received: Some(out), spent: None },
            ))) && (owner != pk ==> w.dust_utxos == v.dust_utxos && w.night_indices == v.night_indices && ch is None)
        }),
{
}

/// Replaying a processed spend of an output the wallet holds (with its
/// backing NIGHT's record known) replaces it by its successor: the spent
/// output leaves, and the successor is held under its own nullifier with
/// what the spent output was worth at the declared time less the fee (zero
/// where the fee exceeds it), the next number in its line, the declared
/// time as creation time and the spend's commitment leaf.
pub proof fn lemma_spend_processed_replaces(
    v: WalletView,
    pk: DustPublicKey,
    commitment: HashOutput,
    nullifier: HashOutput,
    v_fee: u128,
    declared_time: u64,
    block_time: u64,
    keys: DerivedKeys,
)
    requires
        v.commitment_tree_first_free < DUST_TREE_CAPACITY,
        v.sync_time <= block_time,
        v.dust_utxos.contains_key(nullifier),
        v.night_indices.contains_key(v.dust_utxos[nullifier].utxo.backing_night),
        v.night_indices[v.dust_utxos[nullifier].utxo.backing_night] < v.generating_tree.len(),
        v.dust_utxos[nullifier].utxo.seq < u32::MAX,
    ensures
        ({
            let ev = LedgerEvent::Dust(DustEvent::DustSpendProcessed {
                commitment,
                commitment_index: v.commitment_tree_first_free,
                nullifier,
                v_fee,
                declared_time,
                block_time,
            });
            let spent = v.dust_utxos[nullifier].utxo;
            let worth = spec_updated_value(
                plain_output(spent),
                v.generating_tree[v.night_indices[spent.backing_night] as int],
                declared_time,
                v.params,
            );
            spec_replay_event(v, pk, ev, keys) matches Ok((w, ch)) && w.commitment_tree_first_free == v.commitment_tree_first_free + 1
                && w.sync_time == block_time && w.generating_tree == v.generating_tree && w.night_indices == v.night_indices
                && w.dust_utxos.contains_key(keys.nullifier) && (keys.nullifier != nullifier ==> !w.dust_utxos.contains_key(nullifier))
                && (forall|n: HashOutput| n != nullifier && n != keys.nullifier ==> #[trigger] w.dust_utxos.contains_key(n)
                == v.dust_utxos.contains_key(n)) && ({
                let fresh = w.dust_utxos[keys.nullifier].utxo;
                &&& fresh.initial_value == (if v_fee <= worth { worth - v_fee } else { 0 })
                &&& fresh.owner == spent.owner
                &&& fresh.seq == spent.seq + 1
                &&& fresh.ctime == declared_time
                &&& fresh.backing_night == spent.backing_night
                &&& fresh.mt_index == v.commitment_tree_first_free
                &&& ch == Some(DustStateChanges { received: Some(fresh), spent: Some(spent) })
            })
        }),
{
}

} // verus!
