//! Applying one section of a standard transaction to the ledger: the
//! guaranteed section (segment zero) or one fallible segment, as far as it
//! touches replay protection, the unshielded UTXO set and DUST generation.
use vstd::prelude::*;
use crate::hash::IntentHash;
use crate::intent::{Intent, StandardTransaction};
use crate::utxo::{UnshieldedOffer, Utxo, UtxoError, UtxoMeta, UtxoOutput, UtxoSpend, UtxoState, spec_remove_inputs, spec_add_outputs, outputs_value, lemma_outputs_value_nonneg, lemma_add_outputs_numbered, lemma_remove_inputs_spends};
use crate::dust::{DustView, DustEvent, InitialNonce, spec_end_generations, spec_start_generations};
use crate::dust_fees::spec_apply_dust_actions;
use crate::ledger::{LedgerState, TransactionInvalid};
use crate::replay::{spec_apply_intents, TransactionApplicationError, lemma_apply_intents_records};

verus! {

/// The offer that a section applies of an intent: the guaranteed one in
/// segment zero, the fallible one elsewhere.
pub open spec fn section_offer(parent: Intent, segment: u16) -> Option<UnshieldedOffer> {
    if segment == 0 {
        parent.guaranteed_unshielded_offer
    } else {
        parent.fallible_unshielded_offer
    }
}

pub open spec fn section_inputs(parent: Intent, segment: u16) -> Seq<UtxoSpend> {
    match section_offer(parent, segment) {
        Some(o) => o.inputs@,
        None => Seq::empty(),
    }
}

pub open spec fn section_outputs(parent: Intent, segment: u16) -> Seq<UtxoOutput> {
    match section_offer(parent, segment) {
        Some(o) => o.outputs@,
        None => Seq::empty(),
    }
}

/// One unshielded offer: its inputs leave the UTXO set and its outputs
/// join it under the intent's hash at `tblock`, then DUST generation ends
/// for the NIGHT inputs and starts for the NIGHT outputs.
pub open spec fn spec_offer_step(
    u: Map<Utxo, UtxoMeta>,
    d: DustView,
    o: UnshieldedOffer,
    parent: Intent,
    hash: IntentHash,
    in_n: Seq<InitialNonce>,
    out_n: Seq<InitialNonce>,
    segment: u16,
    tblock: u64,
) -> Result<(Map<Utxo, UtxoMeta>, DustView, Seq<DustEvent>), TransactionInvalid> {
    match spec_remove_inputs(u, o.inputs@) {
        Err(x) => Err(TransactionInvalid::InputNotInUtxos(x)),
        Ok(m) => {
            let u2 = spec_add_outputs(m, o.outputs@, hash, tblock);
            let (v1, evs1) = spec_end_generations(d, o.inputs@, in_n, tblock, o.inputs@.len() as int);
            match spec_start_generations(v1, o.outputs@, out_n, parent, segment, tblock, o.outputs@.len() as int) {
                Ok((v2, evs2)) => Ok((u2, v2, evs1 + evs2)),
                Err(e) => Err(TransactionInvalid::DustState(e)),
            }
        },
    }
}

/// The guaranteed offers of the first `k` intents, in order.
pub open spec fn guaranteed_fold(
    u: Map<Utxo, UtxoMeta>,
    d: DustView,
    intents: Seq<(u16, Intent)>,
    hashes: Seq<IntentHash>,
    in_n: Seq<Vec<InitialNonce>>,
    out_n: Seq<Vec<InitialNonce>>,
    tblock: u64,
    k: int,
) -> Result<(Map<Utxo, UtxoMeta>, DustView, Seq<DustEvent>), TransactionInvalid>
    decreases k,
{
    if k <= 0 {
        Ok((u, d, Seq::empty()))
    } else {
        match guaranteed_fold(u, d, intents, hashes, in_n, out_n, tblock, k - 1) {
            Err(e) => Err(e),
            Ok((u1, d1, e1)) => match intents[k - 1].1.guaranteed_unshielded_offer {
                None => Ok((u1, d1, e1)),
                Some(o) => match spec_offer_step(u1, d1, o, intents[k - 1].1, hashes[k - 1], in_n[k - 1]@, out_n[k - 1]@, 0, tblock) {
                    Ok((u2, d2, e2)) => Ok((u2, d2, e1 + e2)),
                    Err(e) => Err(e),
                },
            },
        }
    }
}

/// The value of the outputs of the guaranteed offers of the first `k`
/// intents.
pub open spec fn guaranteed_outputs_value(intents: Seq<(u16, Intent)>, k: int) -> int
    decreases k,
{
    if k <= 0 {
        0
    } else {
        guaranteed_outputs_value(intents, k - 1) + outputs_value(section_outputs(intents[k - 1].1, 0))
    }
}

/// The position of the intent of segment `s`, or -1.
pub open spec fn intent_index(intents: Seq<(u16, Intent)>, s: u16) -> int
    decreases intents.len(),
{
    if intents.len() == 0 {
        -1
    } else if intents.last().0 == s {
        intents.len() - 1
    } else {
        intent_index(intents.drop_last(), s)
    }
}

/// The value of the outputs that a section adds to the UTXO set.
pub open spec fn section_outputs_value(intents: Seq<(u16, Intent)>, segment: u16) -> int {
    if segment == 0 {
        guaranteed_outputs_value(intents, intents.len() as int)
    } else {
        let k = intent_index(intents, segment);
        if k >= 0 { outputs_value(section_outputs(intents[k].1, segment)) } else { 0 }
    }
}

/// What applying a section gives: the replay protection map, the UTXO set,
/// the DUST state and the events, or the first failure.
///
/// The guaranteed section records every intent for replay protection,
/// applies the guaranteed offers of the intents in order, then runs the fee
/// stage (DUST spends paying `fees`, then registrations, against the
/// reference UTXO set `ref_utxos`). A fallible segment applies the fallible
/// offer of its intent, if it has one.
pub open spec fn spec_section(
    st: LedgerState,
    tx: StandardTransaction,
    segment: u16,
    hashes: Seq<IntentHash>,
    in_n: Seq<Vec<InitialNonce>>,
    out_n: Seq<Vec<InitialNonce>>,
    fees: u128,
    ref_utxos: Map<Utxo, UtxoMeta>,
    tblock: u64,
) -> Result<(Map<IntentHash, u64>, Map<Utxo, UtxoMeta>, DustView, Seq<DustEvent>), TransactionInvalid> {
    let intents = tx.intents@;
    if segment == 0 {
        match spec_apply_intents(st.replay_protection@, intents, hashes, tblock, st.parameters.global_ttl) {
            Err(e) => Err(TransactionInvalid::ReplayProtectionViolation(e)),
            Ok(rp) => match guaranteed_fold(st.utxo@, st.dust.dview(), intents, hashes, in_n, out_n, tblock, intents.len() as int) {
                Err(e) => Err(e),
                Ok((u, d, evs)) => match spec_apply_dust_actions(d, ref_utxos, fees, intents, in_n, out_n, st.parameters.dust, tblock) {
                    Err(e) => Err(e),
                    Ok((d2, _, evs2)) => Ok((rp, u, d2, evs + evs2)),
                },
            },
        }
    } else {
        let k = intent_index(intents, segment);
        if k < 0 {
            Ok((st.replay_protection@, st.utxo@, st.dust.dview(), Seq::empty()))
        } else {
            match intents[k].1.fallible_unshielded_offer {
                None => Ok((st.replay_protection@, st.utxo@, st.dust.dview(), Seq::empty())),
                Some(o) => match spec_offer_step(st.utxo@, st.dust.dview(), o, intents[k].1, hashes[k], in_n[k]@, out_n[k]@, segment, tblock) {
                    Ok((u, d, e)) => Ok((st.replay_protection@, u, d, e)),
                    Err(e) => Err(e),
                },
            }
        }
    }
}

/// `b` keeps everything of `a` that a section does not touch.
pub open spec fn section_keeps(a: LedgerState, b: LedgerState) -> bool {
    &&& b.network_id@ == a.network_id@
    &&& b.parameters == a.parameters
    &&& b.locked_pool == a.locked_pool
    &&& b.bridge_receiving@ == a.bridge_receiving@
    &&& b.reserve_pool == a.reserve_pool
    &&& b.block_reward_pool == a.block_reward_pool
    &&& b.unclaimed_block_rewards@ == a.unclaimed_block_rewards@
    &&& b.treasury@ == a.treasury@
    &&& b.contract@ == a.contract@
}

proof fn lemma_guaranteed_fold_err(
    u: Map<Utxo, UtxoMeta>,
    d: DustView,
    intents: Seq<(u16, Intent)>,
    hashes: Seq<IntentHash>,
    in_n: Seq<Vec<InitialNonce>>,
    out_n: Seq<Vec<InitialNonce>>,
    tblock: u64,
    n: int,
    m: int,
)
    requires
        0 <= n <= m,
        guaranteed_fold(u, d, intents, hashes, in_n, out_n, tblock, n) is Err,
    ensures
        guaranteed_fold(u, d, intents, hashes, in_n, out_n, tblock, m) == guaranteed_fold(u, d, intents, hashes, in_n, out_n, tblock, n),
    decreases m - n,
{
    if n < m {
        lemma_guaranteed_fold_err(u, d, intents, hashes, in_n, out_n, tblock, n, m - 1);
    }
}

proof fn lemma_guaranteed_outputs_value_nonneg(intents: Seq<(u16, Intent)>, k: int)
    ensures
        0 <= guaranteed_outputs_value(intents, k),
    decreases k,
{
    if k > 0 {
        lemma_guaranteed_outputs_value_nonneg(intents, k - 1);
        lemma_outputs_value_nonneg(section_outputs(intents[k - 1].1, 0));
    }
}

proof fn lemma_guaranteed_outputs_value_mono(intents: Seq<(u16, Intent)>, k: int, m: int)
    requires
        0 <= k <= m,
    ensures
        0 <= guaranteed_outputs_value(intents, k) <= guaranteed_outputs_value(intents, m),
    decreases m,
{
    lemma_guaranteed_outputs_value_nonneg(intents, k);
    if k < m {
        lemma_guaranteed_outputs_value_mono(intents, k, m - 1);
        lemma_outputs_value_nonneg(section_outputs(intents[m - 1].1, 0));
    }
}

fn find_intent(intents: &Vec<(u16, Intent)>, s: u16) -> (r: Option<usize>)
    ensures
        match r {
            Some(k) => k < intents.len() && intent_index(intents@, s) == k,
            None => intent_index(intents@, s) == -1,
        },
{
    assert(intents@.subrange(0, intents.len() as int) =~= intents@);
    let mut i: usize = intents.len();
    while i > 0
        invariant
            i <= intents.len(),
            intent_index(intents@, s) == intent_index(intents@.subrange(0, i as int), s),
        decreases i,
    {
        assert(intents@.subrange(0, i as int).drop_last() =~= intents@.subrange(0, i - 1));
        if intents[i - 1].0 == s {
            return Some(i - 1);
        }
        i = i - 1;
    }
    None
}

impl LedgerState {
    /// Applies one section of `tx` (see `spec_section`): segment zero is the
    /// guaranteed section, any other segment the fallible part of the intent
    /// of that segment. `intent_hashes` gives the hash of each intent, and
    /// `input_nonces` and `output_nonces` the DUST nonces of the inputs and
    /// outputs of the offer that the section applies of each intent. `fees`
    /// is what the transaction pays in DUST, and `ref_utxo` the UTXO set
    /// that registrations read. Gives the new state and the events, or the
    /// first failure.
    pub fn apply_section(
        &self,
        tx: &StandardTransaction,
        segment: u16,
        intent_hashes: &Vec<IntentHash>,
        input_nonces: &Vec<Vec<InitialNonce>>,
        output_nonces: &Vec<Vec<InitialNonce>>,
        fees: u128,
        ref_utxo: &UtxoState,
        tblock: u64,
    ) -> (r: Result<(LedgerState, Vec<DustEvent>), TransactionInvalid>)
        requires
            self.wf(),
            ref_utxo.wf(),
            intent_hashes@.len() == tx.intents@.len(),
            input_nonces@.len() == tx.intents@.len(),
            output_nonces@.len() == tx.intents@.len(),
            forall|k: int| 0 <= k < tx.intents@.len() ==> #[trigger] input_nonces@[k]@.len() == section_inputs(tx.intents@[k].1, segment).len(),
            forall|k: int| 0 <= k < tx.intents@.len() ==> #[trigger] output_nonces@[k]@.len() == section_outputs(tx.intents@[k].1, segment).len(),
            forall|k: int| 0 <= k < tx.intents@.len() ==> #[trigger] section_outputs(tx.intents@[k].1, segment).len() <= u32::MAX,
            self.night_total() + section_outputs_value(tx.intents@, segment) <= u128::MAX,
        ensures
            match spec_section(*self, *tx, segment, intent_hashes@, input_nonces@, output_nonces@, fees, ref_utxo@, tblock) {
                Ok((rp, u, d, evs)) => r matches Ok((st, e)) && st.wf() && section_keeps(*self, st) && st.replay_protection@ == rp
                    && st.utxo@ == u && st.dust.dview() == d && e@ == evs,
                Err(e) => r matches Err(x) && x == e,
            },
    {
        proof {
            self.lemma_totals();
        }
        let mut st = self.duplicate();
        if segment == 0 {
            let rp = match self.replay_protection.apply_tx(tx, intent_hashes, tblock, self.parameters.global_ttl) {
                Ok(rp) => rp,
                Err(e) => {
                    return Err(TransactionInvalid::ReplayProtectionViolation(e));
                },
            };
            let mut utxo = self.utxo.duplicate();
            let mut dust = self.dust.duplicate();
            let mut evs: Vec<DustEvent> = Vec::new();
            let ghost n = tx.intents@.len() as int;
            proof {
                lemma_guaranteed_outputs_value_mono(tx.intents@, 0, n);
            }
            let mut k: usize = 0;
            while k < tx.intents.len()
                invariant
                    self.wf(),
                    k <= tx.intents.len(),
                    n == tx.intents@.len(),
                    segment == 0,
                    spec_apply_intents(self.replay_protection@, tx.intents@, intent_hashes@, tblock, self.parameters.global_ttl)
                        == Ok::<Map<IntentHash, u64>, TransactionApplicationError>(rp@),
                    utxo.wf(),
                    dust.wf(),
                    intent_hashes@.len() == n,
                    input_nonces@.len() == n,
                    output_nonces@.len() == n,
                    forall|j: int| 0 <= j < n ==> #[trigger] input_nonces@[j]@.len() == section_inputs(tx.intents@[j].1, segment).len(),
                    forall|j: int| 0 <= j < n ==> #[trigger] output_nonces@[j]@.len() == section_outputs(tx.intents@[j].1, segment).len(),
                    forall|j: int| 0 <= j < n ==> #[trigger] section_outputs(tx.intents@[j].1, segment).len() <= u32::MAX,
                    self.utxo.spec_night_total() + guaranteed_outputs_value(tx.intents@, n) <= u128::MAX,
                    utxo.spec_night_total() <= self.utxo.spec_night_total() + guaranteed_outputs_value(tx.intents@, k as int),
                    guaranteed_fold(self.utxo@, self.dust.dview(), tx.intents@, intent_hashes@, input_nonces@, output_nonces@, tblock, k as int)
                        == Ok::<(Map<Utxo, UtxoMeta>, DustView, Seq<DustEvent>), TransactionInvalid>((utxo@, dust.dview(), evs@)),
                decreases n - k,
            {
                let intent = &tx.intents[k].1;
                proof {
                    lemma_guaranteed_outputs_value_mono(tx.intents@, k + 1, n);
                    lemma_outputs_value_nonneg(section_outputs(tx.intents@[k as int].1, 0));
                }
                match &intent.guaranteed_unshielded_offer {
                    None => {},
                    Some(offer) => {
                        match utxo.apply_offer(offer, intent_hashes[k], tblock) {
                            Err(UtxoError::InputNotInUtxos(x)) => {
                                proof {
                                    lemma_guaranteed_fold_err(self.utxo@, self.dust.dview(), tx.intents@, intent_hashes@, input_nonces@, output_nonces@, tblock, k + 1, n);
                                }
                                return Err(TransactionInvalid::InputNotInUtxos(x));
                            },
                            Ok(()) => {},
                        }
                        match dust.apply_offer(offer, &input_nonces[k], &output_nonces[k], intent, 0, tblock) {
                            Err(e) => {
                                proof {
                                    lemma_guaranteed_fold_err(self.utxo@, self.dust.dview(), tx.intents@, intent_hashes@, input_nonces@, output_nonces@, tblock, k + 1, n);
                                }
                                return Err(TransactionInvalid::DustState(e));
                            },
                            Ok((d2, e2)) => {
                                dust = d2;
                                let mut e2 = e2;
                                evs.append(&mut e2);
                            },
                        }
                    },
                }
                k = k + 1;
            }
            match dust.apply_dust_actions(ref_utxo, fees, &tx.intents, input_nonces, output_nonces, &self.parameters.dust, tblock) {
                Err(e) => Err(e),
                Ok((d2, _, e2)) => {
                    let mut e2 = e2;
                    evs.append(&mut e2);
                    st.replay_protection = rp;
                    st.utxo = utxo;
                    st.dust = d2;
                    Ok((st, evs))
                },
            }
        } else {
            match find_intent(&tx.intents, segment) {
                None => Ok((st, Vec::new())),
                Some(k) => {
                    let intent = &tx.intents[k].1;
                    match &intent.fallible_unshielded_offer {
                        None => Ok((st, Vec::new())),
                        Some(offer) => {
                            proof {
                                lemma_outputs_value_nonneg(offer.outputs@);
                            }
                            let mut utxo = self.utxo.duplicate();
                            match utxo.apply_offer(offer, intent_hashes[k], tblock) {
                                Err(UtxoError::InputNotInUtxos(x)) => {
                                    return Err(TransactionInvalid::InputNotInUtxos(x));
                                },
                                Ok(()) => {},
                            }
                            match self.dust.apply_offer(offer, &input_nonces[k], &output_nonces[k], intent, segment, tblock) {
                                Err(e) => Err(TransactionInvalid::DustState(e)),
                                Ok((d2, e2)) => {
                                    st.utxo = utxo;
                                    st.dust = d2;
                                    Ok((st, e2))
                                },
                            }
                        },
                    }
                },
            }
        }
    }
}

/// The guaranteed section records the hash of every intent of the
/// transaction for replay protection, and keeps what was recorded.
pub proof fn lemma_guaranteed_section_records_intents(
    st: LedgerState,
    tx: StandardTransaction,
    hashes: Seq<IntentHash>,
    in_n: Seq<Vec<InitialNonce>>,
    out_n: Seq<Vec<InitialNonce>>,
    fees: u128,
    ref_utxos: Map<Utxo, UtxoMeta>,
    tblock: u64,
)
    requires
        spec_section(st, tx, 0, hashes, in_n, out_n, fees, ref_utxos, tblock) is Ok,
    ensures
        ({
            let rp = spec_section(st, tx, 0, hashes, in_n, out_n, fees, ref_utxos, tblock)->Ok_0.0;
            &&& forall|k: int| 0 <= k < tx.intents@.len() ==> rp.contains_key(#[trigger] hashes[k])
            &&& forall|h: IntentHash| st.replay_protection@.contains_key(h) ==> #[trigger] rp.contains_key(h)
        }),
{
    lemma_apply_intents_records(st.replay_protection@, tx.intents@, hashes, tblock, st.parameters.global_ttl);
}

/// A fallible segment leaves replay protection alone; with an intent in
/// that segment holding a fallible unshielded offer, it removes every
/// output the offer spends and creates the offer's `k`-th output under the
/// intent's hash and number `k` at `tblock`, and it changes nothing else of
/// the UTXO set; without one, it changes nothing.
pub proof fn lemma_fallible_section_applies_its_offer(
    st: LedgerState,
    tx: StandardTransaction,
    segment: u16,
    hashes: Seq<IntentHash>,
    in_n: Seq<Vec<InitialNonce>>,
    out_n: Seq<Vec<InitialNonce>>,
    fees: u128,
    ref_utxos: Map<Utxo, UtxoMeta>,
    tblock: u64,
)
    requires
        segment != 0,
        spec_section(st, tx, segment, hashes, in_n, out_n, fees, ref_utxos, tblock) is Ok,
    ensures
        ({
            let (rp, u, d, evs) = spec_section(st, tx, segment, hashes, in_n, out_n, fees, ref_utxos, tblock)->Ok_0;
            let k = intent_index(tx.intents@, segment);
            let o = tx.intents@[k].1.fallible_unshielded_offer->Some_0;
            &&& rp == st.replay_protection@
            &&& (k < 0 || tx.intents@[k].1.fallible_unshielded_offer is None) ==> u == st.utxo@ && evs.len() == 0
            &&& (k >= 0 && tx.intents@[k].1.fallible_unshielded_offer is Some && o.outputs@.len() <= u32::MAX + 1) ==> {
                &&& forall|j: int| #![trigger o.outputs@[j]] 0 <= j < o.outputs@.len() ==> u.contains_key(
                    (Utxo {
                        value: o.outputs@[j].value,
                        owner: o.outputs@[j].owner,
                        type_: o.outputs@[j].type_,
                        intent_hash: hashes[k],
                        output_no: j as u32,
                    }),
                ) && u[(Utxo {
                    value: o.outputs@[j].value,
                    owner: o.outputs@[j].owner,
                    type_: o.outputs@[j].type_,
                    intent_hash: hashes[k],
                    output_no: j as u32,
                })] == (UtxoMeta { ctime: tblock })
                &&& forall|j: int| #![trigger o.inputs@[j]] 0 <= j < o.inputs@.len() && !(o.inputs@[j].intent_hash == hashes[k]
                    && o.inputs@[j].output_no < o.outputs@.len()) ==> !u.contains_key(
                    (Utxo {
                        value: o.inputs@[j].value,
                        owner: o.inputs@[j].owner,
                        type_: o.inputs@[j].type_,
                        intent_hash: o.inputs@[j].intent_hash,
                        output_no: o.inputs@[j].output_no,
                    }),
                )
            }
        }),
{
    let k = intent_index(tx.intents@, segment);
    if k >= 0 {
        match tx.intents@[k].1.fallible_unshielded_offer {
            Some(o) => {
                let m = spec_remove_inputs(st.utxo@, o.inputs@);
                lemma_remove_inputs_spends(st.utxo@, o.inputs@);
                if o.outputs@.len() <= u32::MAX + 1 {
                    let m2 = m->Ok_0;
                    lemma_add_outputs_numbered(m2, o.outputs@, hashes[k], tblock);
                    let u = spec_add_outputs(m2, o.outputs@, hashes[k], tblock);
                    assert forall|j: int| #![trigger o.inputs@[j]] 0 <= j < o.inputs@.len() && !(o.inputs@[j].intent_hash == hashes[k]
                        && o.inputs@[j].output_no < o.outputs@.len()) implies !u.contains_key(
                        (Utxo {
                            value: o.inputs@[j].value,
                            owner: o.inputs@[j].owner,
                            type_: o.inputs@[j].type_,
                            intent_hash: o.inputs@[j].intent_hash,
                            output_no: o.inputs@[j].output_no,
                        }),
                    ) by {
                        let x = (Utxo {
                            value: o.inputs@[j].value,
                            owner: o.inputs@[j].owner,
                            type_: o.inputs@[j].type_,
                            intent_hash: o.inputs@[j].intent_hash,
                            output_no: o.inputs@[j].output_no,
                        });
                        assert(!m2.contains_key(x));
                        assert(u.contains_key(x) == m2.contains_key(x));
                    }
                }
            },
            None => {},
        }
    }
}

} // verus!
