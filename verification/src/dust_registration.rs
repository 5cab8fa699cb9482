//! DUST registrations: the DUST that NIGHT inputs without a generation
//! record have accrued (and may pay fees with), and applying a registration
//! of a DUST address, which pays fees from that DUST and hands the rest out
//! over the registrant's new NIGHT outputs.
use vstd::prelude::*;
use crate::hash::{KeyEq, UserAddress, spec_night, night};
use crate::dust::{
    DustState, DustView, DustEvent, DustParameters, InitialNonce, DustPublicKey, spec_sat_mul, spec_sat_add, sat_mul, sat_add,
    spec_fresh_dust_output,
};
use crate::utxo::{UtxoState, UtxoMeta, Utxo, UtxoSpend, UtxoOutput, spec_spend_utxo};
use crate::intent::{Intent, DustRegistration};
use crate::ledger::TransactionInvalid;

verus! {

/// The quantum of the share each output gets of the DUST handed out.
pub const DISTRIBUTION_RESOLUTION: u128 = 10_000;

/// The DUST a NIGHT input of `night_address` without a generation record
/// (the `k`-th input, under `nonce`) has accrued by `tend`: its value times
/// the decay rate per second since its creation, capped at its value times
/// the NIGHT-to-DUST ratio. Other inputs, and inputs whose output is not in
/// the UTXO set, give nothing.
pub open spec fn input_availability(
    v: DustView,
    utxos: Map<Utxo, UtxoMeta>,
    i: UtxoSpend,
    nonce: InitialNonce,
    night_address: UserAddress,
    tend: u64,
    params: DustParameters,
) -> u128 {
    if i.owner == night_address && i.type_ == spec_night() && !v.indices.contains_key(nonce) && utxos.contains_key(spec_spend_utxo(i)) {
        let vfull = spec_sat_mul(i.value, params.night_dust_ratio as u128);
        let rate = spec_sat_mul(i.value, params.generation_decay_rate as u128);
        let tstart = utxos[spec_spend_utxo(i)].ctime;
        let dt: u128 = if tend >= tstart { (tend - tstart) as u128 } else { 0 };
        let accrued = spec_sat_mul(dt, rate);
        if accrued < vfull { accrued } else { vfull }
    } else {
        0
    }
}

/// The saturating sum of the availability of the first `n` inputs.
pub open spec fn availability_upto(
    v: DustView,
    utxos: Map<Utxo, UtxoMeta>,
    inputs: Seq<UtxoSpend>,
    nonces: Seq<InitialNonce>,
    night_address: UserAddress,
    tend: u64,
    params: DustParameters,
    n: int,
) -> u128
    decreases n,
{
    if n <= 0 {
        0
    } else {
        spec_sat_add(
            availability_upto(v, utxos, inputs, nonces, night_address, tend, params, n - 1),
            input_availability(v, utxos, inputs[n - 1], nonces[n - 1], night_address, tend, params),
        )
    }
}

/// The inputs of an intent's guaranteed unshielded offer.
pub open spec fn guaranteed_inputs(parent: Intent) -> Seq<UtxoSpend> {
    match parent.guaranteed_unshielded_offer {
        Some(o) => o.inputs@,
        None => Seq::empty(),
    }
}

/// The outputs of an intent's guaranteed unshielded offer.
pub open spec fn guaranteed_outputs(parent: Intent) -> Seq<UtxoOutput> {
    match parent.guaranteed_unshielded_offer {
        Some(o) => o.outputs@,
        None => Seq::empty(),
    }
}

/// The DUST that the NIGHT of `night_address` spent by the guaranteed offer
/// of `parent`, and not generating yet, has accrued by the time of the
/// intent's DUST actions (nothing where there are none).
pub open spec fn spec_generationless_fee_availability(
    v: DustView,
    utxos: Map<Utxo, UtxoMeta>,
    parent: Intent,
    night_address: UserAddress,
    nonces: Seq<InitialNonce>,
    params: DustParameters,
) -> u128 {
    match parent.dust_actions {
        None => 0,
        Some(da) => {
            let ins = guaranteed_inputs(parent);
            availability_upto(v, utxos, ins, nonces, night_address, da.ctime, params, ins.len() as int)
        },
    }
}

impl DustState {
    /// See `spec_generationless_fee_availability`; the `k`-th input of the
    /// guaranteed offer is taken under `input_nonces[k]`.
    pub fn generationless_fee_availability(
        &self,
        utxo_state: &UtxoState,
        parent: &Intent,
        night_address: &UserAddress,
        input_nonces: &Vec<InitialNonce>,
        params: &DustParameters,
    ) -> (r: u128)
        requires
            self.wf(),
            utxo_state.wf(),
            input_nonces@.len() == guaranteed_inputs(*parent).len(),
        ensures
            r == spec_generationless_fee_availability(self.dview(), utxo_state@, *parent, *night_address, input_nonces@, *params),
    {
        let tend = match &parent.dust_actions {
            None => return 0,
            Some(da) => da.ctime,
        };
        let offer = match &parent.guaranteed_unshielded_offer {
            None => return 0,
            Some(o) => o,
        };
        let nt = night();
        let mut total: u128 = 0;
        let mut i: usize = 0;
        while i < offer.inputs.len()
            invariant
                0 <= i <= offer.inputs@.len(),
                self.wf(),
                utxo_state.wf(),
                nt == spec_night(),
                parent.guaranteed_unshielded_offer == Some(*offer),
                input_nonces@.len() == offer.inputs@.len(),
                total == availability_upto(self.dview(), utxo_state@, offer.inputs@, input_nonces@, *night_address, tend, *params, i as int),
            decreases offer.inputs@.len() - i,
        {
            let inp = offer.inputs[i];
            let mut avail: u128 = 0;
            if inp.owner.key_eq(night_address) && inp.type_.key_eq(&nt) && !self.night_indices.contains_key(&input_nonces[i]) {
                match utxo_state.get(&Utxo::from_spend(&inp)) {
                    Some(meta) => {
                        let vfull = sat_mul(inp.value, params.night_dust_ratio as u128);
                        let rate = sat_mul(inp.value, params.generation_decay_rate as u128);
                        let dt: u128 = if tend >= meta.ctime { (tend - meta.ctime) as u128 } else { 0 };
                        let accrued = sat_mul(dt, rate);
                        avail = if accrued < vfull { accrued } else { vfull };
                    },
                    None => {},
                }
            }
            assert(avail == input_availability(self.dview(), utxo_state@, offer.inputs@[i as int], input_nonces@[i as int], *night_address, tend, *params));
            total = sat_add(total, avail);
            i = i + 1;
        }
        total
    }
}

/// The saturating sum of the values of the NIGHT outputs of `addr` among
/// the first `n` outputs.
pub open spec fn owned_sum_upto(outputs: Seq<UtxoOutput>, addr: UserAddress, n: int) -> u128
    decreases n,
{
    if n <= 0 {
        0
    } else {
        let o = outputs[n - 1];
        let prev = owned_sum_upto(outputs, addr, n - 1);
        if o.owner == addr && o.type_ == spec_night() {
            spec_sat_add(prev, o.value)
        } else {
            prev
        }
    }
}

/// The DUST that a NIGHT output of `value` gets of `dust_out`: its share of
/// `output_sum`, in ten-thousandths.
pub open spec fn distributed_value(value: u128, output_sum: u128, dust_out: u128) -> u128 {
    (spec_sat_mul((spec_sat_mul(value, DISTRIBUTION_RESOLUTION) / output_sum) as u128, dust_out) / DISTRIBUTION_RESOLUTION) as u128
}

/// Handing `dust_out` out over the NIGHT outputs of `addr` among the first
/// `n` outputs (the `k`-th under `nonces[k]`): each starts generating for
/// `dust_addr` with its share. The first failure stops.
pub open spec fn spec_distribute(
    v: DustView,
    outputs: Seq<UtxoOutput>,
    nonces: Seq<InitialNonce>,
    addr: UserAddress,
    dust_addr: DustPublicKey,
    output_sum: u128,
    dust_out: u128,
    tnow: u64,
    tblock: u64,
    n: int,
) -> Result<(DustView, Seq<DustEvent>), TransactionInvalid>
    decreases n,
{
    if n <= 0 {
        Ok((v, Seq::empty()))
    } else {
        match spec_distribute(v, outputs, nonces, addr, dust_addr, output_sum, dust_out, tnow, tblock, n - 1) {
            Err(e) => Err(e),
            Ok((v1, evs)) => {
                let o = outputs[n - 1];
                if o.owner == addr && o.type_ == spec_night() {
                    if output_sum == 0 {
                        Err(TransactionInvalid::DivideByZero)
                    } else {
                        match spec_fresh_dust_output(v1, nonces[n - 1], distributed_value(o.value, output_sum, dust_out), o.value, dust_addr, tnow, tblock) {
                            Ok((v2, ev)) => Ok((v2, evs.push(ev))),
                            Err(e) => Err(TransactionInvalid::DustState(e)),
                        }
                    }
                } else {
                    Ok((v1, evs))
                }
            },
        }
    }
}

/// Once the outputs up to `k` fail, all of them fail the same way.
pub proof fn lemma_distribute_err_extends(
    v: DustView,
    outputs: Seq<UtxoOutput>,
    nonces: Seq<InitialNonce>,
    addr: UserAddress,
    dust_addr: DustPublicKey,
    output_sum: u128,
    dust_out: u128,
    tnow: u64,
    tblock: u64,
    k: int,
    n: int,
)
    requires
        0 <= k <= n,
        spec_distribute(v, outputs, nonces, addr, dust_addr, output_sum, dust_out, tnow, tblock, k) is Err,
    ensures
        spec_distribute(v, outputs, nonces, addr, dust_addr, output_sum, dust_out, tnow, tblock, n)
            == spec_distribute(v, outputs, nonces, addr, dust_addr, output_sum, dust_out, tnow, tblock, k),
    decreases n - k,
{
    if k < n {
        lemma_distribute_err_extends(v, outputs, nonces, addr, dust_addr, output_sum, dust_out, tnow, tblock, k, n - 1);
    }
}

/// The outcome of applying a registration: the delegation of its NIGHT key
/// is set (or withdrawn, which must find one), fees are paid from the DUST
/// its NIGHT inputs accrued without generating (at most what it allows and
/// what remains to pay), and the rest is handed out over its new NIGHT
/// outputs, where it names a DUST address. Gives the new contents, the fees
/// still to pay, and the events.
pub open spec fn spec_apply_registration(
    v: DustView,
    utxos: Map<Utxo, UtxoMeta>,
    fees_remaining: u128,
    parent: Intent,
    registration: DustRegistration,
    input_nonces: Seq<InitialNonce>,
    output_nonces: Seq<InitialNonce>,
    params: DustParameters,
    tnow: u64,
    tblock: u64,
) -> Result<(DustView, u128, Seq<DustEvent>), TransactionInvalid> {
    let addr = registration.night_key;
    if registration.dust_address is None && !v.delegation.contains_key(addr) {
        Err(TransactionInvalid::DustDeregistrationNotRegistered(addr))
    } else {
        let v1 = DustView {
            delegation: match registration.dust_address {
                None => v.delegation.remove(addr),
                Some(d) => v.delegation.insert(addr, d),
            },
            ..v
        };
        let dust_in = spec_generationless_fee_availability(v, utxos, parent, addr, input_nonces, params);
        let allowed = if registration.allow_fee_payment < dust_in { registration.allow_fee_payment } else { dust_in };
        let fee_paid = if fees_remaining < allowed { fees_remaining } else { allowed };
        let dust_out = (dust_in - fee_paid) as u128;
        let fees_left = (fees_remaining - fee_paid) as u128;
        match registration.dust_address {
            None => Ok((v1, fees_left, Seq::empty())),
            Some(d) => {
                let outs = guaranteed_outputs(parent);
                let sum = owned_sum_upto(outs, addr, outs.len() as int);
                match spec_distribute(v1, outs, output_nonces, addr, d, sum, dust_out, tnow, tblock, outs.len() as int) {
                    Ok((v2, evs)) => Ok((v2, fees_left, evs)),
                    Err(e) => Err(e),
                }
            },
        }
    }
}

impl DustState {
    /// Applies a registration of `parent` (see `spec_apply_registration`):
    /// the `k`-th input and output of its guaranteed offer are taken under
    /// `input_nonces[k]` and `output_nonces[k]`.
    pub fn apply_registration(
        &self,
        utxo: &UtxoState,
        fees_remaining: u128,
        parent: &Intent,
        registration: &DustRegistration,
        input_nonces: &Vec<InitialNonce>,
        output_nonces: &Vec<InitialNonce>,
        params: &DustParameters,
        tnow: u64,
        tblock: u64,
    ) -> (res: Result<(DustState, u128, Vec<DustEvent>), TransactionInvalid>)
        requires
            self.wf(),
            utxo.wf(),
            input_nonces@.len() == guaranteed_inputs(*parent).len(),
            output_nonces@.len() == guaranteed_outputs(*parent).len(),
        ensures
            match (res, spec_apply_registration(self.dview(), utxo@, fees_remaining, *parent, *registration, input_nonces@, output_nonces@, *params, tnow, tblock)) {
                (Ok((st, fees, evs)), Ok((v, sfees, sevs))) => st.wf() && st.dview() == v && fees == sfees && evs@ == sevs,
                (Err(e), Err(se)) => e == se,
                _ => false,
            },
    {
        let addr = registration.night_key;
        let mut state = self.duplicate();
        match registration.dust_address {
            None => {
                if !state.address_delegation.contains_key(&addr) {
                    return Err(TransactionInvalid::DustDeregistrationNotRegistered(addr));
                }
                state.address_delegation.remove(&addr);
            },
            Some(d) => {
                state.address_delegation.insert(addr, d);
            },
        }
        let dust_in = self.generationless_fee_availability(utxo, parent, &addr, input_nonces, params);
        let allowed = if registration.allow_fee_payment < dust_in { registration.allow_fee_payment } else { dust_in };
        let fee_paid = if fees_remaining < allowed { fees_remaining } else { allowed };
        let fees_left = fees_remaining - fee_paid;
        let dust_out = dust_in - fee_paid;
        let dust_addr = match registration.dust_address {
            None => return Ok((state, fees_left, Vec::new())),
            Some(d) => d,
        };
        let outputs: Vec<UtxoOutput> = match &parent.guaranteed_unshielded_offer {
            Some(o) => crate::keyed::copy_vec(&o.outputs),
            None => Vec::new(),
        };
        assert(outputs@ == guaranteed_outputs(*parent));
        let nt = night();
        let mut sum: u128 = 0;
        let mut i: usize = 0;
        while i < outputs.len()
            invariant
                0 <= i <= outputs@.len(),
                nt == spec_night(),
                sum == owned_sum_upto(outputs@, addr, i as int),
            decreases outputs@.len() - i,
        {
            let o = outputs[i];
            if o.owner.key_eq(&addr) && o.type_.key_eq(&nt) {
                sum = sat_add(sum, o.value);
            }
            i = i + 1;
        }
        let ghost v1 = state.dview();
        let ghost outcome = spec_apply_registration(
            self.dview(), utxo@, fees_remaining, *parent, *registration, input_nonces@, output_nonces@, *params, tnow, tblock,
        );
        assert(outcome == match spec_distribute(v1, outputs@, output_nonces@, addr, dust_addr, sum, dust_out, tnow, tblock, outputs@.len() as int) {
            Ok((v2, evs)) => Ok((v2, fees_left, evs)),
            Err(e) => Err::<(DustView, u128, Seq<DustEvent>), TransactionInvalid>(e),
        });
        let mut evs: Vec<DustEvent> = Vec::new();
        let mut k: usize = 0;
        while k < outputs.len()
            invariant
                0 <= k <= outputs@.len(),
                output_nonces@.len() == outputs@.len(),
                nt == spec_night(),
                state.wf(),
                sum == owned_sum_upto(outputs@, addr, outputs@.len() as int),
                outcome == match spec_distribute(v1, outputs@, output_nonces@, addr, dust_addr, sum, dust_out, tnow, tblock, outputs@.len() as int) {
                    Ok((v2, evs)) => Ok((v2, fees_left, evs)),
                    Err(e) => Err::<(DustView, u128, Seq<DustEvent>), TransactionInvalid>(e),
                },
                outcome == spec_apply_registration(
                    self.dview(), utxo@, fees_remaining, *parent, *registration, input_nonces@, output_nonces@, *params, tnow, tblock,
                ),
                spec_distribute(v1, outputs@, output_nonces@, addr, dust_addr, sum, dust_out, tnow, tblock, k as int)
                    == Ok::<(DustView, Seq<DustEvent>), TransactionInvalid>((state.dview(), evs@)),
            decreases outputs@.len() - k,
        {
            let o = outputs[k];
            if o.owner.key_eq(&addr) && o.type_.key_eq(&nt) {
                if sum == 0 {
                    proof {
                        lemma_distribute_err_extends(v1, outputs@, output_nonces@, addr, dust_addr, sum, dust_out, tnow, tblock, k as int + 1, outputs@.len() as int);
                    }
                    return Err(TransactionInvalid::DivideByZero);
                }
                let ratio = sat_mul(o.value, DISTRIBUTION_RESOLUTION) / sum;
                let initial_value = sat_mul(ratio, dust_out) / DISTRIBUTION_RESOLUTION;
                assert(initial_value == distributed_value(o.value, sum, dust_out));
                match state.fresh_dust_output(output_nonces[k], initial_value, o.value, dust_addr, tnow, tblock) {
                    Ok((next, ev)) => {
                        state = next;
                        evs.push(ev);
                    },
                    Err(e) => {
                        proof {
                            lemma_distribute_err_extends(v1, outputs@, output_nonces@, addr, dust_addr, sum, dust_out, tnow, tblock, k as int + 1, outputs@.len() as int);
                        }
                        return Err(TransactionInvalid::DustState(e));
                    },
                }
            }
            k = k + 1;
        }
        Ok((state, fees_left, evs))
    }
}

/// Spending DUST: the nullifier must be new; it is recorded, and the new
/// commitment takes the next free leaf.
pub open spec fn spec_apply_spend(v: DustView, spend: crate::intent::DustSpend, time: u64, tblock: u64) -> Result<(DustView, DustEvent), TransactionInvalid> {
    if v.nullifiers.contains_key(spend.old_nullifier) {
        Err(TransactionInvalid::DustDoubleSpend(spend.old_nullifier))
    } else if v.commitments_first_free >= crate::dust::DUST_TREE_CAPACITY {
        Err(TransactionInvalid::MerkleTreeError)
    } else {
        Ok((
            DustView {
                nullifiers: v.nullifiers.insert(spend.old_nullifier, ()),
                commitments_first_free: (v.commitments_first_free + 1) as u64,
                ..v
            },
            DustEvent::DustSpendProcessed {
                commitment: spend.new_commitment,
                commitment_index: v.commitments_first_free,
                nullifier: spend.old_nullifier,
                v_fee: spend.v_fee,
                declared_time: time,
                block_time: tblock,
            },
        ))
    }
}

impl DustState {
    /// Applies a DUST spend declared at `time` (see `spec_apply_spend`).
    pub fn apply_spend(&self, spend: &crate::intent::DustSpend, time: u64, tblock: u64) -> (res: Result<(DustState, DustEvent), TransactionInvalid>)
        requires
            self.wf(),
        ensures
            match (res, spec_apply_spend(self.dview(), *spend, time, tblock)) {
                (Ok((st, ev)), Ok((v, sev))) => st.wf() && st.dview() == v && ev == sev,
                (Err(e), Err(se)) => e == se,
                _ => false,
            },
    {
        if self.nullifiers.contains_key(&spend.old_nullifier) {
            return Err(TransactionInvalid::DustDoubleSpend(spend.old_nullifier));
        }
        if self.commitments_first_free >= crate::dust::DUST_TREE_CAPACITY {
            return Err(TransactionInvalid::MerkleTreeError);
        }
        let mut st = self.duplicate();
        st.nullifiers.insert(spend.old_nullifier, ());
        let index = st.commitments_first_free;
        st.commitments_first_free = index + 1;
        let ev = DustEvent::DustSpendProcessed {
            commitment: spend.new_commitment,
            commitment_index: index,
            nullifier: spend.old_nullifier,
            v_fee: spend.v_fee,
            declared_time: time,
            block_time: tblock,
        };
        Ok((st, ev))
    }
}

/// A DUST nullifier that was just spent cannot be spent again.
pub proof fn lemma_dust_double_spend_refused(v: DustView, spend: crate::intent::DustSpend, other: crate::intent::DustSpend, time: u64, tblock: u64, time2: u64, tblock2: u64)
    requires
        spec_apply_spend(v, spend, time, tblock) is Ok,
        other.old_nullifier == spend.old_nullifier,
    ensures
        spec_apply_spend(spec_apply_spend(v, spend, time, tblock)->Ok_0.0, other, time2, tblock2)
            == Err::<(DustView, DustEvent), TransactionInvalid>(TransactionInvalid::DustDoubleSpend(spend.old_nullifier)),
{
}

/// A fresh nullifier, with a free commitment leaf, is accepted: it is
/// recorded as spent, the commitment takes the next leaf, nothing else
/// changes, and the event reports the spend as declared.
pub proof fn lemma_fresh_spend_accepted(v: DustView, spend: crate::intent::DustSpend, time: u64, tblock: u64)
    requires
        !v.nullifiers.contains_key(spend.old_nullifier),
        v.commitments_first_free < crate::dust::DUST_TREE_CAPACITY,
    ensures
        spec_apply_spend(v, spend, time, tblock) matches Ok((w, ev)) && w.nullifiers.dom() == v.nullifiers.dom().insert(
            spend.old_nullifier,
        ) && w.commitments_first_free == v.commitments_first_free + 1 && w.tree == v.tree && w.indices == v.indices
            && w.delegation == v.delegation && ev == (DustEvent::DustSpendProcessed {
            commitment: spend.new_commitment,
            commitment_index: v.commitments_first_free,
            nullifier: spend.old_nullifier,
            v_fee: spend.v_fee,
            declared_time: time,
            block_time: tblock,
        }),
{
}

proof fn lemma_distribute_keeps_delegation(
    v: DustView,
    outputs: Seq<UtxoOutput>,
    nonces: Seq<InitialNonce>,
    addr: UserAddress,
    dust_addr: DustPublicKey,
    output_sum: u128,
    dust_out: u128,
    tnow: u64,
    tblock: u64,
    n: int,
)
    ensures
        spec_distribute(v, outputs, nonces, addr, dust_addr, output_sum, dust_out, tnow, tblock, n) matches Ok((w, _))
            ==> w.delegation == v.delegation,
    decreases n,
{
    if n > 0 {
        lemma_distribute_keeps_delegation(v, outputs, nonces, addr, dust_addr, output_sum, dust_out, tnow, tblock, n - 1);
    }
}

/// A registration that succeeds sets its NIGHT key's DUST address to the
/// one it names, or withdraws it where it names none; it pays out of the
/// fees still due the least of those fees, what it allows and the DUST its
/// NIGHT inputs accrued. A withdrawal is refused exactly when the key has
/// no DUST address.
pub proof fn lemma_registration_delegates(
    v: DustView,
    utxos: Map<Utxo, UtxoMeta>,
    fees_remaining: u128,
    parent: Intent,
    registration: DustRegistration,
    input_nonces: Seq<InitialNonce>,
    output_nonces: Seq<InitialNonce>,
    params: DustParameters,
    tnow: u64,
    tblock: u64,
)
    ensures
        ({
            let addr = registration.night_key;
            let r = spec_apply_registration(v, utxos, fees_remaining, parent, registration, input_nonces, output_nonces, params, tnow, tblock);
            let dust_in = spec_generationless_fee_availability(v, utxos, parent, addr, input_nonces, params);
            let m1 = if fees_remaining < registration.allow_fee_payment { fees_remaining } else { registration.allow_fee_payment };
            let paid = if m1 < dust_in { m1 } else { dust_in };
            &&& (r matches Ok((w, left, _)) ==> left == fees_remaining - paid && match registration.dust_address {
                Some(d) => w.delegation == v.delegation.insert(addr, d),
                None => w.delegation == v.delegation.remove(addr),
            })
            &&& (registration.dust_address is None ==> (r is Err <==> !v.delegation.contains_key(addr)))
            &&& (registration.dust_address is None && !v.delegation.contains_key(addr) ==> r == Err::<(DustView, u128, Seq<DustEvent>), TransactionInvalid>(
                TransactionInvalid::DustDeregistrationNotRegistered(addr),
            ))
        }),
{
    let addr = registration.night_key;
    match registration.dust_address {
        Some(d) => {
            let v1 = DustView { delegation: v.delegation.insert(addr, d), ..v };
            let outs = guaranteed_outputs(parent);
            let sum = owned_sum_upto(outs, addr, outs.len() as int);
            let dust_in = spec_generationless_fee_availability(v, utxos, parent, addr, input_nonces, params);
            let allowed = if registration.allow_fee_payment < dust_in { registration.allow_fee_payment } else { dust_in };
            let fee_paid = if fees_remaining < allowed { fees_remaining } else { allowed };
            let dust_out = (dust_in - fee_paid) as u128;
            lemma_distribute_keeps_delegation(v1, outs, output_nonces, addr, d, sum, dust_out, tnow, tblock, outs.len() as int);
        },
        None => {},
    }
}

} // verus!
