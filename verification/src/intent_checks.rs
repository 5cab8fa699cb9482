//! The checks of an intent that need neither proofs nor signatures: the
//! order and uniqueness of the inputs and outputs of its unshielded offers,
//! and the canonical form, time window, registrations and fee allowances of
//! its DUST actions.
use vstd::prelude::*;
use crate::hash::{KeyEq, UserAddress, hash_lt, hash_less, lemma_hash_order};
use crate::utxo::{UnshieldedOffer, UtxoSpend, UtxoOutput};
use crate::keyed::copy_vec;
use crate::balance::MalformedTransaction;
use crate::intent::{Intent, DustActions, DustRegistration, StandardTransaction};
use crate::utxo::{UtxoState, Utxo, UtxoMeta};
use crate::dust::{DustState, DustView, DustParameters, InitialNonce};
use crate::dust_registration::{spec_generationless_fee_availability, guaranteed_inputs};
use crate::transaction::WellFormedStrictness;

verus! {

/// The order of unshielded inputs: by value, then owner, token type, intent
/// hash and output number.
pub open spec fn spend_lt(a: UtxoSpend, b: UtxoSpend) -> bool {
    ||| a.value < b.value
    ||| a.value == b.value && hash_lt(a.owner.0, b.owner.0)
    ||| a.value == b.value && a.owner == b.owner && hash_lt(a.type_.0, b.type_.0)
    ||| a.value == b.value && a.owner == b.owner && a.type_ == b.type_ && hash_lt(a.intent_hash.0, b.intent_hash.0)
    ||| a.value == b.value && a.owner == b.owner && a.type_ == b.type_ && a.intent_hash == b.intent_hash
        && a.output_no < b.output_no
}

/// The order of unshielded outputs: by value, then owner, then token type.
pub open spec fn output_lt(a: UtxoOutput, b: UtxoOutput) -> bool {
    ||| a.value < b.value
    ||| a.value == b.value && hash_lt(a.owner.0, b.owner.0)
    ||| a.value == b.value && a.owner == b.owner && hash_lt(a.type_.0, b.type_.0)
}

/// The order of inputs is a strict total order.
pub proof fn lemma_spend_order(x: UtxoSpend, y: UtxoSpend, z: UtxoSpend)
    ensures
        !spend_lt(x, x),
        spend_lt(x, y) && spend_lt(y, z) ==> spend_lt(x, z),
        x != y ==> spend_lt(x, y) || spend_lt(y, x),
{
    lemma_hash_order(x.owner.0, y.owner.0, z.owner.0);
    lemma_hash_order(x.type_.0, y.type_.0, z.type_.0);
    lemma_hash_order(x.intent_hash.0, y.intent_hash.0, z.intent_hash.0);
}

/// The order of outputs is a strict total order.
pub proof fn lemma_output_order(x: UtxoOutput, y: UtxoOutput, z: UtxoOutput)
    ensures
        !output_lt(x, x),
        output_lt(x, y) && output_lt(y, z) ==> output_lt(x, z),
        x != y ==> output_lt(x, y) || output_lt(y, x),
{
    lemma_hash_order(x.owner.0, y.owner.0, z.owner.0);
    lemma_hash_order(x.type_.0, y.type_.0, z.type_.0);
}

/// Whether input `a` orders before input `b`.
pub fn spend_less(a: &UtxoSpend, b: &UtxoSpend) -> (r: bool)
    ensures
        r == spend_lt(*a, *b),
{
    if a.value != b.value {
        return a.value < b.value;
    }
    if hash_less(&a.owner.0, &b.owner.0) {
        return true;
    }
    if !a.owner.key_eq(&b.owner) {
        return false;
    }
    if hash_less(&a.type_.0, &b.type_.0) {
        return true;
    }
    if !a.type_.key_eq(&b.type_) {
        return false;
    }
    if hash_less(&a.intent_hash.0, &b.intent_hash.0) {
        return true;
    }
    if !a.intent_hash.key_eq(&b.intent_hash) {
        return false;
    }
    a.output_no < b.output_no
}

/// Whether output `a` orders before output `b`.
pub fn output_less(a: &UtxoOutput, b: &UtxoOutput) -> (r: bool)
    ensures
        r == output_lt(*a, *b),
{
    if a.value != b.value {
        return a.value < b.value;
    }
    if hash_less(&a.owner.0, &b.owner.0) {
        return true;
    }
    if !a.owner.key_eq(&b.owner) {
        return false;
    }
    hash_less(&a.type_.0, &b.type_.0)
}

/// The input at `i` is no greater than the one after it.
pub open spec fn spend_step_ok(s: Seq<UtxoSpend>, i: int) -> bool {
    !spend_lt(s[i + 1], s[i])
}

/// The output at `i` is no greater than the one after it.
pub open spec fn output_step_ok(s: Seq<UtxoOutput>, i: int) -> bool {
    !output_lt(s[i + 1], s[i])
}

/// Each input is no greater than the next.
pub open spec fn spends_sorted(s: Seq<UtxoSpend>) -> bool {
    forall|i: int| 0 <= i < s.len() - 1 ==> #[trigger] spend_step_ok(s, i)
}

/// Each output is no greater than the next.
pub open spec fn outputs_sorted(s: Seq<UtxoOutput>) -> bool {
    forall|i: int| 0 <= i < s.len() - 1 ==> #[trigger] output_step_ok(s, i)
}

/// Some input occurs at two positions.
pub open spec fn spends_repeat(s: Seq<UtxoSpend>) -> bool {
    exists|i: int, j: int| 0 <= i < j < s.len() && s[i] == s[j]
}

/// In a list of inputs in ascending order, each is no greater than every
/// later one.
proof fn lemma_spends_sorted_all(s: Seq<UtxoSpend>, i: int, j: int)
    requires
        spends_sorted(s),
        0 <= i <= j < s.len(),
    ensures
        !spend_lt(s[j], s[i]),
    decreases j - i,
{
    lemma_spend_order(s[i], s[i], s[i]);
    if i < j {
        lemma_spends_sorted_all(s, i, j - 1);
        assert(spend_step_ok(s, j - 1));
        lemma_spend_order(s[j], s[i], s[j - 1]);
        lemma_spend_order(s[i], s[j - 1], s[j]);
    }
}

/// In a list of inputs in ascending order, an input that occurs twice
/// occurs at two neighbouring positions.
pub proof fn lemma_sorted_repeat_adjacent(s: Seq<UtxoSpend>)
    requires
        spends_sorted(s),
        spends_repeat(s),
    ensures
        exists|k: int| 0 <= k < s.len() - 1 && s[k] == #[trigger] s[k + 1],
{
    let (i, j) = choose|i: int, j: int| 0 <= i < j < s.len() && s[i] == s[j];
    lemma_spends_sorted_all(s, i + 1, j);
    assert(spend_step_ok(s, i));
    lemma_spend_order(s[i], s[i + 1], s[i]);
    assert(s[i] == s[i + 1]);
}

/// The structural checks of an unshielded offer, with the error each gives:
/// inputs in ascending order, outputs in ascending order, and no input
/// spent twice.
pub open spec fn offer_checked(o: UnshieldedOffer, res: Result<(), MalformedTransaction>) -> bool {
    if !spends_sorted(o.inputs@) {
        res matches Err(MalformedTransaction::InputsNotSorted(v)) && v@ == o.inputs@
    } else if !outputs_sorted(o.outputs@) {
        res matches Err(MalformedTransaction::OutputsNotSorted(v)) && v@ == o.outputs@
    } else if spends_repeat(o.inputs@) {
        res matches Err(MalformedTransaction::DuplicateInputs(v)) && v@ == o.inputs@
    } else {
        res is Ok
    }
}

/// The offer passes its structural checks.
pub open spec fn offer_ok(o: UnshieldedOffer) -> bool {
    spends_sorted(o.inputs@) && outputs_sorted(o.outputs@) && !spends_repeat(o.inputs@)
}

/// The signature checks of an offer pass: one signature for each input,
/// and every one verifies (`valid[k]` for the `k`-th).
pub open spec fn sigs_ok(o: UnshieldedOffer, valid: Seq<bool>) -> bool {
    o.signatures@.len() == o.inputs@.len() && forall|k: int| 0 <= k < valid.len() ==> #[trigger] valid[k]
}

/// The signature checks of an offer, with the error each gives.
pub open spec fn sigs_checked(o: UnshieldedOffer, valid: Seq<bool>, res: Result<(), MalformedTransaction>) -> bool {
    if o.signatures@.len() != o.inputs@.len() {
        res matches Err(MalformedTransaction::InputsSignaturesLengthMismatch { inputs, signatures }) && inputs@ == o.inputs@
            && signatures == o.signatures@.len()
    } else if sigs_ok(o, valid) {
        res is Ok
    } else {
        res matches Err(MalformedTransaction::IntentSignatureVerificationFailure)
    }
}

/// There is no offer, or its signatures pass.
pub open spec fn opt_sigs_ok(o: Option<UnshieldedOffer>, valid: Seq<bool>) -> bool {
    match o {
        Some(x) => sigs_ok(x, valid),
        None => true,
    }
}

/// There is one outcome for each signature of the offer, if there is one.
pub open spec fn sigs_fit(o: Option<UnshieldedOffer>, valid: Seq<bool>) -> bool {
    match o {
        Some(x) => valid.len() == x.signatures@.len(),
        None => true,
    }
}

/// Whether each signature of an intent's guaranteed and fallible
/// unshielded offers verifies against its input's owner over the data the
/// intent signs.
pub struct OfferSignatures {
    pub guaranteed: Vec<bool>,
    pub fallible: Vec<bool>,
}

impl UnshieldedOffer {
    /// The checks of the offer that need no cryptography: its inputs and its
    /// outputs are in ascending order, and no input is spent twice. The
    /// error carries the inputs (or outputs) at fault.
    pub fn well_formed(&self) -> (res: Result<(), MalformedTransaction>)
        ensures
            offer_checked(*self, res),
            res is Ok <==> offer_ok(*self),
    {
        let mut i: usize = 1;
        while i < self.inputs.len()
            invariant
                1 <= i,
                i <= self.inputs@.len() || self.inputs@.len() == 0,
                forall|k: int| 0 <= k < i - 1 ==> #[trigger] spend_step_ok(self.inputs@, k),
            decreases self.inputs@.len() - i,
        {
            if spend_less(&self.inputs[i], &self.inputs[i - 1]) {
                proof {
                    assert(!spend_step_ok(self.inputs@, i - 1));
                }
                return Err(MalformedTransaction::InputsNotSorted(copy_vec(&self.inputs)));
            }
            i = i + 1;
        }
        let mut i: usize = 1;
        while i < self.outputs.len()
            invariant
                1 <= i,
                i <= self.outputs@.len() || self.outputs@.len() == 0,
                spends_sorted(self.inputs@),
                forall|k: int| 0 <= k < i - 1 ==> #[trigger] output_step_ok(self.outputs@, k),
            decreases self.outputs@.len() - i,
        {
            if output_less(&self.outputs[i], &self.outputs[i - 1]) {
                proof {
                    assert(!output_step_ok(self.outputs@, i - 1));
                }
                return Err(MalformedTransaction::OutputsNotSorted(copy_vec(&self.outputs)));
            }
            i = i + 1;
        }
        let mut i: usize = 1;
        while i < self.inputs.len()
            invariant
                1 <= i,
                i <= self.inputs@.len() || self.inputs@.len() == 0,
                spends_sorted(self.inputs@),
                outputs_sorted(self.outputs@),
                forall|k: int| 0 <= k < i - 1 ==> self.inputs@[k] != #[trigger] self.inputs@[k + 1],
            decreases self.inputs@.len() - i,
        {
            if self.inputs[i].key_eq(&self.inputs[i - 1]) {
                proof {
                    assert(self.inputs@[i - 1] == self.inputs@[(i - 1) + 1]);
                }
                return Err(MalformedTransaction::DuplicateInputs(copy_vec(&self.inputs)));
            }
            i = i + 1;
        }
        proof {
            if spends_repeat(self.inputs@) {
                lemma_sorted_repeat_adjacent(self.inputs@);
            }
        }
        Ok(())
    }
}

impl UnshieldedOffer {
    /// The signature checks of the offer, given whether each signature
    /// verifies against its input's owner over the data that the offer's
    /// intent signs (`signatures_valid[k]` for the `k`-th): there must be one
    /// signature for each input, and every one must verify.
    pub fn verify_signatures(&self, signatures_valid: &Vec<bool>) -> (res: Result<(), MalformedTransaction>)
        requires
            signatures_valid@.len() == self.signatures@.len(),
        ensures
            self.signatures@.len() != self.inputs@.len() ==> (res matches Err(
                MalformedTransaction::InputsSignaturesLengthMismatch { inputs, signatures },
            ) && inputs@ == self.inputs@ && signatures == self.signatures@.len()),
            self.signatures@.len() == self.inputs@.len() ==> {
                &&& res is Ok <==> forall|k: int| 0 <= k < signatures_valid@.len() ==> #[trigger] signatures_valid@[k]
                &&& res is Err ==> res matches Err(MalformedTransaction::IntentSignatureVerificationFailure)
            },
    {
        if self.signatures.len() != self.inputs.len() {
            return Err(
                MalformedTransaction::InputsSignaturesLengthMismatch {
                    inputs: copy_vec(&self.inputs),
                    signatures: self.signatures.len(),
                },
            );
        }
        let mut k: usize = 0;
        while k < signatures_valid.len()
            invariant
                0 <= k <= signatures_valid@.len(),
                self.signatures@.len() == self.inputs@.len(),
                forall|j: int| 0 <= j < k ==> #[trigger] signatures_valid@[j],
            decreases signatures_valid@.len() - k,
        {
            if !signatures_valid[k] {
                return Err(MalformedTransaction::IntentSignatureVerificationFailure);
            }
            k = k + 1;
        }
        Ok(())
    }
}

/// The DUST actions' time lies after `tblock`, or more than `grace`
/// before it.
pub open spec fn outside_window(ctime: u64, tblock: u64, grace: u64) -> bool {
    ctime > tblock || ctime + grace < tblock
}

/// The start of the validity window: `grace` before `tblock`, or zero.
pub open spec fn window_start(tblock: u64, grace: u64) -> u64 {
    if tblock >= grace { (tblock - grace) as u64 } else { 0 }
}

/// The registration at `m` is for a NIGHT key that another registration is
/// for too.
pub open spec fn repeated_at(regs: Seq<DustRegistration>, m: int) -> bool {
    exists|i: int| 0 <= i < regs.len() && i != m && #[trigger] regs[i].night_key == regs[m].night_key
}

/// Two registrations are for `key`.
pub open spec fn key_repeats(regs: Seq<DustRegistration>, key: UserAddress) -> bool {
    exists|m: int| 0 <= m < regs.len() && #[trigger] repeated_at(regs, m) && regs[m].night_key == key
}

/// Two registrations are for the same NIGHT key.
pub open spec fn keys_repeat(regs: Seq<DustRegistration>) -> bool {
    exists|m: int| 0 <= m < regs.len() && #[trigger] repeated_at(regs, m)
}

/// `key` is registered twice, and no key registered twice orders before it.
pub open spec fn least_repeated_key(regs: Seq<DustRegistration>, key: UserAddress) -> bool {
    key_repeats(regs, key) && forall|k: UserAddress| #[trigger] key_repeats(regs, k) ==> !hash_lt(k.0, key.0)
}

/// The registration allows fee payment, more than the DUST that its NIGHT
/// spent in `parent` has accrued.
pub open spec fn fee_short(
    v: DustView,
    utxos: Map<Utxo, UtxoMeta>,
    params: DustParameters,
    parent: Intent,
    nonces: Seq<InitialNonce>,
    r: DustRegistration,
) -> bool {
    r.allow_fee_payment > 0 && spec_generationless_fee_availability(v, utxos, parent, r.night_key, nonces, params)
        < r.allow_fee_payment
}

/// Some registration allows more fees than its NIGHT has accrued.
pub open spec fn some_fee_short(
    v: DustView,
    utxos: Map<Utxo, UtxoMeta>,
    params: DustParameters,
    parent: Intent,
    nonces: Seq<InitialNonce>,
    regs: Seq<DustRegistration>,
) -> bool {
    exists|i: int| 0 <= i < regs.len() && #[trigger] fee_short(v, utxos, params, parent, nonces, regs[i])
}

/// The structural checks of DUST actions, with the error each gives: there
/// is a spend or a registration; their time lies in the window before
/// `tblock`; no NIGHT key is registered twice (the least such key is
/// reported); and, where balancing is enforced, each registration's fee
/// allowance is covered (the first that is not is reported).
pub open spec fn dust_actions_checked(
    da: DustActions,
    v: DustView,
    utxos: Map<Utxo, UtxoMeta>,
    params: DustParameters,
    parent: Intent,
    nonces: Seq<InitialNonce>,
    enforce_balancing: bool,
    tblock: u64,
    res: Result<(), MalformedTransaction>,
) -> bool {
    let regs = da.registrations@;
    if da.spends@.len() == 0 && regs.len() == 0 {
        res matches Err(MalformedTransaction::NotNormalized)
    } else if outside_window(da.ctime, tblock, params.dust_grace_period) {
        res matches Err(MalformedTransaction::OutOfDustValidityWindow { dust_ctime, validity_start, validity_end })
            && dust_ctime == da.ctime && validity_start == window_start(tblock, params.dust_grace_period)
            && validity_end == tblock
    } else if keys_repeat(regs) {
        res matches Err(MalformedTransaction::MultipleDustRegistrationsForKey { key }) && least_repeated_key(regs, key)
    } else if enforce_balancing && some_fee_short(v, utxos, params, parent, nonces, regs) {
        res matches Err(MalformedTransaction::InsufficientDustForRegistrationFee { registration, available_dust })
            && exists|i: int| 0 <= i < regs.len() && #[trigger] fee_short(v, utxos, params, parent, nonces, regs[i])
            && (forall|k: int| 0 <= k < i ==> !fee_short(v, utxos, params, parent, nonces, #[trigger] regs[k]))
            && registration == regs[i]
            && available_dust == spec_generationless_fee_availability(v, utxos, parent, regs[i].night_key, nonces, params)
    } else {
        res is Ok
    }
}

impl DustActions {
    /// The checks of DUST actions that need neither proofs nor signatures,
    /// for the actions of `parent` against the DUST and UTXO states; the
    /// `k`-th input of the parent's guaranteed offer is taken under
    /// `input_nonces[k]`. See `dust_actions_checked`.
    pub fn well_formed(
        &self,
        dust: &DustState,
        utxos: &UtxoState,
        params: &DustParameters,
        parent: &Intent,
        input_nonces: &Vec<InitialNonce>,
        strictness: WellFormedStrictness,
        tblock: u64,
    ) -> (res: Result<(), MalformedTransaction>)
        requires
            dust.wf(),
            utxos.wf(),
            input_nonces@.len() == guaranteed_inputs(*parent).len(),
        ensures
            dust_actions_checked(
                *self,
                dust.dview(),
                utxos@,
                *params,
                *parent,
                input_nonces@,
                strictness.enforce_balancing,
                tblock,
                res,
            ),
    {
        if self.spends.len() == 0 && self.registrations.len() == 0 {
            return Err(MalformedTransaction::NotNormalized);
        }
        let grace = params.dust_grace_period;
        if self.ctime > tblock || (self.ctime as u128) + (grace as u128) < (tblock as u128) {
            return Err(
                MalformedTransaction::OutOfDustValidityWindow {
                    dust_ctime: self.ctime,
                    validity_start: tblock.saturating_sub(grace),
                    validity_end: tblock,
                },
            );
        }
        match least_repeated(&self.registrations) {
            Some(key) => return Err(MalformedTransaction::MultipleDustRegistrationsForKey { key }),
            None => {},
        }
        if strictness.enforce_balancing {
            let regs = &self.registrations;
            let mut i: usize = 0;
            while i < regs.len()
                invariant
                    0 <= i <= regs@.len(),
                    regs@ == self.registrations@,
                    !(self.spends@.len() == 0 && self.registrations@.len() == 0),
                    !outside_window(self.ctime, tblock, params.dust_grace_period),
                    !keys_repeat(self.registrations@),
                    strictness.enforce_balancing,
                    dust.wf(),
                    utxos.wf(),
                    input_nonces@.len() == guaranteed_inputs(*parent).len(),
                    forall|k: int| 0 <= k < i ==> !fee_short(dust.dview(), utxos@, *params, *parent, input_nonces@, #[trigger] regs@[k]),
                decreases regs@.len() - i,
            {
                let reg = regs[i];
                if reg.allow_fee_payment > 0 {
                    let available = dust.generationless_fee_availability(utxos, parent, &reg.night_key, input_nonces, params);
                    if available < reg.allow_fee_payment {
                        proof {
                            assert(fee_short(dust.dview(), utxos@, *params, *parent, input_nonces@, regs@[i as int]));
                        }
                        return Err(
                            MalformedTransaction::InsufficientDustForRegistrationFee {
                                registration: reg,
                                available_dust: available,
                            },
                        );
                    }
                }
                i = i + 1;
            }
        }
        Ok(())
    }
}

/// The least NIGHT key that two registrations are for, if any.
pub fn least_repeated(regs: &Vec<DustRegistration>) -> (r: Option<UserAddress>)
    ensures
        r is None <==> !keys_repeat(regs@),
        r matches Some(key) ==> least_repeated_key(regs@, key),
{
    let mut best: Option<UserAddress> = None;
    let mut m: usize = 0;
    while m < regs.len()
        invariant
            0 <= m <= regs@.len(),
            best is None <==> forall|n: int| 0 <= n < m ==> !#[trigger] repeated_at(regs@, n),
            best matches Some(b) ==> key_repeats(regs@, b)
                && forall|n: int| 0 <= n < m && #[trigger] repeated_at(regs@, n) ==> !hash_lt(regs@[n].night_key.0, b.0),
        decreases regs@.len() - m,
    {
        let key = regs[m].night_key;
        let mut found = false;
        let mut i: usize = 0;
        while i < regs.len()
            invariant
                0 <= i <= regs@.len(),
                0 <= m < regs@.len(),
                key == regs@[m as int].night_key,
                found <==> exists|j: int| 0 <= j < i && j != m && #[trigger] regs@[j].night_key == key,
            decreases regs@.len() - i,
        {
            if i != m && regs[i].night_key.key_eq(&key) {
                found = true;
            }
            i = i + 1;
        }
        proof {
            assert(found <==> repeated_at(regs@, m as int));
        }
        if found {
            let better = match &best {
                None => true,
                Some(b) => hash_less(&key.0, &b.0),
            };
            if better {
                proof {
                    assert(key_repeats(regs@, key));
                    assert forall|n: int| 0 <= n < m + 1 && #[trigger] repeated_at(regs@, n) implies !hash_lt(
                        regs@[n].night_key.0,
                        key.0,
                    ) by {
                        if n < m {
                            match best {
                                Some(b) => lemma_hash_order(regs@[n].night_key.0, key.0, b.0),
                                None => {},
                            }
                        } else {
                            lemma_hash_order(key.0, key.0, key.0);
                        }
                    }
                }
                best = Some(key);
            } else {
                proof {
                    let b = best->0;
                    lemma_hash_order(key.0, b.0, key.0);
                }
            }
        }
        m = m + 1;
    }
    proof {
        if let Some(b) = best {
            assert forall|k: UserAddress| #[trigger] key_repeats(regs@, k) implies !hash_lt(k.0, b.0) by {
                let n = choose|n: int| 0 <= n < regs@.len() && #[trigger] repeated_at(regs@, n) && regs@[n].night_key == k;
            }
        }
    }
    best
}

/// There is no offer, or it passes its structural checks.
pub open spec fn opt_offer_ok(o: Option<UnshieldedOffer>) -> bool {
    match o {
        Some(x) => offer_ok(x),
        None => true,
    }
}

/// The checks of an intent in `segment_id`, in the order in which
/// well-formedness runs them: not the guaranteed segment, then its
/// guaranteed and its fallible unshielded offer (each followed, in a sealed
/// transaction, by its signatures), then its DUST actions.
pub open spec fn intent_checked(
    intent: Intent,
    segment_id: u16,
    sealed: bool,
    sigs: OfferSignatures,
    v: DustView,
    utxos: Map<Utxo, UtxoMeta>,
    params: DustParameters,
    nonces: Seq<InitialNonce>,
    enforce_balancing: bool,
    tblock: u64,
    res: Result<(), MalformedTransaction>,
) -> bool {
    if segment_id == 0 {
        res matches Err(MalformedTransaction::IntentAtGuaranteedSegmentId)
    } else if !opt_offer_ok(intent.guaranteed_unshielded_offer) {
        offer_checked(intent.guaranteed_unshielded_offer->0, res)
    } else if sealed && !opt_sigs_ok(intent.guaranteed_unshielded_offer, sigs.guaranteed@) {
        sigs_checked(intent.guaranteed_unshielded_offer->0, sigs.guaranteed@, res)
    } else if !opt_offer_ok(intent.fallible_unshielded_offer) {
        offer_checked(intent.fallible_unshielded_offer->0, res)
    } else if sealed && !opt_sigs_ok(intent.fallible_unshielded_offer, sigs.fallible@) {
        sigs_checked(intent.fallible_unshielded_offer->0, sigs.fallible@, res)
    } else {
        match intent.dust_actions {
            Some(da) => dust_actions_checked(da, v, utxos, params, intent, nonces, enforce_balancing, tblock, res),
            None => res is Ok,
        }
    }
}

impl Intent {
    /// The checks of the intent that need no proofs, against the DUST and
    /// UTXO states: see `intent_checked`. In a sealed transaction the
    /// signatures of its offers are checked, given whether each verifies
    /// (`signatures`). The `k`-th input of the guaranteed offer is taken
    /// under `input_nonces[k]`.
    pub fn well_formed(
        &self,
        segment_id: u16,
        sealed: bool,
        signatures: &OfferSignatures,
        dust: &DustState,
        utxos: &UtxoState,
        params: &DustParameters,
        input_nonces: &Vec<InitialNonce>,
        strictness: WellFormedStrictness,
        tblock: u64,
    ) -> (res: Result<(), MalformedTransaction>)
        requires
            dust.wf(),
            utxos.wf(),
            input_nonces@.len() == guaranteed_inputs(*self).len(),
            sigs_fit(self.guaranteed_unshielded_offer, signatures.guaranteed@),
            sigs_fit(self.fallible_unshielded_offer, signatures.fallible@),
        ensures
            intent_checked(
                *self,
                segment_id,
                sealed,
                *signatures,
                dust.dview(),
                utxos@,
                *params,
                input_nonces@,
                strictness.enforce_balancing,
                tblock,
                res,
            ),
    {
        if segment_id == 0 {
            return Err(MalformedTransaction::IntentAtGuaranteedSegmentId);
        }
        match &self.guaranteed_unshielded_offer {
            Some(o) => {
                match o.well_formed() {
                    Ok(()) => {},
                    Err(e) => return Err(e),
                }
                if sealed {
                    match o.verify_signatures(&signatures.guaranteed) {
                        Ok(()) => {},
                        Err(e) => return Err(e),
                    }
                }
            },
            None => {},
        }
        match &self.fallible_unshielded_offer {
            Some(o) => {
                match o.well_formed() {
                    Ok(()) => {},
                    Err(e) => return Err(e),
                }
                if sealed {
                    match o.verify_signatures(&signatures.fallible) {
                        Ok(()) => {},
                        Err(e) => return Err(e),
                    }
                }
            },
            None => {},
        }
        match &self.dust_actions {
            Some(da) => da.well_formed(dust, utxos, params, self, input_nonces, strictness, tblock),
            None => Ok(()),
        }
    }
}

/// The intent in `segment_id` passes its structural checks.
pub open spec fn intent_ok(
    intent: Intent,
    segment_id: u16,
    sealed: bool,
    sigs: OfferSignatures,
    v: DustView,
    utxos: Map<Utxo, UtxoMeta>,
    params: DustParameters,
    nonces: Seq<InitialNonce>,
    enforce_balancing: bool,
    tblock: u64,
) -> bool {
    intent_checked(intent, segment_id, sealed, sigs, v, utxos, params, nonces, enforce_balancing, tblock, Ok(()))
}

/// The `k`-th intent of `tx` passes its structural checks, under the `k`-th
/// list of nonces.
pub open spec fn intent_ok_at(
    tx: StandardTransaction,
    k: int,
    sealed: bool,
    sigs: Seq<OfferSignatures>,
    v: DustView,
    utxos: Map<Utxo, UtxoMeta>,
    params: DustParameters,
    nonces: Seq<Vec<InitialNonce>>,
    enforce_balancing: bool,
    tblock: u64,
) -> bool {
    tx.intents@[k].0 != 0 && intent_ok(tx.intents@[k].1, tx.intents@[k].0, sealed, sigs[k], v, utxos, params, nonces[k]@, enforce_balancing, tblock)
}

/// What the intents' checks give: `Ok` exactly where every intent passes,
/// and otherwise the error of the first intent that fails (an intent in
/// segment zero is illegally declared guaranteed).
pub open spec fn intents_checked(
    tx: StandardTransaction,
    sealed: bool,
    sigs: Seq<OfferSignatures>,
    v: DustView,
    utxos: Map<Utxo, UtxoMeta>,
    params: DustParameters,
    nonces: Seq<Vec<InitialNonce>>,
    enforce_balancing: bool,
    tblock: u64,
    res: Result<(), MalformedTransaction>,
) -> bool {
    &&& (res is Ok <==> forall|k: int| 0 <= k < tx.intents@.len() ==> #[trigger] intent_ok_at(
        tx,
        k,
        sealed,
        sigs,
        v,
        utxos,
        params,
        nonces,
        enforce_balancing,
        tblock,
    ))
    &&& (res is Err ==> exists|k: int| 0 <= k < tx.intents@.len()
        && (forall|j: int| 0 <= j < k ==> #[trigger] intent_ok_at(tx, j, sealed, sigs, v, utxos, params, nonces, enforce_balancing, tblock))
        && (if tx.intents@[k].0 == 0 {
            res matches Err(MalformedTransaction::IllegallyDeclaredGuaranteed)
        } else {
            intent_checked(tx.intents@[k].1, tx.intents@[k].0, sealed, sigs[k], v, utxos, params, nonces[k]@, enforce_balancing, tblock, res)
        }))
}

impl StandardTransaction {
    /// Runs the structural checks of each intent in segment order (an intent
    /// in segment zero is refused as illegally declared guaranteed); the
    /// first intent that fails gives the error. The `k`-th intent's
    /// guaranteed inputs are taken under `input_nonces[k]`.
    pub fn intents_well_formed(
        &self,
        sealed: bool,
        signatures: &Vec<OfferSignatures>,
        dust: &DustState,
        utxos: &UtxoState,
        params: &DustParameters,
        input_nonces: &Vec<Vec<InitialNonce>>,
        strictness: WellFormedStrictness,
        tblock: u64,
    ) -> (res: Result<(), MalformedTransaction>)
        requires
            dust.wf(),
            utxos.wf(),
            input_nonces@.len() == self.intents@.len(),
            forall|k: int| 0 <= k < self.intents@.len() ==> #[trigger] input_nonces@[k]@.len() == guaranteed_inputs(self.intents@[k].1).len(),
            signatures@.len() == self.intents@.len(),
            forall|k: int| 0 <= k < self.intents@.len() ==> sigs_fit(#[trigger] self.intents@[k].1.guaranteed_unshielded_offer, signatures@[k].guaranteed@)
                && sigs_fit(self.intents@[k].1.fallible_unshielded_offer, signatures@[k].fallible@),
        ensures
            intents_checked(*self, sealed, signatures@, dust.dview(), utxos@, *params, input_nonces@, strictness.enforce_balancing, tblock, res),
    {
        let mut k: usize = 0;
        while k < self.intents.len()
            invariant
                0 <= k <= self.intents@.len(),
                dust.wf(),
                utxos.wf(),
                input_nonces@.len() == self.intents@.len(),
                forall|k: int| 0 <= k < self.intents@.len() ==> #[trigger] input_nonces@[k]@.len() == guaranteed_inputs(self.intents@[k].1).len(),
                signatures@.len() == self.intents@.len(),
                forall|k: int| 0 <= k < self.intents@.len() ==> sigs_fit(#[trigger] self.intents@[k].1.guaranteed_unshielded_offer, signatures@[k].guaranteed@)
                    && sigs_fit(self.intents@[k].1.fallible_unshielded_offer, signatures@[k].fallible@),
                forall|j: int| 0 <= j < k ==> #[trigger] intent_ok_at(*self, j, sealed, signatures@, dust.dview(), utxos@, *params, input_nonces@, strictness.enforce_balancing, tblock),
            decreases self.intents@.len() - k,
        {
            let seg = self.intents[k].0;
            if seg == 0 {
                proof {
                    assert(!intent_ok_at(*self, k as int, sealed, signatures@, dust.dview(), utxos@, *params, input_nonces@, strictness.enforce_balancing, tblock));
                }
                return Err(MalformedTransaction::IllegallyDeclaredGuaranteed);
            }
            let r = self.intents[k].1.well_formed(seg, sealed, &signatures[k], dust, utxos, params, &input_nonces[k], strictness, tblock);
            match r {
                Ok(()) => {},
                Err(e) => {
                    proof {
                        assert(!intent_ok_at(*self, k as int, sealed, signatures@, dust.dview(), utxos@, *params, input_nonces@, strictness.enforce_balancing, tblock));
                    }
                    return Err(e);
                },
            }
            k = k + 1;
        }
        Ok(())
    }
}

} // verus!
