//! The checks of a standard transaction that need neither proofs nor
//! signatures, composed in the order in which well-formedness runs them.
use vstd::prelude::*;
use crate::intent::{StandardTransaction, Transaction, Intent};
use crate::utxo::{UnshieldedOffer, Signature};
use crate::transaction::{TransactionHash, transaction_hash, spec_sha256};
use crate::intent_checks::{intents_checked, sigs_fit, OfferSignatures};
use crate::dust::{DustState, DustParameters, InitialNonce};
use crate::utxo::UtxoState;
use crate::dust_registration::guaranteed_inputs;
use crate::balance::{MalformedTransaction, BalanceKey, apply_steps, balance_steps};
use crate::replay::intent_ttls;
use crate::disjoint::{shielded_clash_from, unshielded_clash_from, shielded_offers, unshielded_offers};
use crate::effects::{
    has_segment, nullifiers_match, receives_match, spends_unique, spends_exist, calls_unique, calls_exist,
    unshielded_spends_backed,
};
use crate::sequencing::{intents_outcome, causality_edge, calls_numbered, CallNode};
use crate::transaction::WellFormedStrictness;

verus! {

/// Every intent's time-to-live lies between `tblock` and `tblock + global_ttl`.
pub open spec fn ttls_in_range(tx: StandardTransaction, tblock: u64, global_ttl: u64) -> bool {
    forall|i: int| 0 <= i < intent_ttls(tx).len() ==> tblock <= #[trigger] intent_ttls(tx)[i] <= tblock + global_ttl
}

/// No input, output or unshielded input is repeated across offers.
pub open spec fn disjoint_ok(tx: StandardTransaction) -> bool {
    shielded_clash_from(shielded_offers(tx), 0) is None && unshielded_clash_from(unshielded_offers(tx), 0) is None
}

/// The transcripts' claims match what the transaction does.
pub open spec fn effects_ok(tx: StandardTransaction) -> bool {
    nullifiers_match(tx) && receives_match(tx) && spends_unique(tx) && spends_exist(tx) && calls_unique(tx) && calls_exist(tx)
        && unshielded_spends_backed(tx)
}

/// The calls are sequenced correctly, and no fallible call precedes a
/// guaranteed one.
pub open spec fn sequencing_ok(tx: StandardTransaction) -> bool {
    intents_outcome(tx.intents@) matches Ok(v) && !exists|f: CallNode, j: int| causality_edge(v.guaranteed, v.fallible, v.adjacencies, f, j)
}

/// The balances fit in `i128`, and (where the strictness enforces it) none
/// is negative after paying `fees`.
pub open spec fn balancing_ok(tx: StandardTransaction, strictness: WellFormedStrictness, fees: u128) -> bool {
    apply_steps(balance_steps(tx, Some(fees), false)) matches Ok(m)
        && !(strictness.enforce_balancing && exists|k: BalanceKey| m.contains_key(k) && #[trigger] m[k] < 0)
}

/// Every structural check passes.
pub open spec fn structure_ok(
    tx: StandardTransaction,
    network_id: String,
    strictness: WellFormedStrictness,
    tblock: u64,
    global_ttl: u64,
    fees: u128,
) -> bool {
    &&& tx.network_id@ == network_id@
    &&& ttls_in_range(tx, tblock, global_ttl)
    &&& !has_segment(tx.fallible_coins@, 0)
    &&& disjoint_ok(tx)
    &&& effects_ok(tx)
    &&& sequencing_ok(tx)
    &&& balancing_ok(tx, strictness, fees)
    &&& !has_segment(tx.intents@, 0)
}

/// What the structural checks give: `Ok` exactly where every check passes,
/// and otherwise the error of the first check that fails.
pub open spec fn structure_checked(
    tx: StandardTransaction,
    network_id: String,
    strictness: WellFormedStrictness,
    tblock: u64,
    global_ttl: u64,
    fees: u128,
    res: Result<(), MalformedTransaction>,
) -> bool {
    let net = tx.network_id@ == network_id@;
    let ttl = ttls_in_range(tx, tblock, global_ttl);
    let fall = !has_segment(tx.fallible_coins@, 0);
    &&& (res is Ok <==> structure_ok(tx, network_id, strictness, tblock, global_ttl, fees))
    &&& (!net ==> (res matches Err(MalformedTransaction::InvalidNetworkId { expected, found }) && expected@ == network_id@
        && found@ == tx.network_id@))
    &&& (res matches Err(MalformedTransaction::TransactionApplicationError(_)) ==> net && !ttl)
    &&& (res matches Err(MalformedTransaction::IllegallyDeclaredGuaranteed) ==> net && ttl && (!fall || (disjoint_ok(tx)
        && effects_ok(tx) && sequencing_ok(tx) && balancing_ok(tx, strictness, fees) && has_segment(tx.intents@, 0))))
    &&& (res matches Err(MalformedTransaction::DisjointCheckFailure(_)) ==> net && ttl && fall && !disjoint_ok(tx))
    &&& (res matches Err(MalformedTransaction::EffectsCheckFailure(_)) ==> net && ttl && fall && disjoint_ok(tx)
        && !effects_ok(tx))
    &&& (res matches Err(MalformedTransaction::SequencingCheckFailure(_)) ==> net && ttl && fall && disjoint_ok(tx)
        && effects_ok(tx) && !sequencing_ok(tx))
    &&& ((res is Err && !(res matches Err(MalformedTransaction::InvalidNetworkId { .. }))
        && !(res matches Err(MalformedTransaction::TransactionApplicationError(_)))
        && !(res matches Err(MalformedTransaction::IllegallyDeclaredGuaranteed))
        && !(res matches Err(MalformedTransaction::DisjointCheckFailure(_)))
        && !(res matches Err(MalformedTransaction::EffectsCheckFailure(_)))
        && !(res matches Err(MalformedTransaction::SequencingCheckFailure(_)))) ==> net && ttl && fall && disjoint_ok(tx)
        && effects_ok(tx) && sequencing_ok(tx) && !balancing_ok(tx, strictness, fees))
}

/// The structural checks refuse a transaction for another network, one
/// with an intent whose time-to-live has passed or lies beyond the global
/// bound, one with an intent or a fallible offer in segment zero, and
/// (where balancing is enforced) one that leaves a balance negative after
/// the fees.
pub proof fn lemma_structure_refuses(
    tx: StandardTransaction,
    network_id: String,
    strictness: WellFormedStrictness,
    tblock: u64,
    global_ttl: u64,
    fees: u128,
    res: Result<(), MalformedTransaction>,
)
    requires
        structure_checked(tx, network_id, strictness, tblock, global_ttl, fees, res),
    ensures
        tx.network_id@ != network_id@ ==> res is Err,
        (exists|i: int| 0 <= i < tx.intents@.len() && (#[trigger] tx.intents@[i]).1.ttl < tblock) ==> res is Err,
        (exists|i: int| 0 <= i < tx.intents@.len() && (#[trigger] tx.intents@[i]).1.ttl > tblock + global_ttl) ==> res is Err,
        (exists|i: int| 0 <= i < tx.intents@.len() && (#[trigger] tx.intents@[i]).0 == 0) ==> res is Err,
        (exists|i: int| 0 <= i < tx.fallible_coins@.len() && (#[trigger] tx.fallible_coins@[i]).0 == 0) ==> res is Err,
        res is Ok && strictness.enforce_balancing ==> (apply_steps(balance_steps(tx, Some(fees), false)) matches Ok(m)
            && forall|k: BalanceKey| #[trigger] m.contains_key(k) ==> m[k] >= 0),
{
    if exists|i: int| 0 <= i < tx.intents@.len() && (#[trigger] tx.intents@[i]).1.ttl < tblock {
        let i = choose|i: int| 0 <= i < tx.intents@.len() && (#[trigger] tx.intents@[i]).1.ttl < tblock;
        assert(intent_ttls(tx)[i] == tx.intents@[i].1.ttl);
    }
    if exists|i: int| 0 <= i < tx.intents@.len() && (#[trigger] tx.intents@[i]).1.ttl > tblock + global_ttl {
        let i = choose|i: int| 0 <= i < tx.intents@.len() && (#[trigger] tx.intents@[i]).1.ttl > tblock + global_ttl;
        assert(intent_ttls(tx)[i] == tx.intents@[i].1.ttl);
    }
}

impl StandardTransaction {
    /// The checks that need neither proofs nor signatures, in the order in
    /// which well-formedness runs them: the network, the times to live, no
    /// fallible offer in segment zero, disjointness, effects, sequencing,
    /// balance after `fees`, and no intent in segment zero. The first that
    /// fails gives the error.
    pub fn well_formed_structure(
        &self,
        network_id: &String,
        strictness: WellFormedStrictness,
        tblock: u64,
        global_ttl: u64,
        fees: u128,
    ) -> (res: Result<(), MalformedTransaction>)
        requires
            self.wf(),
            calls_numbered(self.intents@),
        ensures
            structure_checked(*self, *network_id, strictness, tblock, global_ttl, fees, res),
    {
        if !(self.network_id == *network_id) {
            return Err(MalformedTransaction::InvalidNetworkId { expected: network_id.clone(), found: self.network_id.clone() });
        }
        match self.ttl_check_weak(tblock, global_ttl) {
            Ok(()) => {},
            Err(e) => return Err(MalformedTransaction::TransactionApplicationError(e)),
        }
        if self.fallible_coins.len() > 0 && self.fallible_coins[0].0 == 0 {
            return Err(MalformedTransaction::IllegallyDeclaredGuaranteed);
        }
        proof {
            if has_segment(self.fallible_coins@, 0) {
                let w = choose|w: int| 0 <= w < self.fallible_coins@.len() && #[trigger] self.fallible_coins@[w].0 == 0;
                if w > 0 {
                    assert(self.fallible_coins@[0].0 < self.fallible_coins@[w].0);
                }
            }
        }
        match self.disjoint_check() {
            Ok(()) => {},
            Err(e) => return Err(MalformedTransaction::DisjointCheckFailure(e)),
        }
        match self.effects_check() {
            Ok(()) => {},
            Err(e) => return Err(MalformedTransaction::EffectsCheckFailure(e)),
        }
        match self.sequencing_check() {
            Ok(()) => {},
            Err(e) => return Err(MalformedTransaction::SequencingCheckFailure(e)),
        }
        match self.balancing_check(strictness, fees) {
            Ok(()) => {},
            Err(e) => return Err(e),
        }
        if self.intents.len() > 0 && self.intents[0].0 == 0 {
            return Err(MalformedTransaction::IllegallyDeclaredGuaranteed);
        }
        proof {
            if has_segment(self.intents@, 0) {
                let w = choose|w: int| 0 <= w < self.intents@.len() && #[trigger] self.intents@[w].0 == 0;
                if w > 0 {
                    assert(self.intents@[0].0 < self.intents@[w].0);
                }
            }
        }
        Ok(())
    }
}

/// `n` erased signatures.
pub open spec fn erased_signatures(n: nat) -> Seq<Signature> {
    Seq::new(n, |i: int| Signature::Erased)
}

/// `a` is the offer `b` with its signatures erased.
pub open spec fn offer_erased(a: Option<UnshieldedOffer>, b: Option<UnshieldedOffer>) -> bool {
    match (a, b) {
        (Some(x), Some(y)) => x.inputs@ == y.inputs@ && x.outputs@ == y.outputs@ && x.signatures@ == erased_signatures(
            y.signatures@.len(),
        ),
        (None, None) => true,
        _ => false,
    }
}

/// `a` is the intent `b` with the signatures of its offers erased.
pub open spec fn intent_erased(a: Intent, b: Intent) -> bool {
    &&& offer_erased(a.guaranteed_unshielded_offer, b.guaranteed_unshielded_offer)
    &&& offer_erased(a.fallible_unshielded_offer, b.fallible_unshielded_offer)
    &&& a.calls == b.calls
    &&& a.dust_actions == b.dust_actions
    &&& a.ttl == b.ttl
}

/// `a` is the transaction `b` with its signatures erased.
pub open spec fn tx_erased(a: Transaction, b: Transaction) -> bool {
    match (a, b) {
        (Transaction::Standard(x), Transaction::Standard(y)) => {
            &&& x.network_id == y.network_id
            &&& x.guaranteed_coins == y.guaranteed_coins
            &&& x.fallible_coins == y.fallible_coins
            &&& x.intents@.len() == y.intents@.len()
            &&& forall|k: int| 0 <= k < x.intents@.len() ==> #[trigger] x.intents@[k].0 == y.intents@[k].0 && intent_erased(
                x.intents@[k].1,
                y.intents@[k].1,
            )
        },
        (Transaction::ClaimRewards(x), Transaction::ClaimRewards(y)) => x == y,
        _ => false,
    }
}

impl UnshieldedOffer {
    /// Erases the offer's signatures, keeping one erased slot for each.
    pub fn erase_signatures(&mut self)
        ensures
            offer_erased(Some(*final(self)), Some(*old(self))),
    {
        let n = self.signatures.len();
        let mut sigs: Vec<Signature> = Vec::new();
        let mut i: usize = 0;
        while i < n
            invariant
                0 <= i <= n,
                sigs@ == erased_signatures(i as nat),
            decreases n - i,
        {
            sigs.push(Signature::Erased);
            i = i + 1;
            proof {
                assert(sigs@ =~= erased_signatures(i as nat));
            }
        }
        self.signatures = sigs;
    }
}

impl Intent {
    /// Erases the signatures of the intent's offers.
    pub fn erase_signatures(&mut self)
        ensures
            intent_erased(*final(self), *old(self)),
    {
        match &mut self.guaranteed_unshielded_offer {
            Some(o) => o.erase_signatures(),
            None => {},
        }
        match &mut self.fallible_unshielded_offer {
            Some(o) => o.erase_signatures(),
            None => {},
        }
    }
}

impl Transaction {
    /// The transaction with its signatures erased (a reward claim carries
    /// none that the library holds).
    pub fn erase_signatures(self) -> (r: Transaction)
        ensures
            tx_erased(r, self),
    {
        match self {
            Transaction::Standard(stx) => {
                let StandardTransaction { network_id, intents, guaranteed_coins, fallible_coins } = stx;
                let ghost orig = intents@;
                let mut rest = intents;
                let mut out: Vec<(u16, Intent)> = Vec::new();
                while rest.len() > 0
                    invariant
                        out@.len() + rest@.len() == orig.len(),
                        rest@ == orig.subrange(out@.len() as int, orig.len() as int),
                        forall|k: int| 0 <= k < out@.len() ==> #[trigger] out@[k].0 == orig[k].0 && intent_erased(out@[k].1, orig[k].1),
                    decreases rest@.len(),
                {
                    let (seg, mut intent) = rest.remove(0);
                    proof {
                        assert(orig[out@.len() as int] == (seg, intent));
                    }
                    intent.erase_signatures();
                    out.push((seg, intent));
                    proof {
                        assert(rest@ =~= orig.subrange(out@.len() as int, orig.len() as int));
                    }
                }
                Transaction::Standard(StandardTransaction { network_id, intents: out, guaranteed_coins, fallible_coins })
            },
            Transaction::ClaimRewards(c) => Transaction::ClaimRewards(c),
        }
    }
}

/// A transaction that passed well-formedness: its erased form and its hash.
#[derive(Debug)]
pub struct VerifiedTransaction {
    pub inner: Transaction,
    pub hash: TransactionHash,
}

/// The outcome of a check, without the value it gives on success.
pub open spec fn outcome<T>(res: Result<T, MalformedTransaction>) -> Result<(), MalformedTransaction> {
    match res {
        Ok(_) => Ok(()),
        Err(e) => Err(e),
    }
}

impl Transaction {
    /// The well-formedness checks that need no proofs. First, where limits
    /// are enforced, the serialized size (`serialized_size`) must not exceed
    /// `transaction_byte_limit`. Then a standard transaction passes its
    /// structural checks (see `structure_checked`) and the checks of each
    /// intent in segment order against the DUST and UTXO states (see
    /// `intents_checked`; the `k`-th intent's guaranteed inputs are taken
    /// under `input_nonces[k]`, and, in a `sealed` transaction, its offers'
    /// signatures verify as `signatures[k]` says); a reward claim must be
    /// for `network_id` and, when sealed, its signature must verify
    /// (`claim_signature_valid`). On success the result holds the
    /// transaction with its signatures erased, and its hash, the digest of
    /// its tagged serialization `tagged`.
    pub fn well_formed(
        self,
        tagged: &[u8],
        serialized_size: usize,
        transaction_byte_limit: u64,
        network_id: &String,
        strictness: WellFormedStrictness,
        tblock: u64,
        global_ttl: u64,
        fees: u128,
        dust: &DustState,
        utxos: &UtxoState,
        params: &DustParameters,
        input_nonces: &Vec<Vec<InitialNonce>>,
        sealed: bool,
        signatures: &Vec<OfferSignatures>,
        claim_signature_valid: bool,
    ) -> (res: Result<VerifiedTransaction, MalformedTransaction>)
        requires
            dust.wf(),
            utxos.wf(),
            self matches Transaction::Standard(stx) ==> {
                &&& stx.wf()
                &&& calls_numbered(stx.intents@)
                &&& input_nonces@.len() == stx.intents@.len()
                &&& forall|k: int| 0 <= k < stx.intents@.len() ==> #[trigger] input_nonces@[k]@.len() == guaranteed_inputs(
                    stx.intents@[k].1,
                ).len()
                &&& signatures@.len() == stx.intents@.len()
                &&& forall|k: int| 0 <= k < stx.intents@.len() ==> sigs_fit(#[trigger] stx.intents@[k].1.guaranteed_unshielded_offer, signatures@[k].guaranteed@)
                    && sigs_fit(stx.intents@[k].1.fallible_unshielded_offer, signatures@[k].fallible@)
            },
        ensures
            if strictness.enforce_limits && serialized_size > transaction_byte_limit {
                res matches Err(MalformedTransaction::TransactionTooLarge { tx_size, limit }) && tx_size == serialized_size
                    && limit == transaction_byte_limit
            } else {
                match self {
                    Transaction::Standard(stx) => if structure_ok(stx, *network_id, strictness, tblock, global_ttl, fees) {
                        intents_checked(stx, sealed, signatures@, dust.dview(), utxos@, *params, input_nonces@, strictness.enforce_balancing, tblock, outcome(res))
                    } else {
                        structure_checked(stx, *network_id, strictness, tblock, global_ttl, fees, outcome(res))
                    },
                    Transaction::ClaimRewards(claim) => if claim.network_id@ != network_id@ {
                        res matches Err(MalformedTransaction::InvalidNetworkId { expected, found }) && expected@ == network_id@ && found@
                            == claim.network_id@
                    } else if sealed && !claim_signature_valid {
                        res matches Err(MalformedTransaction::IntentSignatureVerificationFailure)
                    } else {
                        res is Ok
                    },
                }
            },
            res matches Ok(v) ==> tx_erased(v.inner, self) && v.hash.0.0@ == spec_sha256(tagged@),
    {
        if strictness.enforce_limits && (serialized_size as u128) > (transaction_byte_limit as u128) {
            return Err(MalformedTransaction::TransactionTooLarge { tx_size: serialized_size, limit: transaction_byte_limit });
        }
        match &self {
            Transaction::Standard(stx) => {
                match stx.well_formed_structure(network_id, strictness, tblock, global_ttl, fees) {
                    Ok(()) => {},
                    Err(e) => return Err(e),
                }
                match stx.intents_well_formed(sealed, signatures, dust, utxos, params, input_nonces, strictness, tblock) {
                    Ok(()) => {},
                    Err(e) => return Err(e),
                }
            },
            Transaction::ClaimRewards(claim) => {
                if !(claim.network_id == *network_id) {
                    return Err(MalformedTransaction::InvalidNetworkId { expected: network_id.clone(), found: claim.network_id.clone() });
                }
                if sealed && !claim_signature_valid {
                    return Err(MalformedTransaction::IntentSignatureVerificationFailure);
                }
            },
        }
        let hash = transaction_hash(tagged);
        Ok(VerifiedTransaction { inner: self.erase_signatures(), hash })
    }
}

} // verus!
