//! The balance of a standard transaction: for each token type and segment,
//! what its inputs, mints and contract outputs bring in less what its
//! outputs, fees and contract inputs take out, computed in `i128` with every
//! step checked.
use vstd::prelude::*;
use crate::hash::{KeyEq, TokenType, UserAddress, ContractAddress};
use crate::keyed::KeyMap;
use crate::intent::{Effects, ContractCall, Intent, DustActions, DustRegistration, ZswapOffer, Delta, StandardTransaction, Transaction};
use crate::utxo::{UnshieldedOffer, UtxoSpend, UtxoOutput};
use crate::counting::{flat_map, lemma_flat_map_take, lemma_flat_map_full};
use crate::transaction::WellFormedStrictness;
use crate::replay::TransactionApplicationError;
use crate::disjoint::DisjointCheckError;
use crate::effects::EffectsCheckError;
use crate::sequencing::SequencingCheckError;
use crate::contract_state::EntryPointBuf;

verus! {

/// Whether a balance step adds or subtracts.
#[derive(Debug, Clone, Copy, PartialEq, Eq, Structural)]
pub enum BalanceOperation {
    Addition,
    Subtraction,
}

/// A balance is kept per token type and segment.
#[derive(Debug, Clone, Copy)]
pub struct BalanceKey {
    pub token_type: TokenType,
    pub segment: u16,
}

impl KeyEq for BalanceKey {
    fn key_eq(&self, other: &Self) -> (r: bool) {
        self.token_type.key_eq(&other.token_type) && self.segment == other.segment
    }
}

/// One step of the balance computation.
#[derive(Debug, Clone, Copy)]
pub struct BalanceStep {
    pub key: BalanceKey,
    pub value: u128,
    pub operation: BalanceOperation,
}

/// Why a transaction is malformed.
#[allow(inconsistent_fields)]
#[derive(Debug, Clone)]
pub enum MalformedTransaction {
    /// A value does not fit in `i128`.
    BalanceCheckConversionFailure { token_type: TokenType, segment: u16, operation_value: u128 },
    /// A step takes a balance out of the range of `i128`.
    BalanceCheckOutOfBounds {
        token_type: TokenType,
        segment: u16,
        current_balance: i128,
        operation_value: i128,
        operation: BalanceOperation,
    },
    /// A balance is negative.
    BalanceCheckOverspend { token_type: TokenType, segment: u16, overspent_value: i128 },
    /// The transaction is for another network.
    InvalidNetworkId { expected: String, found: String },
    /// An intent's time-to-live is out of range.
    TransactionApplicationError(TransactionApplicationError),
    /// A fallible offer or an intent is declared in segment zero, which is
    /// the guaranteed segment.
    IllegallyDeclaredGuaranteed,
    DisjointCheckFailure(DisjointCheckError),
    EffectsCheckFailure(EffectsCheckError),
    SequencingCheckFailure(SequencingCheckError),
    /// An unshielded offer's inputs are not in ascending order.
    InputsNotSorted(Vec<UtxoSpend>),
    /// An unshielded offer's outputs are not in ascending order.
    OutputsNotSorted(Vec<UtxoOutput>),
    /// An unshielded offer spends the same input twice.
    DuplicateInputs(Vec<UtxoSpend>),
    /// An intent is declared in segment zero, which is the guaranteed segment.
    IntentAtGuaranteedSegmentId,
    /// A part of the transaction is not in its canonical form (such as DUST
    /// actions with neither spends nor registrations).
    NotNormalized,
    /// The DUST actions' time lies outside the window that ends at the block
    /// time and starts the grace period before it.
    OutOfDustValidityWindow { dust_ctime: u64, validity_start: u64, validity_end: u64 },
    /// The same NIGHT key is registered more than once.
    MultipleDustRegistrationsForKey { key: UserAddress },
    /// A registration allows more fees than the DUST its NIGHT has accrued.
    InsufficientDustForRegistrationFee { registration: DustRegistration, available_dust: u128 },
    /// A maintenance update is signed by a key index outside the committee.
    KeyNotInCommittee { address: ContractAddress, key_id: usize },
    /// A committee member's signature on a maintenance update does not verify.
    InvalidCommitteeSignature { address: ContractAddress, key_id: usize },
    /// A maintenance update has fewer signatures than the committee's threshold.
    ThresholdMissed { address: ContractAddress, signatures: usize, threshold: usize },
    /// An unshielded offer has not one signature for each input (the
    /// inputs, and the number of signatures).
    InputsSignaturesLengthMismatch { inputs: Vec<UtxoSpend>, signatures: usize },
    /// A signature of an unshielded offer does not verify.
    IntentSignatureVerificationFailure,
    /// The transaction's serialized size exceeds the limit.
    TransactionTooLarge { tx_size: usize, limit: u64 },
    /// A contract operation has no verifier key.
    VerifierKeyNotSet { address: ContractAddress, operation: EntryPointBuf },
}

/// A step on `key` by `value`.
pub open spec fn step(token_type: TokenType, segment: u16, value: u128, operation: BalanceOperation) -> BalanceStep {
    BalanceStep { key: BalanceKey { token_type, segment }, value, operation }
}

/// The fee, paid in DUST from segment zero.
pub open spec fn fee_steps(fees: Option<u128>) -> Seq<BalanceStep> {
    match fees {
        Some(f) => seq![step(TokenType::Dust, 0, f, BalanceOperation::Subtraction)],
        None => Seq::empty(),
    }
}

/// DUST spends and registrations bring DUST into segment zero: the fee each
/// spend pays, and what each registration allows for fees.
pub open spec fn dust_steps(da: Option<DustActions>) -> Seq<BalanceStep> {
    match da {
        Some(d) => d.spends@.map_values(
            |s: crate::intent::DustSpend| step(TokenType::Dust, 0, s.v_fee, BalanceOperation::Addition),
        ) + d.registrations@.map_values(
            |r: crate::intent::DustRegistration| step(TokenType::Dust, 0, r.allow_fee_payment, BalanceOperation::Addition),
        ),
        None => Seq::empty(),
    }
}

/// An unshielded offer in `segment`: its inputs bring their values in, its
/// outputs take theirs out.
pub open spec fn offer_steps(segment: u16, offer: Option<UnshieldedOffer>) -> Seq<BalanceStep> {
    match offer {
        Some(o) => o.inputs@.map_values(
            |i: crate::utxo::UtxoSpend| step(TokenType::Unshielded(i.type_), segment, i.value, BalanceOperation::Addition),
        ) + o.outputs@.map_values(
            |u: crate::utxo::UtxoOutput| step(TokenType::Unshielded(u.type_), segment, u.value, BalanceOperation::Subtraction),
        ),
        None => Seq::empty(),
    }
}

/// A transcript in `segment`: its mints and its outputs bring value in,
/// what the contract takes as inputs goes out.
pub open spec fn transcript_steps(segment: u16, t: Option<Effects>) -> Seq<BalanceStep> {
    match t {
        Some(e) => e.shielded_mints@.map_values(
            |m: (crate::hash::ShieldedTokenType, u64)| step(TokenType::Shielded(m.0), segment, m.1 as u128, BalanceOperation::Addition),
        ) + e.unshielded_mints@.map_values(
            |m: (crate::hash::UnshieldedTokenType, u64)| step(TokenType::Unshielded(m.0), segment, m.1 as u128, BalanceOperation::Addition),
        ) + e.unshielded_inputs@.map_values(
            |m: (TokenType, u128)| step(m.0, segment, m.1, BalanceOperation::Subtraction),
        ) + e.unshielded_outputs@.map_values(
            |m: (TokenType, u128)| step(m.0, segment, m.1, BalanceOperation::Addition),
        ),
        None => Seq::empty(),
    }
}

/// A call of an intent in `segment`: its guaranteed transcript in segment
/// zero, its fallible one in `segment`.
pub open spec fn call_steps(segment: u16, c: ContractCall) -> Seq<BalanceStep> {
    transcript_steps(0, c.guaranteed_transcript) + transcript_steps(segment, c.fallible_transcript)
}

/// An intent: DUST actions, the guaranteed offer in segment zero, the
/// fallible offer in the intent's segment, and (unless only deltas are
/// wanted) its calls.
pub open spec fn intent_steps(deltas_only: bool, si: (u16, Intent)) -> Seq<BalanceStep> {
    dust_steps(si.1.dust_actions) + offer_steps(0, si.1.guaranteed_unshielded_offer) + offer_steps(
        si.0,
        si.1.fallible_unshielded_offer,
    ) + if deltas_only {
        Seq::empty()
    } else {
        flat_map(si.1.calls@, |c: ContractCall| call_steps(si.0, c))
    }
}

/// The step for one delta of a shielded offer: a negative delta takes its
/// magnitude out, another brings its value in.
pub open spec fn delta_step(segment: u16, d: Delta) -> BalanceStep {
    if d.value < 0 {
        step(TokenType::Shielded(d.token_type), segment, (-d.value) as u128, BalanceOperation::Subtraction)
    } else {
        step(TokenType::Shielded(d.token_type), segment, d.value as u128, BalanceOperation::Addition)
    }
}

/// The deltas of a shielded offer in `segment`.
pub open spec fn delta_steps(segment: u16, o: ZswapOffer) -> Seq<BalanceStep> {
    o.deltas@.map_values(|d: Delta| delta_step(segment, d))
}

/// All steps, in order: the fee, each intent by segment, the fallible
/// shielded offers by segment, then the guaranteed one in segment zero.
pub open spec fn balance_steps(tx: StandardTransaction, fees: Option<u128>, deltas_only: bool) -> Seq<BalanceStep> {
    fee_steps(fees) + flat_map(tx.intents@, |si: (u16, Intent)| intent_steps(deltas_only, si)) + flat_map(
        tx.fallible_coins@,
        |so: (u16, ZswapOffer)| delta_steps(so.0, so.1),
    ) + match tx.guaranteed_coins {
        Some(g) => delta_steps(0, g),
        None => Seq::empty(),
    }
}

/// The balance at `k`, zero where there is none.
pub open spec fn balance_at(m: Map<BalanceKey, i128>, k: BalanceKey) -> i128 {
    if m.contains_key(k) {
        m[k]
    } else {
        0
    }
}

/// One checked step: the value must fit in `i128`, and so must the new
/// balance.
pub open spec fn apply_step(m: Map<BalanceKey, i128>, s: BalanceStep) -> Result<Map<BalanceKey, i128>, MalformedTransaction> {
    let cur = balance_at(m, s.key);
    if s.value > i128::MAX {
        Err(MalformedTransaction::BalanceCheckConversionFailure {
            token_type: s.key.token_type,
            segment: s.key.segment,
            operation_value: s.value,
        })
    } else {
        let next: int = match s.operation {
            BalanceOperation::Addition => cur + s.value,
            BalanceOperation::Subtraction => cur - s.value,
        };
        if next < i128::MIN || next > i128::MAX {
            Err(MalformedTransaction::BalanceCheckOutOfBounds {
                token_type: s.key.token_type,
                segment: s.key.segment,
                current_balance: cur,
                operation_value: s.value as i128,
                operation: s.operation,
            })
        } else {
            Ok(m.insert(s.key, next as i128))
        }
    }
}

/// The steps applied in order from no balances, or the first error.
pub open spec fn apply_steps(steps: Seq<BalanceStep>) -> Result<Map<BalanceKey, i128>, MalformedTransaction>
    decreases steps.len(),
{
    if steps.len() == 0 {
        Ok(Map::empty())
    } else {
        match apply_steps(steps.drop_last()) {
            Ok(m) => apply_step(m, steps.last()),
            Err(e) => Err(e),
        }
    }
}

/// Builds the step on `key` by `value`.
fn make_step(token_type: TokenType, segment: u16, value: u128, operation: BalanceOperation) -> (r: BalanceStep)
    ensures
        r == step(token_type, segment, value, operation),
{
    BalanceStep { key: BalanceKey { token_type, segment }, value, operation }
}

/// Appends the steps of an intent's DUST actions.
fn push_dust_steps(out: &mut Vec<BalanceStep>, da: &Option<DustActions>)
    ensures
        final(out)@ == old(out)@ + dust_steps(*da),
{
    let ghost begin = out@;
    match da {
        Some(d) => {
    {
        let ghost start = out@;
        let ghost items = d.spends@.map_values(|s: crate::intent::DustSpend| step(TokenType::Dust, 0, s.v_fee, BalanceOperation::Addition));
        let mut i: usize = 0;
        while i < d.spends.len()
            invariant
                0 <= i <= d.spends@.len(),
                items.len() == d.spends@.len(),
                items == d.spends@.map_values(|s: crate::intent::DustSpend| step(TokenType::Dust, 0, s.v_fee, BalanceOperation::Addition)),
                out@ == start + items.take(i as int),
            decreases d.spends@.len() - i,
        {
            let x = d.spends[i];
            let st = make_step(TokenType::Dust, 0, x.v_fee, BalanceOperation::Addition);
            assert(st == items[i as int]);
            out.push(st);
            assert(items.take(i as int + 1) =~= items.take(i as int).push(items[i as int]));
            i = i + 1;
        }
        assert(items.take(d.spends@.len() as int) =~= items);
    }
    {
        let ghost start = out@;
        let ghost items = d.registrations@.map_values(|r: crate::intent::DustRegistration| step(TokenType::Dust, 0, r.allow_fee_payment, BalanceOperation::Addition));
        let mut i: usize = 0;
        while i < d.registrations.len()
            invariant
                0 <= i <= d.registrations@.len(),
                items.len() == d.registrations@.len(),
                items == d.registrations@.map_values(|r: crate::intent::DustRegistration| step(TokenType::Dust, 0, r.allow_fee_payment, BalanceOperation::Addition)),
                out@ == start + items.take(i as int),
            decreases d.registrations@.len() - i,
        {
            let x = d.registrations[i];
            let st = make_step(TokenType::Dust, 0, x.allow_fee_payment, BalanceOperation::Addition);
            assert(st == items[i as int]);
            out.push(st);
            assert(items.take(i as int + 1) =~= items.take(i as int).push(items[i as int]));
            i = i + 1;
        }
        assert(items.take(d.registrations@.len() as int) =~= items);
    }

            assert(out@ =~= begin + dust_steps(*da));
        },
        None => {
            assert(out@ =~= begin + dust_steps(*da));
        },
    }
}

/// Appends the steps of an unshielded offer in `segment`.
fn push_offer_steps(out: &mut Vec<BalanceStep>, segment: u16, offer: &Option<UnshieldedOffer>)
    ensures
        final(out)@ == old(out)@ + offer_steps(segment, *offer),
{
    let ghost begin = out@;
    match offer {
        Some(o) => {
    {
        let ghost start = out@;
        let ghost items = o.inputs@.map_values(|i: crate::utxo::UtxoSpend| step(TokenType::Unshielded(i.type_), segment, i.value, BalanceOperation::Addition));
        let mut i: usize = 0;
        while i < o.inputs.len()
            invariant
                0 <= i <= o.inputs@.len(),
                items.len() == o.inputs@.len(),
                items == o.inputs@.map_values(|i: crate::utxo::UtxoSpend| step(TokenType::Unshielded(i.type_), segment, i.value, BalanceOperation::Addition)),
                out@ == start + items.take(i as int),
            decreases o.inputs@.len() - i,
        {
            let x = o.inputs[i];
            let st = make_step(TokenType::Unshielded(x.type_), segment, x.value, BalanceOperation::Addition);
            assert(st == items[i as int]);
            out.push(st);
            assert(items.take(i as int + 1) =~= items.take(i as int).push(items[i as int]));
            i = i + 1;
        }
        assert(items.take(o.inputs@.len() as int) =~= items);
    }
    {
        let ghost start = out@;
        let ghost items = o.outputs@.map_values(|u: crate::utxo::UtxoOutput| step(TokenType::Unshielded(u.type_), segment, u.value, BalanceOperation::Subtraction));
        let mut i: usize = 0;
        while i < o.outputs.len()
            invariant
                0 <= i <= o.outputs@.len(),
                items.len() == o.outputs@.len(),
                items == o.outputs@.map_values(|u: crate::utxo::UtxoOutput| step(TokenType::Unshielded(u.type_), segment, u.value, BalanceOperation::Subtraction)),
                out@ == start + items.take(i as int),
            decreases o.outputs@.len() - i,
        {
            let x = o.outputs[i];
            let st = make_step(TokenType::Unshielded(x.type_), segment, x.value, BalanceOperation::Subtraction);
            assert(st == items[i as int]);
            out.push(st);
            assert(items.take(i as int + 1) =~= items.take(i as int).push(items[i as int]));
            i = i + 1;
        }
        assert(items.take(o.outputs@.len() as int) =~= items);
    }

            assert(out@ =~= begin + offer_steps(segment, *offer));
        },
        None => {
            assert(out@ =~= begin + offer_steps(segment, *offer));
        },
    }
}

/// Appends the steps of a transcript in `segment`.
fn push_transcript_steps(out: &mut Vec<BalanceStep>, segment: u16, t: &Option<Effects>)
    ensures
        final(out)@ == old(out)@ + transcript_steps(segment, *t),
{
    let ghost begin = out@;
    match t {
        Some(e) => {
    {
        let ghost start = out@;
        let ghost items = e.shielded_mints@.map_values(|m: (crate::hash::ShieldedTokenType, u64)| step(TokenType::Shielded(m.0), segment, m.1 as u128, BalanceOperation::Addition));
        let mut i: usize = 0;
        while i < e.shielded_mints.len()
            invariant
                0 <= i <= e.shielded_mints@.len(),
                items.len() == e.shielded_mints@.len(),
                items == e.shielded_mints@.map_values(|m: (crate::hash::ShieldedTokenType, u64)| step(TokenType::Shielded(m.0), segment, m.1 as u128, BalanceOperation::Addition)),
                out@ == start + items.take(i as int),
            decreases e.shielded_mints@.len() - i,
        {
            let x = e.shielded_mints[i];
            let st = make_step(TokenType::Shielded(x.0), segment, x.1 as u128, BalanceOperation::Addition);
            assert(st == items[i as int]);
            out.push(st);
            assert(items.take(i as int + 1) =~= items.take(i as int).push(items[i as int]));
            i = i + 1;
        }
        assert(items.take(e.shielded_mints@.len() as int) =~= items);
    }
    {
        let ghost start = out@;
        let ghost items = e.unshielded_mints@.map_values(|m: (crate::hash::UnshieldedTokenType, u64)| step(TokenType::Unshielded(m.0), segment, m.1 as u128, BalanceOperation::Addition));
        let mut i: usize = 0;
        while i < e.unshielded_mints.len()
            invariant
                0 <= i <= e.unshielded_mints@.len(),
                items.len() == e.unshielded_mints@.len(),
                items == e.unshielded_mints@.map_values(|m: (crate::hash::UnshieldedTokenType, u64)| step(TokenType::Unshielded(m.0), segment, m.1 as u128, BalanceOperation::Addition)),
                out@ == start + items.take(i as int),
            decreases e.unshielded_mints@.len() - i,
        {
            let x = e.unshielded_mints[i];
            let st = make_step(TokenType::Unshielded(x.0), segment, x.1 as u128, BalanceOperation::Addition);
            assert(st == items[i as int]);
            out.push(st);
            assert(items.take(i as int + 1) =~= items.take(i as int).push(items[i as int]));
            i = i + 1;
        }
        assert(items.take(e.unshielded_mints@.len() as int) =~= items);
    }
    {
        let ghost start = out@;
        let ghost items = e.unshielded_inputs@.map_values(|m: (TokenType, u128)| step(m.0, segment, m.1, BalanceOperation::Subtraction));
        let mut i: usize = 0;
        while i < e.unshielded_inputs.len()
            invariant
                0 <= i <= e.unshielded_inputs@.len(),
                items.len() == e.unshielded_inputs@.len(),
                items == e.unshielded_inputs@.map_values(|m: (TokenType, u128)| step(m.0, segment, m.1, BalanceOperation::Subtraction)),
                out@ == start + items.take(i as int),
            decreases e.unshielded_inputs@.len() - i,
        {
            let x = e.unshielded_inputs[i];
            let st = make_step(x.0, segment, x.1, BalanceOperation::Subtraction);
            assert(st == items[i as int]);
            out.push(st);
            assert(items.take(i as int + 1) =~= items.take(i as int).push(items[i as int]));
            i = i + 1;
        }
        assert(items.take(e.unshielded_inputs@.len() as int) =~= items);
    }
    {
        let ghost start = out@;
        let ghost items = e.unshielded_outputs@.map_values(|m: (TokenType, u128)| step(m.0, segment, m.1, BalanceOperation::Addition));
        let mut i: usize = 0;
        while i < e.unshielded_outputs.len()
            invariant
                0 <= i <= e.unshielded_outputs@.len(),
                items.len() == e.unshielded_outputs@.len(),
                items == e.unshielded_outputs@.map_values(|m: (TokenType, u128)| step(m.0, segment, m.1, BalanceOperation::Addition)),
                out@ == start + items.take(i as int),
            decreases e.unshielded_outputs@.len() - i,
        {
            let x = e.unshielded_outputs[i];
            let st = make_step(x.0, segment, x.1, BalanceOperation::Addition);
            assert(st == items[i as int]);
            out.push(st);
            assert(items.take(i as int + 1) =~= items.take(i as int).push(items[i as int]));
            i = i + 1;
        }
        assert(items.take(e.unshielded_outputs@.len() as int) =~= items);
    }

            assert(out@ =~= begin + transcript_steps(segment, *t));
        },
        None => {
            assert(out@ =~= begin + transcript_steps(segment, *t));
        },
    }
}

/// Appends the steps of a shielded offer's deltas in `segment`.
fn push_delta_steps(out: &mut Vec<BalanceStep>, segment: u16, o: &ZswapOffer)
    ensures
        final(out)@ == old(out)@ + delta_steps(segment, *o),
{
    let ghost start = out@;
    let ghost items = delta_steps(segment, *o);
    let mut i: usize = 0;
    while i < o.deltas.len()
        invariant
            0 <= i <= o.deltas@.len(),
            items.len() == o.deltas@.len(),
            items == delta_steps(segment, *o),
            out@ == start + items.take(i as int),
        decreases o.deltas@.len() - i,
    {
        let d = o.deltas[i];
        let st = if d.value < 0 {
            let magnitude: u128 = ((-(d.value + 1)) as u128) + 1;
            make_step(TokenType::Shielded(d.token_type), segment, magnitude, BalanceOperation::Subtraction)
        } else {
            make_step(TokenType::Shielded(d.token_type), segment, d.value as u128, BalanceOperation::Addition)
        };
        assert(st == items[i as int]);
        out.push(st);
        assert(items.take(i as int + 1) =~= items.take(i as int).push(items[i as int]));
        i = i + 1;
    }
    assert(items.take(o.deltas@.len() as int) =~= items);
}

/// Appends the steps of an intent in `segment`.
fn push_intent_steps(out: &mut Vec<BalanceStep>, deltas_only: bool, segment: u16, intent: &Intent)
    ensures
        final(out)@ == old(out)@ + intent_steps(deltas_only, (segment, *intent)),
{
    let ghost begin = out@;
    push_dust_steps(out, &intent.dust_actions);
    push_offer_steps(out, 0, &intent.guaranteed_unshielded_offer);
    push_offer_steps(out, segment, &intent.fallible_unshielded_offer);
    let ghost mid = out@;
    if !deltas_only {
        let ghost f = |c: ContractCall| call_steps(segment, c);
        let mut k: usize = 0;
        while k < intent.calls.len()
            invariant
                0 <= k <= intent.calls@.len(),
                f == (|c: ContractCall| call_steps(segment, c)),
                out@ == mid + flat_map(intent.calls@.take(k as int), f),
            decreases intent.calls@.len() - k,
        {
            let ghost before = out@;
            push_transcript_steps(out, 0, &intent.calls[k].guaranteed_transcript);
            push_transcript_steps(out, segment, &intent.calls[k].fallible_transcript);
            proof {
                lemma_flat_map_take(intent.calls@, f, k as int);
                assert(out@ =~= mid + flat_map(intent.calls@.take(k as int + 1), f));
            }
            k = k + 1;
        }
        proof {
            lemma_flat_map_full(intent.calls@, f);
        }
    }
    assert(out@ =~= begin + intent_steps(deltas_only, (segment, *intent)));
}

/// Lists the balance steps of a transaction, in order.
pub fn collect_balance_steps(tx: &StandardTransaction, fees: Option<u128>, deltas_only: bool) -> (r: Vec<BalanceStep>)
    ensures
        r@ == balance_steps(*tx, fees, deltas_only),
{
    let mut out: Vec<BalanceStep> = Vec::new();
    match fees {
        Some(f) => out.push(make_step(TokenType::Dust, 0, f, BalanceOperation::Subtraction)),
        None => {},
    }
    assert(out@ =~= fee_steps(fees));
    let ghost a = out@;
    let ghost fi = |si: (u16, Intent)| intent_steps(deltas_only, si);
    let mut i: usize = 0;
    while i < tx.intents.len()
        invariant
            0 <= i <= tx.intents@.len(),
            fi == (|si: (u16, Intent)| intent_steps(deltas_only, si)),
            out@ == a + flat_map(tx.intents@.take(i as int), fi),
        decreases tx.intents@.len() - i,
    {
        push_intent_steps(&mut out, deltas_only, tx.intents[i].0, &tx.intents[i].1);
        proof {
            lemma_flat_map_take(tx.intents@, fi, i as int);
        }
        i = i + 1;
    }
    proof {
        lemma_flat_map_full(tx.intents@, fi);
    }
    let ghost b = out@;
    let ghost fd = |so: (u16, ZswapOffer)| delta_steps(so.0, so.1);
    let mut j: usize = 0;
    while j < tx.fallible_coins.len()
        invariant
            0 <= j <= tx.fallible_coins@.len(),
            fd == (|so: (u16, ZswapOffer)| delta_steps(so.0, so.1)),
            out@ == b + flat_map(tx.fallible_coins@.take(j as int), fd),
        decreases tx.fallible_coins@.len() - j,
    {
        push_delta_steps(&mut out, tx.fallible_coins[j].0, &tx.fallible_coins[j].1);
        proof {
            lemma_flat_map_take(tx.fallible_coins@, fd, j as int);
        }
        j = j + 1;
    }
    proof {
        lemma_flat_map_full(tx.fallible_coins@, fd);
    }
    let ghost c = out@;
    match &tx.guaranteed_coins {
        Some(g) => push_delta_steps(&mut out, 0, g),
        None => {},
    }
    assert(out@ =~= balance_steps(*tx, fees, deltas_only));
    out
}

/// A failed step is a value or a balance out of the range of `i128`.
pub proof fn lemma_apply_steps_err_kind(steps: Seq<BalanceStep>)
    ensures
        apply_steps(steps) matches Err(e) ==> e is BalanceCheckConversionFailure || e is BalanceCheckOutOfBounds,
    decreases steps.len(),
{
    if steps.len() > 0 {
        lemma_apply_steps_err_kind(steps.drop_last());
    }
}

/// Once a prefix of the steps fails, the whole fails the same way.
pub proof fn lemma_apply_steps_err_extends(steps: Seq<BalanceStep>, i: int)
    requires
        0 <= i <= steps.len(),
        apply_steps(steps.take(i)) is Err,
    ensures
        apply_steps(steps) == apply_steps(steps.take(i)),
    decreases steps.len() - i,
{
    if i < steps.len() {
        assert(steps.take(i + 1).drop_last() =~= steps.take(i));
        lemma_apply_steps_err_extends(steps, i + 1);
    } else {
        assert(steps.take(i) =~= steps);
    }
}

/// Applies the steps in order from no balances, stopping at the first that
/// fails.
pub fn apply_balance_steps(steps: &Vec<BalanceStep>) -> (res: Result<KeyMap<BalanceKey, i128>, MalformedTransaction>)
    ensures
        match (res, apply_steps(steps@)) {
            (Ok(m), Ok(sm)) => m.wf() && m@ == sm,
            (Err(e), Err(se)) => e == se,
            _ => false,
        },
{
    let mut m: KeyMap<BalanceKey, i128> = KeyMap::new();
    let mut i: usize = 0;
    while i < steps.len()
        invariant
            0 <= i <= steps@.len(),
            m.wf(),
            apply_steps(steps@.take(i as int)) == Ok::<Map<BalanceKey, i128>, MalformedTransaction>(m@),
        decreases steps@.len() - i,
    {
        let s = steps[i];
        proof {
            assert(steps@.take(i as int + 1).drop_last() =~= steps@.take(i as int));
            assert(steps@.take(i as int + 1).last() == s);
        }
        let cur: i128 = match m.get(&s.key) {
            Some(v) => v,
            None => 0,
        };
        if s.value > i128::MAX as u128 {
            let e = MalformedTransaction::BalanceCheckConversionFailure {
                token_type: s.key.token_type,
                segment: s.key.segment,
                operation_value: s.value,
            };
            proof {
                lemma_apply_steps_err_extends(steps@, i as int + 1);
            }
            return Err(e);
        }
        let v: i128 = s.value as i128;
        let next: Option<i128> = match s.operation {
            BalanceOperation::Addition => cur.checked_add(v),
            BalanceOperation::Subtraction => cur.checked_sub(v),
        };
        match next {
            Some(n) => {
                m.insert(s.key, n);
            },
            None => {
                let e = MalformedTransaction::BalanceCheckOutOfBounds {
                    token_type: s.key.token_type,
                    segment: s.key.segment,
                    current_balance: cur,
                    operation_value: v,
                    operation: s.operation,
                };
                proof {
                    lemma_apply_steps_err_extends(steps@, i as int + 1);
                }
                return Err(e);
            },
        }
        i = i + 1;
    }
    assert(steps@.take(steps@.len() as int) =~= steps@);
    Ok(m)
}

impl StandardTransaction {
    /// The balance per token type and segment, or the first step that does
    /// not fit in `i128`. With `deltas_only`, the contract calls are left
    /// out.
    pub fn balance_maybe_deltas_only(&self, fees: Option<u128>, deltas_only: bool) -> (res: Result<KeyMap<BalanceKey, i128>, MalformedTransaction>)
        ensures
            match (res, apply_steps(balance_steps(*self, fees, deltas_only))) {
                (Ok(m), Ok(sm)) => m.wf() && m@ == sm,
                (Err(e), Err(se)) => e == se,
                _ => false,
            },
    {
        let steps = collect_balance_steps(self, fees, deltas_only);
        apply_balance_steps(&steps)
    }

    /// The balance per token type and segment, contract calls included.
    pub fn balance(&self, fees: Option<u128>) -> (res: Result<KeyMap<BalanceKey, i128>, MalformedTransaction>)
        ensures
            match (res, apply_steps(balance_steps(*self, fees, false))) {
                (Ok(m), Ok(sm)) => m.wf() && m@ == sm,
                (Err(e), Err(se)) => e == se,
                _ => false,
            },
    {
        self.balance_maybe_deltas_only(fees, false)
    }

    /// Checks that, after paying `fees`, no balance is negative (where the
    /// strictness enforces balancing).
    pub fn balancing_check(&self, strictness: WellFormedStrictness, fees: u128) -> (res: Result<(), MalformedTransaction>)
        ensures
            apply_steps(balance_steps(*self, Some(fees), false)) matches Err(e) ==> res == Err::<(), MalformedTransaction>(e),
            apply_steps(balance_steps(*self, Some(fees), false)) matches Ok(m) ==> {
                &&& (res is Ok <==> !(strictness.enforce_balancing && exists|k: BalanceKey| m.contains_key(k) && #[trigger] m[k] < 0))
                &&& (res matches Err(e) ==> exists|k: BalanceKey| m.contains_key(k) && #[trigger] m[k] < 0
                    && e == (MalformedTransaction::BalanceCheckOverspend { token_type: k.token_type, segment: k.segment, overspent_value: m[k] }))
            },
            res matches Err(e) ==> e is BalanceCheckConversionFailure || e is BalanceCheckOutOfBounds || e is BalanceCheckOverspend,
    {
        proof {
            lemma_apply_steps_err_kind(balance_steps(*self, Some(fees), false));
        }
        let m = match self.balance(Some(fees)) {
            Ok(m) => m,
            Err(e) => return Err(e),
        };
        let keys = m.keys();
        let mut i: usize = 0;
        while i < keys.len()
            invariant
                0 <= i <= keys@.len(),
                m.wf(),
                forall|k: BalanceKey| m@.contains_key(k) <==> keys@.contains(k),
                apply_steps(balance_steps(*self, Some(fees), false)) == Ok::<Map<BalanceKey, i128>, MalformedTransaction>(m@),
                strictness.enforce_balancing ==> forall|j: int| 0 <= j < i ==> #[trigger] m@[keys@[j]] >= 0,
            decreases keys@.len() - i,
        {
            let k = keys[i];
            assert(keys@.contains(k)) by {
                assert(keys@[i as int] == k);
            }
            let bal = match m.get(&k) {
                Some(b) => b,
                None => 0,
            };
            if bal < 0 && strictness.enforce_balancing {
                let e = MalformedTransaction::BalanceCheckOverspend {
                    token_type: k.token_type,
                    segment: k.segment,
                    overspent_value: bal,
                };
                assert(m@.contains_key(k) && m@[k] < 0 && e == (MalformedTransaction::BalanceCheckOverspend {
                    token_type: k.token_type,
                    segment: k.segment,
                    overspent_value: m@[k],
                }));
                proof {
                    let sm = apply_steps(balance_steps(*self, Some(fees), false))->Ok_0;
                    assert(sm == m@);
                    assert(sm.contains_key(k) && sm[k] < 0);
                    assert(exists|k2: BalanceKey| sm.contains_key(k2) && #[trigger] sm[k2] < 0 && e == (MalformedTransaction::BalanceCheckOverspend {
                        token_type: k2.token_type,
                        segment: k2.segment,
                        overspent_value: sm[k2],
                    }));
                }
                return Err(e);
            }
            i = i + 1;
        }
        proof {
            if strictness.enforce_balancing {
                assert forall|k: BalanceKey| m@.contains_key(k) implies m@[k] >= 0 by {
                    assert(keys@.contains(k));
                    let j = choose|j: int| 0 <= j < keys@.len() && keys@[j] == k;
                    assert(m@[keys@[j]] >= 0);
                }
            }
        }
        Ok(())
    }
}

impl Transaction {
    /// The balance of a standard transaction; a claim has no balance.
    pub fn balance(&self, fees: Option<u128>) -> (res: Result<KeyMap<BalanceKey, i128>, MalformedTransaction>)
        ensures
            match self {
                Transaction::Standard(stx) => match (res, apply_steps(balance_steps(*stx, fees, false))) {
                    (Ok(m), Ok(sm)) => m.wf() && m@ == sm,
                    (Err(e), Err(se)) => e == se,
                    _ => false,
                },
                Transaction::ClaimRewards(_) => res matches Ok(m) && m.wf() && m@ == Map::<BalanceKey, i128>::empty(),
            },
    {
        match self {
            Transaction::Standard(stx) => stx.balance(fees),
            Transaction::ClaimRewards(_) => Ok(KeyMap::new()),
        }
    }
}

/// The steps applied in order from the balances `m`, or the first error.
pub open spec fn apply_steps_from(m: Map<BalanceKey, i128>, steps: Seq<BalanceStep>) -> Result<Map<BalanceKey, i128>, MalformedTransaction>
    decreases steps.len(),
{
    if steps.len() == 0 {
        Ok(m)
    } else {
        match apply_steps_from(m, steps.drop_last()) {
            Ok(m2) => apply_step(m2, steps.last()),
            Err(e) => Err(e),
        }
    }
}

/// Applying two lists of steps applies the second from where the first
/// leaves off.
proof fn lemma_apply_steps_concat(a: Seq<BalanceStep>, b: Seq<BalanceStep>)
    ensures
        apply_steps(a + b) == (match apply_steps(a) {
            Ok(m) => apply_steps_from(m, b),
            Err(e) => Err(e),
        }),
    decreases b.len(),
{
    if b.len() == 0 {
        assert(a + b =~= a);
    } else {
        assert((a + b).drop_last() =~= a + b.drop_last());
        assert((a + b).last() == b.last());
        lemma_apply_steps_concat(a, b.drop_last());
    }
}

/// The DUST balance of segment zero, which fees are paid from.
pub open spec fn fee_key() -> BalanceKey {
    BalanceKey { token_type: TokenType::Dust, segment: 0 }
}

/// `m1` is `m0` with `f` less at the fee key and the same elsewhere.
pub open spec fn lowered_at_fee_key(m0: Map<BalanceKey, i128>, m1: Map<BalanceKey, i128>, f: int) -> bool {
    &&& balance_at(m1, fee_key()) == balance_at(m0, fee_key()) - f
    &&& forall|k: BalanceKey| k != fee_key() ==> (#[trigger] m1.contains_key(k) <==> m0.contains_key(k))
    &&& forall|k: BalanceKey| k != fee_key() && m0.contains_key(k) ==> #[trigger] m1[k] == m0[k]
}

/// Applying the same steps to two balances, one lower at the fee key, keeps
/// them so.
proof fn lemma_apply_steps_lowered(m0: Map<BalanceKey, i128>, m1: Map<BalanceKey, i128>, f: int, steps: Seq<BalanceStep>)
    requires
        lowered_at_fee_key(m0, m1, f),
        apply_steps_from(m0, steps) is Ok,
        apply_steps_from(m1, steps) is Ok,
    ensures
        lowered_at_fee_key(apply_steps_from(m0, steps)->Ok_0, apply_steps_from(m1, steps)->Ok_0, f),
    decreases steps.len(),
{
    if steps.len() > 0 {
        lemma_apply_steps_lowered(m0, m1, f, steps.drop_last());
        let a = apply_steps_from(m0, steps.drop_last())->Ok_0;
        let b = apply_steps_from(m1, steps.drop_last())->Ok_0;
        let st = steps.last();
        let a2 = apply_steps_from(m0, steps)->Ok_0;
        let b2 = apply_steps_from(m1, steps)->Ok_0;
        if st.key != fee_key() {
            assert(balance_at(b, st.key) == balance_at(a, st.key));
        }
        assert forall|k: BalanceKey| k != fee_key() && a2.contains_key(k) implies #[trigger] b2[k] == a2[k] by {
            if k != st.key {
                assert(a.contains_key(k));
            }
        }
    }
}

/// Law: fees lower only the DUST balance of segment zero. Where a
/// transaction's balance without fees and its balance after paying `f`
/// both succeed, they agree at every other token type and segment, and
/// there the second is the first (zero where absent) less `f`.
pub proof fn lemma_fees_lower_only_dust_zero(tx: StandardTransaction, f: u128, deltas_only: bool)
    requires
        apply_steps(balance_steps(tx, None, deltas_only)) is Ok,
        apply_steps(balance_steps(tx, Some(f), deltas_only)) is Ok,
    ensures
        lowered_at_fee_key(
            apply_steps(balance_steps(tx, None, deltas_only))->Ok_0,
            apply_steps(balance_steps(tx, Some(f), deltas_only))->Ok_0,
            f as int,
        ),
{
    let rest = balance_steps(tx, None, deltas_only);
    let fee = fee_steps(Some(f));
    let x = flat_map(tx.intents@, |si: (u16, Intent)| intent_steps(deltas_only, si)) + flat_map(
        tx.fallible_coins@,
        |so: (u16, ZswapOffer)| delta_steps(so.0, so.1),
    ) + match tx.guaranteed_coins {
        Some(g) => delta_steps(0, g),
        None => Seq::empty(),
    };
    assert(rest =~= x);
    assert(balance_steps(tx, Some(f), deltas_only) =~= fee + x);
    assert(rest =~= Seq::<BalanceStep>::empty() + rest);
    lemma_apply_steps_concat(fee, rest);
    lemma_apply_steps_concat(Seq::<BalanceStep>::empty(), rest);
    assert(fee.drop_last() =~= Seq::<BalanceStep>::empty());
    let m0 = Map::<BalanceKey, i128>::empty();
    let m1 = apply_steps(fee)->Ok_0;
    assert(apply_steps_from(m0, rest) == apply_steps(rest));
    lemma_apply_steps_lowered(m0, m1, f as int, rest);
}

/// The signed total of the steps on key `k`: additions count up,
/// subtractions down.
pub open spec fn key_sum(steps: Seq<BalanceStep>, k: BalanceKey) -> int
    decreases steps.len(),
{
    if steps.len() == 0 {
        0
    } else {
        key_sum(steps.drop_last(), k) + if steps.last().key == k {
            match steps.last().operation {
                BalanceOperation::Addition => steps.last().value as int,
                BalanceOperation::Subtraction => -(steps.last().value as int),
            }
        } else {
            0
        }
    }
}

/// The total value of the inputs of token type `t`.
pub open spec fn spends_value(ins: Seq<UtxoSpend>, t: TokenType) -> int
    decreases ins.len(),
{
    if ins.len() == 0 {
        0
    } else {
        spends_value(ins.drop_last(), t) + if TokenType::Unshielded(ins.last().type_) == t { ins.last().value as int } else { 0 }
    }
}

/// The total value of the outputs of token type `t`.
pub open spec fn outputs_value_of(outs: Seq<UtxoOutput>, t: TokenType) -> int
    decreases outs.len(),
{
    if outs.len() == 0 {
        0
    } else {
        outputs_value_of(outs.drop_last(), t) + if TokenType::Unshielded(outs.last().type_) == t { outs.last().value as int } else { 0 }
    }
}

/// What an offer brings into token type `t`: its inputs less its outputs.
pub open spec fn offer_net(o: Option<UnshieldedOffer>, t: TokenType) -> int {
    match o {
        Some(x) => spends_value(x.inputs@, t) - outputs_value_of(x.outputs@, t),
        None => 0,
    }
}

/// Signed totals add up over concatenation.
pub proof fn lemma_key_sum_append(a: Seq<BalanceStep>, b: Seq<BalanceStep>, k: BalanceKey)
    ensures
        key_sum(a + b, k) == key_sum(a, k) + key_sum(b, k),
    decreases b.len(),
{
    if b.len() == 0 {
        assert(a + b =~= a);
    } else {
        assert((a + b).drop_last() =~= a + b.drop_last());
        lemma_key_sum_append(a, b.drop_last(), k);
    }
}

/// Applying steps that succeed leaves each balance at the signed total of
/// the steps on its key.
pub proof fn lemma_balance_is_key_sum(steps: Seq<BalanceStep>, k: BalanceKey)
    requires
        apply_steps(steps) is Ok,
    ensures
        balance_at(apply_steps(steps)->Ok_0, k) == key_sum(steps, k),
    decreases steps.len(),
{
    if steps.len() > 0 {
        lemma_balance_is_key_sum(steps.drop_last(), k);
    }
}

proof fn lemma_input_steps_sum(ss: Seq<BalanceStep>, ins: Seq<UtxoSpend>, segment: u16, k: BalanceKey)
    requires
        ss.len() == ins.len(),
        forall|j: int| 0 <= j < ins.len() ==> ss[j] == step(TokenType::Unshielded(ins[j].type_), segment, ins[j].value, BalanceOperation::Addition),
    ensures
        key_sum(ss, k) == if k.segment == segment { spends_value(ins, k.token_type) } else { 0 },
    decreases ins.len(),
{
    if ins.len() > 0 {
        lemma_input_steps_sum(ss.drop_last(), ins.drop_last(), segment, k);
    }
}

proof fn lemma_output_steps_sum(ss: Seq<BalanceStep>, outs: Seq<UtxoOutput>, segment: u16, k: BalanceKey)
    requires
        ss.len() == outs.len(),
        forall|j: int| 0 <= j < outs.len() ==> ss[j] == step(TokenType::Unshielded(outs[j].type_), segment, outs[j].value, BalanceOperation::Subtraction),
    ensures
        key_sum(ss, k) == if k.segment == segment { -outputs_value_of(outs, k.token_type) } else { 0 },
    decreases outs.len(),
{
    if outs.len() > 0 {
        lemma_output_steps_sum(ss.drop_last(), outs.drop_last(), segment, k);
    }
}

/// The steps of an unshielded offer in `segment` change only the balances
/// of that segment, each by what the offer brings into its token type.
pub proof fn lemma_offer_steps_sum(segment: u16, o: Option<UnshieldedOffer>, k: BalanceKey)
    ensures
        key_sum(offer_steps(segment, o), k) == if k.segment == segment { offer_net(o, k.token_type) } else { 0 },
{
    match o {
        Some(x) => {
            let steps = offer_steps(segment, o);
            let n = x.inputs@.len() as int;
            let a = steps.subrange(0, n);
            let b = steps.subrange(n, steps.len() as int);
            assert(steps =~= a + b);
            lemma_key_sum_append(a, b, k);
            lemma_input_steps_sum(a, x.inputs@, segment, k);
            lemma_output_steps_sum(b, x.outputs@, segment, k);
        },
        None => {},
    }
}

/// An intent's fallible unshielded offer is balanced in the intent's own
/// segment: against the same intent without it, the intent's steps differ
/// by exactly what the offer brings in, on the keys of that segment, and
/// not at all elsewhere (in particular not in segment zero when the intent
/// is in another segment).
pub proof fn lemma_fallible_offer_in_own_segment(deltas_only: bool, si: (u16, Intent), k: BalanceKey)
    ensures
        key_sum(intent_steps(deltas_only, si), k) == key_sum(
            intent_steps(deltas_only, (si.0, Intent { fallible_unshielded_offer: None, ..si.1 })),
            k,
        ) + if k.segment == si.0 { offer_net(si.1.fallible_unshielded_offer, k.token_type) } else { 0 },
{
    let without = Intent { fallible_unshielded_offer: None, ..si.1 };
    let a = dust_steps(si.1.dust_actions);
    let g = offer_steps(0, si.1.guaranteed_unshielded_offer);
    let f = offer_steps(si.0, si.1.fallible_unshielded_offer);
    let c = if deltas_only { Seq::empty() } else { flat_map(si.1.calls@, |c: ContractCall| call_steps(si.0, c)) };
    assert(intent_steps(deltas_only, si) == a + g + f + c);
    assert(intent_steps(deltas_only, (si.0, without)) == a + g + offer_steps(si.0, None) + c);
    assert(offer_steps(si.0, None) =~= Seq::<BalanceStep>::empty());
    lemma_key_sum_append(a + g + f, c, k);
    lemma_key_sum_append(a + g, f, k);
    lemma_key_sum_append(a + g + Seq::<BalanceStep>::empty(), c, k);
    assert(a + g + Seq::<BalanceStep>::empty() =~= a + g);
    lemma_offer_steps_sum(si.0, si.1.fallible_unshielded_offer, k);
}

} // verus!
