//! The effects check of a standard transaction: what the contract
//! transcripts claim must match what the transaction's offers and calls do.
//! Contract-owned nullifiers and commitments are claimed exactly once each,
//! claimed shielded spends and claimed calls are unique and exist, and
//! claimed unshielded spends are backed by real ones.
use vstd::prelude::*;
use crate::hash::{KeyEq, HashOutput, ContractAddress, TokenType};
use crate::intent::{PublicAddress, Effects, ContractCall, Intent, ZswapOffer, StandardTransaction};
use crate::utxo::UnshieldedOffer;
use crate::counting::{
    flat_map, lemma_flat_map_take, lemma_flat_map_full, same_multiset, is_sub_multiset, repeated,
    lists_repeated, distinct_values,
};

verus! {

/// One element of the multisets that the effects check compares.
#[derive(Debug, Clone, Copy)]
pub enum EffectItem {
    /// A nullifier of a coin that a contract owns, in a logical segment.
    Nullifier { segment: u16, nullifier: HashOutput, address: ContractAddress },
    /// A commitment of a coin that a contract receives, in a logical
    /// segment.
    Commitment { segment: u16, commitment: HashOutput, address: ContractAddress },
    /// A coin commitment in a logical segment.
    SegmentCommitment { segment: u16, commitment: HashOutput },
    /// A call, in the segment of the intent that holds it.
    Call { segment: u16, address: ContractAddress, ep_hash: HashOutput, commitment: HashOutput },
    /// An unshielded transfer in an intent, guaranteed or fallible.
    UnshieldedSpend { segment: u16, guaranteed: bool, token: TokenType, recipient: PublicAddress, value: u128 },
}

impl KeyEq for EffectItem {
    fn key_eq(&self, other: &Self) -> (r: bool) {
        match (self, other) {
            (
                EffectItem::Nullifier { segment: s1, nullifier: n1, address: a1 },
                EffectItem::Nullifier { segment: s2, nullifier: n2, address: a2 },
            ) => *s1 == *s2 && n1.key_eq(n2) && a1.key_eq(a2),
            (
                EffectItem::Commitment { segment: s1, commitment: c1, address: a1 },
                EffectItem::Commitment { segment: s2, commitment: c2, address: a2 },
            ) => *s1 == *s2 && c1.key_eq(c2) && a1.key_eq(a2),
            (
                EffectItem::SegmentCommitment { segment: s1, commitment: c1 },
                EffectItem::SegmentCommitment { segment: s2, commitment: c2 },
            ) => *s1 == *s2 && c1.key_eq(c2),
            (
                EffectItem::Call { segment: s1, address: a1, ep_hash: e1, commitment: c1 },
                EffectItem::Call { segment: s2, address: a2, ep_hash: e2, commitment: c2 },
            ) => *s1 == *s2 && a1.key_eq(a2) && e1.key_eq(e2) && c1.key_eq(c2),
            (
                EffectItem::UnshieldedSpend { segment: s1, guaranteed: g1, token: t1, recipient: r1, value: v1 },
                EffectItem::UnshieldedSpend { segment: s2, guaranteed: g2, token: t2, recipient: r2, value: v2 },
            ) => *s1 == *s2 && *g1 == *g2 && t1.key_eq(t2) && r1.key_eq(r2) && *v1 == *v2,
            _ => false,
        }
    }
}

/// Which claims of a transcript to collect.
#[derive(Debug, Clone, Copy, PartialEq, Eq, Structural)]
pub enum TranscriptItemKind {
    ClaimedNullifiers,
    ClaimedShieldedReceives,
    ClaimedShieldedSpends,
    ClaimedContractCalls,
    ClaimedUnshieldedSpends,
    UnshieldedInputs,
}

/// The items of one kind that a transcript contributes. Nullifiers,
/// receives and spends belong to the logical segment (zero for guaranteed
/// transcripts); calls and unshielded transfers to the intent's segment,
/// with whether the transcript is guaranteed.
pub open spec fn effect_items(kind: TranscriptItemKind, physical: u16, logical: u16, e: Effects, addr: ContractAddress) -> Seq<EffectItem> {
    match kind {
        TranscriptItemKind::ClaimedNullifiers => e.claimed_nullifiers@.map_values(
            |n: HashOutput| EffectItem::Nullifier { segment: logical, nullifier: n, address: addr },
        ),
        TranscriptItemKind::ClaimedShieldedReceives => e.claimed_shielded_receives@.map_values(
            |c: HashOutput| EffectItem::Commitment { segment: logical, commitment: c, address: addr },
        ),
        TranscriptItemKind::ClaimedShieldedSpends => e.claimed_shielded_spends@.map_values(
            |c: HashOutput| EffectItem::SegmentCommitment { segment: logical, commitment: c },
        ),
        TranscriptItemKind::ClaimedContractCalls => e.claimed_contract_calls@.map_values(
            |c: crate::intent::ClaimedContractCall| EffectItem::Call {
                segment: physical,
                address: c.address,
                ep_hash: c.ep_hash,
                commitment: c.commitment,
            },
        ),
        TranscriptItemKind::ClaimedUnshieldedSpends => e.claimed_unshielded_spends@.map_values(
            |s: crate::intent::ClaimedUnshieldedSpend| EffectItem::UnshieldedSpend {
                segment: physical,
                guaranteed: logical == 0,
                token: s.token,
                recipient: s.recipient,
                value: s.value,
            },
        ),
        TranscriptItemKind::UnshieldedInputs => e.unshielded_inputs@.map_values(
            |i: (TokenType, u128)| EffectItem::UnshieldedSpend {
                segment: physical,
                guaranteed: logical == 0,
                token: i.0,
                recipient: PublicAddress::Contract(addr),
                value: i.1,
            },
        ),
    }
}

/// The items of one kind from both transcripts of a call in `segment`.
pub open spec fn call_items(kind: TranscriptItemKind, segment: u16, c: ContractCall) -> Seq<EffectItem> {
    (match c.guaranteed_transcript {
        Some(g) => effect_items(kind, segment, 0, g, c.address),
        None => Seq::empty(),
    }) + (match c.fallible_transcript {
        Some(f) => effect_items(kind, segment, segment, f, c.address),
        None => Seq::empty(),
    })
}

/// The items of one kind from all transcripts of an intent.
pub open spec fn intent_items(kind: TranscriptItemKind, si: (u16, Intent)) -> Seq<EffectItem> {
    flat_map(si.1.calls@, |c: ContractCall| call_items(kind, si.0, c))
}

/// The items of one kind from all transcripts of a transaction.
pub open spec fn transcript_items(kind: TranscriptItemKind, tx: StandardTransaction) -> Seq<EffectItem> {
    flat_map(tx.intents@, |si: (u16, Intent)| intent_items(kind, si))
}

/// Which coins of a shielded offer to collect.
#[derive(Debug, Clone, Copy, PartialEq, Eq, Structural)]
pub enum OfferItemKind {
    /// Nullifiers of contract-owned inputs and transients.
    ContractNullifiers,
    /// Commitments of outputs and transients that a contract receives.
    ContractCommitments,
    /// Commitments of all outputs and transients.
    AllCommitments,
}

/// The item of one kind, if any, that a shielded input contributes.
pub open spec fn input_item(kind: OfferItemKind, segment: u16, i: crate::intent::ZswapInput) -> Seq<EffectItem> {
    match (kind, i.contract_address) {
        (OfferItemKind::ContractNullifiers, Some(a)) => seq![EffectItem::Nullifier { segment, nullifier: i.nullifier, address: a }],
        _ => Seq::empty(),
    }
}

/// The item of one kind, if any, that a shielded output contributes.
pub open spec fn output_item(kind: OfferItemKind, segment: u16, x: crate::intent::ZswapOutput) -> Seq<EffectItem> {
    match (kind, x.contract_address) {
        (OfferItemKind::ContractCommitments, Some(a)) => seq![EffectItem::Commitment { segment, commitment: x.coin_com, address: a }],
        (OfferItemKind::AllCommitments, _) => seq![EffectItem::SegmentCommitment { segment, commitment: x.coin_com }],
        _ => Seq::empty(),
    }
}

/// The item of one kind, if any, that a transient coin contributes.
pub open spec fn transient_item(kind: OfferItemKind, segment: u16, t: crate::intent::ZswapTransient) -> Seq<EffectItem> {
    match (kind, t.contract_address) {
        (OfferItemKind::ContractNullifiers, Some(a)) => seq![EffectItem::Nullifier { segment, nullifier: t.nullifier, address: a }],
        (OfferItemKind::ContractCommitments, Some(a)) => seq![EffectItem::Commitment { segment, commitment: t.coin_com, address: a }],
        (OfferItemKind::AllCommitments, _) => seq![EffectItem::SegmentCommitment { segment, commitment: t.coin_com }],
        _ => Seq::empty(),
    }
}

/// The items of one kind that a shielded offer in `segment` contributes:
/// from its inputs, outputs and transient coins, in that order.
pub open spec fn offer_items(kind: OfferItemKind, segment: u16, o: ZswapOffer) -> Seq<EffectItem> {
    flat_map(o.inputs@, |i: crate::intent::ZswapInput| input_item(kind, segment, i))
        + flat_map(o.outputs@, |x: crate::intent::ZswapOutput| output_item(kind, segment, x))
        + flat_map(o.transient@, |t: crate::intent::ZswapTransient| transient_item(kind, segment, t))
}

/// Whether some entry of `s` has segment `seg`.
pub open spec fn has_segment<T>(s: Seq<(u16, T)>, seg: u16) -> bool {
    exists|i: int| 0 <= i < s.len() && #[trigger] s[i].0 == seg
}

/// The items of one kind from the shielded offers, each in its segment: the
/// guaranteed offer in segment zero (unless a fallible offer is keyed by
/// zero, which then takes its place), and each fallible offer in its own.
pub open spec fn all_offer_items(kind: OfferItemKind, tx: StandardTransaction) -> Seq<EffectItem> {
    (match tx.guaranteed_coins {
        Some(g) => if has_segment(tx.fallible_coins@, 0) {
            Seq::empty()
        } else {
            offer_items(kind, 0, g)
        },
        None => Seq::empty(),
    }) + flat_map(tx.fallible_coins@, |so: (u16, ZswapOffer)| offer_items(kind, so.0, so.1))
}

/// The calls of an intent, each in the intent's segment.
pub open spec fn intent_calls(si: (u16, Intent)) -> Seq<EffectItem> {
    si.1.calls@.map_values(
        |c: ContractCall| EffectItem::Call {
            segment: si.0,
            address: c.address,
            ep_hash: c.ep_hash,
            commitment: c.communication_commitment,
        },
    )
}

/// The calls that the transaction makes.
pub open spec fn real_calls(tx: StandardTransaction) -> Seq<EffectItem> {
    flat_map(tx.intents@, |si: (u16, Intent)| intent_calls(si))
}

/// The outputs of an unshielded offer of an intent in `segment`, as
/// transfers to their owners.
pub open spec fn offer_outputs(segment: u16, guaranteed: bool, offer: Option<UnshieldedOffer>) -> Seq<EffectItem> {
    match offer {
        Some(o) => o.outputs@.map_values(
            |u: crate::utxo::UtxoOutput| EffectItem::UnshieldedSpend {
                segment,
                guaranteed,
                token: TokenType::Unshielded(u.type_),
                recipient: PublicAddress::User(u.owner),
                value: u.value,
            },
        ),
        None => Seq::empty(),
    }
}

/// The unshielded outputs of an intent, guaranteed then fallible.
pub open spec fn intent_outputs(si: (u16, Intent)) -> Seq<EffectItem> {
    offer_outputs(si.0, true, si.1.guaranteed_unshielded_offer) + offer_outputs(si.0, false, si.1.fallible_unshielded_offer)
}

/// The unshielded transfers that really happen: what contracts receive as
/// inputs, and the outputs of the intents' offers.
pub open spec fn real_unshielded_spends(tx: StandardTransaction) -> Seq<EffectItem> {
    transcript_items(TranscriptItemKind::UnshieldedInputs, tx) + flat_map(tx.intents@, |si: (u16, Intent)| intent_outputs(si))
}

/// No value occurs in `s` more than once.
pub open spec fn no_repeats(s: Seq<EffectItem>) -> bool {
    forall|x: EffectItem| s.to_multiset().count(x) <= 1
}

/// `r` lists the values of `s`, each once.
pub open spec fn lists_values(s: Seq<EffectItem>, r: Seq<EffectItem>) -> bool {
    &&& forall|i: int, j: int| 0 <= i < j < r.len() ==> r[i] != r[j]
    &&& forall|x: EffectItem| r.contains(x) <==> s.contains(x)
}

/// A failed multiset inclusion: the values of the part and of the whole.
#[derive(Debug, Clone)]
pub struct SubsetCheckFailure {
    pub subset: Vec<EffectItem>,
    pub superset: Vec<EffectItem>,
}

/// Why the effects check refused a transaction.
#[derive(Debug, Clone)]
pub enum EffectsCheckError {
    NullifiersNEClaimedNullifiers { nullifiers: Vec<EffectItem>, claimed_nullifiers: Vec<EffectItem> },
    CommitmentsNEClaimedShieldedReceives { commitments: Vec<EffectItem>, claimed_shielded_receives: Vec<EffectItem> },
    ClaimedUnshieldedSpendsUniquenessFailure(Vec<(EffectItem, usize)>),
    AllCommitmentsSubsetCheckFailure(SubsetCheckFailure),
    ClaimedCallsUniquenessFailure(Vec<(EffectItem, usize)>),
    RealCallsSubsetCheckFailure(SubsetCheckFailure),
    RealUnshieldedSpendsSubsetCheckFailure(SubsetCheckFailure),
}

/// Appends to `out` the items of one kind that a transcript contributes.
fn push_effect_items(out: &mut Vec<EffectItem>, kind: TranscriptItemKind, physical: u16, logical: u16, e: &Effects, addr: ContractAddress)
    ensures
        final(out)@ == old(out)@ + effect_items(kind, physical, logical, *e, addr),
{
    let ghost start = out@;
    let ghost items = effect_items(kind, physical, logical, *e, addr);
    let n: usize = match kind {
        TranscriptItemKind::ClaimedNullifiers => e.claimed_nullifiers.len(),
        TranscriptItemKind::ClaimedShieldedReceives => e.claimed_shielded_receives.len(),
        TranscriptItemKind::ClaimedShieldedSpends => e.claimed_shielded_spends.len(),
        TranscriptItemKind::ClaimedContractCalls => e.claimed_contract_calls.len(),
        TranscriptItemKind::ClaimedUnshieldedSpends => e.claimed_unshielded_spends.len(),
        TranscriptItemKind::UnshieldedInputs => e.unshielded_inputs.len(),
    };
    assert(n == items.len());
    let mut i: usize = 0;
    while i < n
        invariant
            0 <= i <= n,
            n == items.len(),
            items == effect_items(kind, physical, logical, *e, addr),
            out@ == start + items.take(i as int),
        decreases n - i,
    {
        let item = match kind {
            TranscriptItemKind::ClaimedNullifiers => EffectItem::Nullifier {
                segment: logical,
                nullifier: e.claimed_nullifiers[i],
                address: addr,
            },
            TranscriptItemKind::ClaimedShieldedReceives => EffectItem::Commitment {
                segment: logical,
                commitment: e.claimed_shielded_receives[i],
                address: addr,
            },
            TranscriptItemKind::ClaimedShieldedSpends => EffectItem::SegmentCommitment {
                segment: logical,
                commitment: e.claimed_shielded_spends[i],
            },
            TranscriptItemKind::ClaimedContractCalls => {
                let c = e.claimed_contract_calls[i];
                EffectItem::Call { segment: physical, address: c.address, ep_hash: c.ep_hash, commitment: c.commitment }
            },
            TranscriptItemKind::ClaimedUnshieldedSpends => {
                let c = e.claimed_unshielded_spends[i];
                EffectItem::UnshieldedSpend {
                    segment: physical,
                    guaranteed: logical == 0,
                    token: c.token,
                    recipient: c.recipient,
                    value: c.value,
                }
            },
            TranscriptItemKind::UnshieldedInputs => {
                let c = e.unshielded_inputs[i];
                EffectItem::UnshieldedSpend {
                    segment: physical,
                    guaranteed: logical == 0,
                    token: c.0,
                    recipient: PublicAddress::Contract(addr),
                    value: c.1,
                }
            },
        };
        assert(item == items[i as int]);
        out.push(item);
        assert(items.take(i as int + 1) =~= items.take(i as int).push(items[i as int]));
        i = i + 1;
    }
    assert(items.take(n as int) =~= items);
}

/// Appends to `out` the items of one kind from both transcripts of a call.
fn push_call_items(out: &mut Vec<EffectItem>, kind: TranscriptItemKind, segment: u16, c: &ContractCall)
    ensures
        final(out)@ == old(out)@ + call_items(kind, segment, *c),
{
    let ghost start = out@;
    match &c.guaranteed_transcript {
        Some(g) => push_effect_items(out, kind, segment, 0, g, c.address),
        None => {},
    }
    let ghost mid = out@;
    match &c.fallible_transcript {
        Some(f) => push_effect_items(out, kind, segment, segment, f, c.address),
        None => {},
    }
    assert(out@ =~= start + call_items(kind, segment, *c));
}

/// Collects the items of one kind from all transcripts of a transaction.
pub fn collect_transcript_items(tx: &StandardTransaction, kind: TranscriptItemKind) -> (r: Vec<EffectItem>)
    ensures
        r@ == transcript_items(kind, *tx),
{
    let ghost fi = |si: (u16, Intent)| intent_items(kind, si);
    let mut out: Vec<EffectItem> = Vec::new();
    let mut i: usize = 0;
    while i < tx.intents.len()
        invariant
            0 <= i <= tx.intents@.len(),
            fi == (|si: (u16, Intent)| intent_items(kind, si)),
            out@ == flat_map(tx.intents@.take(i as int), fi),
        decreases tx.intents@.len() - i,
    {
        let seg = tx.intents[i].0;
        let calls = &tx.intents[i].1.calls;
        let ghost fc = |c: ContractCall| call_items(kind, seg, c);
        let ghost before = out@;
        let mut k: usize = 0;
        while k < calls.len()
            invariant
                0 <= k <= calls@.len(),
                fc == (|c: ContractCall| call_items(kind, seg, c)),
                out@ == before + flat_map(calls@.take(k as int), fc),
            decreases calls@.len() - k,
        {
            push_call_items(&mut out, kind, seg, &calls[k]);
            proof {
                lemma_flat_map_take(calls@, fc, k as int);
            }
            k = k + 1;
        }
        proof {
            lemma_flat_map_full(calls@, fc);
            assert(tx.intents@[i as int].1.calls@ == calls@);
            assert(fi(tx.intents@[i as int]) == flat_map(calls@, fc));
            lemma_flat_map_take(tx.intents@, fi, i as int);
        }
        i = i + 1;
    }
    proof {
        lemma_flat_map_full(tx.intents@, fi);
    }
    out
}

/// Appends to `out` the items of one kind that a shielded offer contributes.
fn push_offer_items(out: &mut Vec<EffectItem>, kind: OfferItemKind, segment: u16, o: &ZswapOffer)
    ensures
        final(out)@ == old(out)@ + offer_items(kind, segment, *o),
{
    let ghost start = out@;
    let ghost fi = |i: crate::intent::ZswapInput| input_item(kind, segment, i);
    let ghost fo = |x: crate::intent::ZswapOutput| output_item(kind, segment, x);
    let ghost ft = |t: crate::intent::ZswapTransient| transient_item(kind, segment, t);
    let mut i: usize = 0;
    while i < o.inputs.len()
        invariant
            0 <= i <= o.inputs@.len(),
            fi == (|i: crate::intent::ZswapInput| input_item(kind, segment, i)),
            out@ == start + flat_map(o.inputs@.take(i as int), fi),
        decreases o.inputs@.len() - i,
    {
        let x = o.inputs[i];
        match (kind, x.contract_address) {
            (OfferItemKind::ContractNullifiers, Some(a)) => {
                out.push(EffectItem::Nullifier { segment, nullifier: x.nullifier, address: a });
            },
            _ => {},
        }
        proof {
            lemma_flat_map_take(o.inputs@, fi, i as int);
            assert(out@ =~= start + flat_map(o.inputs@.take(i as int + 1), fi));
        }
        i = i + 1;
    }
    proof {
        lemma_flat_map_full(o.inputs@, fi);
    }
    let ghost mid1 = out@;
    let mut k: usize = 0;
    while k < o.outputs.len()
        invariant
            0 <= k <= o.outputs@.len(),
            fo == (|x: crate::intent::ZswapOutput| output_item(kind, segment, x)),
            out@ == mid1 + flat_map(o.outputs@.take(k as int), fo),
        decreases o.outputs@.len() - k,
    {
        let x = o.outputs[k];
        match (kind, x.contract_address) {
            (OfferItemKind::ContractCommitments, Some(a)) => {
                out.push(EffectItem::Commitment { segment, commitment: x.coin_com, address: a });
            },
            (OfferItemKind::AllCommitments, _) => {
                out.push(EffectItem::SegmentCommitment { segment, commitment: x.coin_com });
            },
            _ => {},
        }
        proof {
            lemma_flat_map_take(o.outputs@, fo, k as int);
            assert(out@ =~= mid1 + flat_map(o.outputs@.take(k as int + 1), fo));
        }
        k = k + 1;
    }
    proof {
        lemma_flat_map_full(o.outputs@, fo);
    }
    let ghost mid2 = out@;
    let mut j: usize = 0;
    while j < o.transient.len()
        invariant
            0 <= j <= o.transient@.len(),
            ft == (|t: crate::intent::ZswapTransient| transient_item(kind, segment, t)),
            out@ == mid2 + flat_map(o.transient@.take(j as int), ft),
        decreases o.transient@.len() - j,
    {
        let x = o.transient[j];
        match (kind, x.contract_address) {
            (OfferItemKind::ContractNullifiers, Some(a)) => {
                out.push(EffectItem::Nullifier { segment, nullifier: x.nullifier, address: a });
            },
            (OfferItemKind::ContractCommitments, Some(a)) => {
                out.push(EffectItem::Commitment { segment, commitment: x.coin_com, address: a });
            },
            (OfferItemKind::AllCommitments, _) => {
                out.push(EffectItem::SegmentCommitment { segment, commitment: x.coin_com });
            },
            _ => {},
        }
        proof {
            lemma_flat_map_take(o.transient@, ft, j as int);
            assert(out@ =~= mid2 + flat_map(o.transient@.take(j as int + 1), ft));
        }
        j = j + 1;
    }
    proof {
        lemma_flat_map_full(o.transient@, ft);
        assert(out@ =~= start + offer_items(kind, segment, *o));
    }
}

/// Collects the items of one kind from the shielded offers of a
/// transaction.
pub fn collect_offer_items(tx: &StandardTransaction, kind: OfferItemKind) -> (r: Vec<EffectItem>)
    requires
        tx.wf(),
    ensures
        r@ == all_offer_items(kind, *tx),
{
    let mut out: Vec<EffectItem> = Vec::new();
    match &tx.guaranteed_coins {
        Some(g) => {
            let zero_keyed = tx.fallible_coins.len() > 0 && tx.fallible_coins[0].0 == 0;
            proof {
                if has_segment(tx.fallible_coins@, 0) {
                    let w = choose|w: int| 0 <= w < tx.fallible_coins@.len() && #[trigger] tx.fallible_coins@[w].0 == 0;
                    if w > 0 {
                        assert(tx.fallible_coins@[0].0 < tx.fallible_coins@[w].0);
                    }
                }
                if zero_keyed {
                    assert(tx.fallible_coins@[0].0 == 0);
                }
            }
            if !zero_keyed {
                push_offer_items(&mut out, kind, 0, g);
            }
        },
        None => {},
    }
    let ghost start = out@;
    let ghost f = |so: (u16, ZswapOffer)| offer_items(kind, so.0, so.1);
    let mut i: usize = 0;
    while i < tx.fallible_coins.len()
        invariant
            0 <= i <= tx.fallible_coins@.len(),
            f == (|so: (u16, ZswapOffer)| offer_items(kind, so.0, so.1)),
            out@ == start + flat_map(tx.fallible_coins@.take(i as int), f),
        decreases tx.fallible_coins@.len() - i,
    {
        push_offer_items(&mut out, kind, tx.fallible_coins[i].0, &tx.fallible_coins[i].1);
        proof {
            lemma_flat_map_take(tx.fallible_coins@, f, i as int);
        }
        i = i + 1;
    }
    proof {
        lemma_flat_map_full(tx.fallible_coins@, f);
    }
    out
}

/// Collects the calls of a transaction, each in its intent's segment.
pub fn collect_real_calls(tx: &StandardTransaction) -> (r: Vec<EffectItem>)
    ensures
        r@ == real_calls(*tx),
{
    let ghost f = |si: (u16, Intent)| intent_calls(si);
    let mut out: Vec<EffectItem> = Vec::new();
    let mut i: usize = 0;
    while i < tx.intents.len()
        invariant
            0 <= i <= tx.intents@.len(),
            f == (|si: (u16, Intent)| intent_calls(si)),
            out@ == flat_map(tx.intents@.take(i as int), f),
        decreases tx.intents@.len() - i,
    {
        let seg = tx.intents[i].0;
        let calls = &tx.intents[i].1.calls;
        let ghost before = out@;
        let ghost items = intent_calls(tx.intents@[i as int]);
        let mut k: usize = 0;
        while k < calls.len()
            invariant
                0 <= k <= calls@.len(),
                items.len() == calls@.len(),
                items == intent_calls(tx.intents@[i as int]),
                calls@ == tx.intents@[i as int].1.calls@,
                seg == tx.intents@[i as int].0,
                out@ == before + items.take(k as int),
            decreases calls@.len() - k,
        {
            let c = &calls[k];
            out.push(EffectItem::Call {
                segment: seg,
                address: c.address,
                ep_hash: c.ep_hash,
                commitment: c.communication_commitment,
            });
            assert(items.take(k as int + 1) =~= items.take(k as int).push(items[k as int]));
            k = k + 1;
        }
        proof {
            assert(items.take(calls@.len() as int) =~= items);
            lemma_flat_map_take(tx.intents@, f, i as int);
        }
        i = i + 1;
    }
    proof {
        lemma_flat_map_full(tx.intents@, f);
    }
    out
}

/// Appends the outputs of an optional unshielded offer, as transfers.
fn push_offer_outputs(out: &mut Vec<EffectItem>, segment: u16, guaranteed: bool, offer: &Option<UnshieldedOffer>)
    ensures
        final(out)@ == old(out)@ + offer_outputs(segment, guaranteed, *offer),
{
    match offer {
        Some(o) => {
            let ghost start = out@;
            let ghost items = offer_outputs(segment, guaranteed, *offer);
            let mut k: usize = 0;
            while k < o.outputs.len()
                invariant
                    0 <= k <= o.outputs@.len(),
                    items.len() == o.outputs@.len(),
                    items == offer_outputs(segment, guaranteed, *offer),
                    *offer == Some(*o),
                    out@ == start + items.take(k as int),
                decreases o.outputs@.len() - k,
            {
                let u = o.outputs[k];
                out.push(EffectItem::UnshieldedSpend {
                    segment,
                    guaranteed,
                    token: TokenType::Unshielded(u.type_),
                    recipient: PublicAddress::User(u.owner),
                    value: u.value,
                });
                assert(items.take(k as int + 1) =~= items.take(k as int).push(items[k as int]));
                k = k + 1;
            }
            assert(items.take(o.outputs@.len() as int) =~= items);
        },
        None => {
            assert(out@ =~= out@ + offer_outputs(segment, guaranteed, *offer));
        },
    }
}

/// Collects the unshielded transfers that really happen in a transaction.
pub fn collect_real_unshielded_spends(tx: &StandardTransaction) -> (r: Vec<EffectItem>)
    ensures
        r@ == real_unshielded_spends(*tx),
{
    let mut out = collect_transcript_items(tx, TranscriptItemKind::UnshieldedInputs);
    let ghost start = out@;
    let ghost f = |si: (u16, Intent)| intent_outputs(si);
    let mut i: usize = 0;
    while i < tx.intents.len()
        invariant
            0 <= i <= tx.intents@.len(),
            f == (|si: (u16, Intent)| intent_outputs(si)),
            out@ == start + flat_map(tx.intents@.take(i as int), f),
        decreases tx.intents@.len() - i,
    {
        let seg = tx.intents[i].0;
        push_offer_outputs(&mut out, seg, true, &tx.intents[i].1.guaranteed_unshielded_offer);
        push_offer_outputs(&mut out, seg, false, &tx.intents[i].1.fallible_unshielded_offer);
        proof {
            lemma_flat_map_take(tx.intents@, f, i as int);
            assert(out@ =~= start + flat_map(tx.intents@.take(i as int + 1), f));
        }
        i = i + 1;
    }
    proof {
        lemma_flat_map_full(tx.intents@, f);
    }
    out
}

/// Every contract-owned nullifier is claimed, once, by a transcript of the
/// same contract in the same segment, and nothing else is claimed.
pub open spec fn nullifiers_match(tx: StandardTransaction) -> bool {
    all_offer_items(OfferItemKind::ContractNullifiers, tx).to_multiset()
        == transcript_items(TranscriptItemKind::ClaimedNullifiers, tx).to_multiset()
}

/// Every commitment a contract receives is claimed, once, by a transcript
/// of the same contract in the same segment, and nothing else is claimed.
pub open spec fn receives_match(tx: StandardTransaction) -> bool {
    all_offer_items(OfferItemKind::ContractCommitments, tx).to_multiset()
        == transcript_items(TranscriptItemKind::ClaimedShieldedReceives, tx).to_multiset()
}

/// No shielded spend is claimed twice in a segment.
pub open spec fn spends_unique(tx: StandardTransaction) -> bool {
    no_repeats(transcript_items(TranscriptItemKind::ClaimedShieldedSpends, tx))
}

/// Every claimed shielded spend is a commitment of the offer of its segment.
pub open spec fn spends_exist(tx: StandardTransaction) -> bool {
    transcript_items(TranscriptItemKind::ClaimedShieldedSpends, tx).to_multiset().subset_of(
        all_offer_items(OfferItemKind::AllCommitments, tx).to_multiset(),
    )
}

/// No call is claimed twice in an intent.
pub open spec fn calls_unique(tx: StandardTransaction) -> bool {
    no_repeats(transcript_items(TranscriptItemKind::ClaimedContractCalls, tx))
}

/// Every claimed call is made in the same intent.
pub open spec fn calls_exist(tx: StandardTransaction) -> bool {
    transcript_items(TranscriptItemKind::ClaimedContractCalls, tx).to_multiset().subset_of(real_calls(tx).to_multiset())
}

/// Every claimed unshielded spend really happens.
pub open spec fn unshielded_spends_backed(tx: StandardTransaction) -> bool {
    transcript_items(TranscriptItemKind::ClaimedUnshieldedSpends, tx).to_multiset().subset_of(
        real_unshielded_spends(tx).to_multiset(),
    )
}

/// Lists the repeated values, and tells whether there are none.
fn find_repeats(v: &Vec<EffectItem>) -> (r: (Vec<(EffectItem, usize)>, bool))
    ensures
        lists_repeated(v@, r.0@),
        r.1 == no_repeats(v@),
{
    let d = repeated(v);
    proof {
        if d@.len() > 0 {
            assert(d@[0].1 > 1 && d@[0].1 == v@.to_multiset().count(d@[0].0));
        } else {
            assert forall|x: EffectItem| v@.to_multiset().count(x) <= 1 by {
                if v@.to_multiset().count(x) > 1 {
                    let i = choose|i: int| 0 <= i < d@.len() && #[trigger] d@[i].0 == x;
                }
            }
        }
    }
    let none = d.len() == 0;
    (d, none)
}

impl StandardTransaction {
    /// Checks that the effects the transcripts claim are those the
    /// transaction has, in this order: contract nullifiers, contract
    /// commitments, uniqueness and existence of claimed shielded spends,
    /// uniqueness and existence of claimed calls, and backing of claimed
    /// unshielded spends. The first check that fails gives the error.
    pub fn effects_check(&self) -> (res: Result<(), EffectsCheckError>)
        requires
            self.wf(),
        ensures
            res is Ok <==> (nullifiers_match(*self) && receives_match(*self) && spends_unique(*self)
                && spends_exist(*self) && calls_unique(*self) && calls_exist(*self) && unshielded_spends_backed(*self)),
            !nullifiers_match(*self) ==> (res matches Err(EffectsCheckError::NullifiersNEClaimedNullifiers { nullifiers, claimed_nullifiers })
                && lists_values(all_offer_items(OfferItemKind::ContractNullifiers, *self), nullifiers@)
                && lists_values(transcript_items(TranscriptItemKind::ClaimedNullifiers, *self), claimed_nullifiers@)),
            nullifiers_match(*self) && !receives_match(*self) ==> (res matches Err(EffectsCheckError::CommitmentsNEClaimedShieldedReceives { commitments, claimed_shielded_receives })
                && lists_values(all_offer_items(OfferItemKind::ContractCommitments, *self), commitments@)
                && lists_values(transcript_items(TranscriptItemKind::ClaimedShieldedReceives, *self), claimed_shielded_receives@)),
            nullifiers_match(*self) && receives_match(*self) && !spends_unique(*self) ==> (res matches Err(EffectsCheckError::ClaimedUnshieldedSpendsUniquenessFailure(d))
                && lists_repeated(transcript_items(TranscriptItemKind::ClaimedShieldedSpends, *self), d@)),
            nullifiers_match(*self) && receives_match(*self) && spends_unique(*self) && !spends_exist(*self)
                ==> (res matches Err(EffectsCheckError::AllCommitmentsSubsetCheckFailure(f))
                && lists_values(transcript_items(TranscriptItemKind::ClaimedShieldedSpends, *self), f.subset@)
                && lists_values(all_offer_items(OfferItemKind::AllCommitments, *self), f.superset@)),
            nullifiers_match(*self) && receives_match(*self) && spends_unique(*self) && spends_exist(*self) && !calls_unique(*self)
                ==> (res matches Err(EffectsCheckError::ClaimedCallsUniquenessFailure(d))
                && lists_repeated(transcript_items(TranscriptItemKind::ClaimedContractCalls, *self), d@)),
            nullifiers_match(*self) && receives_match(*self) && spends_unique(*self) && spends_exist(*self) && calls_unique(*self)
                && !calls_exist(*self) ==> (res matches Err(EffectsCheckError::RealCallsSubsetCheckFailure(f))
                && lists_values(transcript_items(TranscriptItemKind::ClaimedContractCalls, *self), f.subset@)
                && lists_values(real_calls(*self), f.superset@)),
            nullifiers_match(*self) && receives_match(*self) && spends_unique(*self) && spends_exist(*self) && calls_unique(*self)
                && calls_exist(*self) && !unshielded_spends_backed(*self) ==> (res matches Err(EffectsCheckError::RealUnshieldedSpendsSubsetCheckFailure(f))
                && lists_values(transcript_items(TranscriptItemKind::ClaimedUnshieldedSpends, *self), f.subset@)
                && lists_values(real_unshielded_spends(*self), f.superset@)),
    {
        let nullifiers = collect_offer_items(self, OfferItemKind::ContractNullifiers);
        let claimed_nullifiers = collect_transcript_items(self, TranscriptItemKind::ClaimedNullifiers);
        if !same_multiset(&nullifiers, &claimed_nullifiers) {
            return Err(EffectsCheckError::NullifiersNEClaimedNullifiers {
                nullifiers: distinct_values(&nullifiers),
                claimed_nullifiers: distinct_values(&claimed_nullifiers),
            });
        }
        let commitments = collect_offer_items(self, OfferItemKind::ContractCommitments);
        let claimed_receives = collect_transcript_items(self, TranscriptItemKind::ClaimedShieldedReceives);
        if !same_multiset(&commitments, &claimed_receives) {
            return Err(EffectsCheckError::CommitmentsNEClaimedShieldedReceives {
                commitments: distinct_values(&commitments),
                claimed_shielded_receives: distinct_values(&claimed_receives),
            });
        }
        let claimed_spends = collect_transcript_items(self, TranscriptItemKind::ClaimedShieldedSpends);
        let (duplicate_spends, spends_ok) = find_repeats(&claimed_spends);
        if !spends_ok {
            return Err(EffectsCheckError::ClaimedUnshieldedSpendsUniquenessFailure(duplicate_spends));
        }
        let all_commitments = collect_offer_items(self, OfferItemKind::AllCommitments);
        if !is_sub_multiset(&claimed_spends, &all_commitments) {
            return Err(EffectsCheckError::AllCommitmentsSubsetCheckFailure(SubsetCheckFailure {
                subset: distinct_values(&claimed_spends),
                superset: distinct_values(&all_commitments),
            }));
        }
        let claimed_calls = collect_transcript_items(self, TranscriptItemKind::ClaimedContractCalls);
        let (duplicate_calls, calls_ok) = find_repeats(&claimed_calls);
        if !calls_ok {
            return Err(EffectsCheckError::ClaimedCallsUniquenessFailure(duplicate_calls));
        }
        let calls = collect_real_calls(self);
        if !is_sub_multiset(&claimed_calls, &calls) {
            return Err(EffectsCheckError::RealCallsSubsetCheckFailure(SubsetCheckFailure {
                subset: distinct_values(&claimed_calls),
                superset: distinct_values(&calls),
            }));
        }
        let claimed_unshielded = collect_transcript_items(self, TranscriptItemKind::ClaimedUnshieldedSpends);
        let real_unshielded = collect_real_unshielded_spends(self);
        if !is_sub_multiset(&claimed_unshielded, &real_unshielded) {
            return Err(EffectsCheckError::RealUnshieldedSpendsSubsetCheckFailure(SubsetCheckFailure {
                subset: distinct_values(&claimed_unshielded),
                superset: distinct_values(&real_unshielded),
            }));
        }
        Ok(())
    }
}

proof fn lemma_flat_map_has<A, B>(s: Seq<A>, f: spec_fn(A) -> Seq<B>, i: int, x: B)
    requires
        0 <= i < s.len(),
        f(s[i]).contains(x),
    ensures
        flat_map(s, f).contains(x),
    decreases s.len(),
{
    let p = flat_map(s.drop_last(), f);
    let fi = f(s[i]);
    let j = choose|j: int| 0 <= j < fi.len() && #[trigger] fi[j] == x;
    if i == s.len() - 1 {
        assert((p + f(s.last()))[p.len() + j] == x);
    } else {
        assert(s.drop_last()[i] == s[i]);
        lemma_flat_map_has(s.drop_last(), f, i, x);
        let k = choose|k: int| 0 <= k < p.len() && #[trigger] p[k] == x;
        assert((p + f(s.last()))[k] == x);
    }
}

/// Every call of every intent is a real call of the transaction, in the
/// segment of the intent that holds it, with its own address, entry point
/// and commitment.
pub proof fn lemma_calls_in_their_segment(tx: StandardTransaction, k: int, j: int)
    requires
        0 <= k < tx.intents@.len(),
        0 <= j < tx.intents@[k].1.calls@.len(),
    ensures
        ({
            let si = tx.intents@[k];
            let c = si.1.calls@[j];
            real_calls(tx).contains(EffectItem::Call { segment: si.0, address: c.address, ep_hash: c.ep_hash, commitment: c.communication_commitment })
        }),
{
    let si = tx.intents@[k];
    let c = si.1.calls@[j];
    let x = EffectItem::Call { segment: si.0, address: c.address, ep_hash: c.ep_hash, commitment: c.communication_commitment };
    assert(intent_calls(si)[j] == x);
    lemma_flat_map_has(tx.intents@, |si: (u16, Intent)| intent_calls(si), k, x);
}

/// Every output of an intent's unshielded offers is a real unshielded
/// transfer to its owner, in the intent's segment, marked guaranteed
/// exactly when it comes from the guaranteed offer.
pub proof fn lemma_outputs_are_real_transfers(tx: StandardTransaction, k: int, j: int, guaranteed: bool)
    requires
        0 <= k < tx.intents@.len(),
        ({
            let o = if guaranteed { tx.intents@[k].1.guaranteed_unshielded_offer } else { tx.intents@[k].1.fallible_unshielded_offer };
            o matches Some(off) && 0 <= j < off.outputs@.len()
        }),
    ensures
        ({
            let si = tx.intents@[k];
            let off = (if guaranteed { si.1.guaranteed_unshielded_offer } else { si.1.fallible_unshielded_offer })->Some_0;
            let u = off.outputs@[j];
            real_unshielded_spends(tx).contains(EffectItem::UnshieldedSpend {
                segment: si.0,
                guaranteed,
                token: TokenType::Unshielded(u.type_),
                recipient: PublicAddress::User(u.owner),
                value: u.value,
            })
        }),
{
    let si = tx.intents@[k];
    let off = (if guaranteed { si.1.guaranteed_unshielded_offer } else { si.1.fallible_unshielded_offer })->Some_0;
    let u = off.outputs@[j];
    let x = EffectItem::UnshieldedSpend {
        segment: si.0,
        guaranteed,
        token: TokenType::Unshielded(u.type_),
        recipient: PublicAddress::User(u.owner),
        value: u.value,
    };
    let g = offer_outputs(si.0, true, si.1.guaranteed_unshielded_offer);
    let f = offer_outputs(si.0, false, si.1.fallible_unshielded_offer);
    if guaranteed {
        assert(g[j] == x);
        assert((g + f)[j] == x);
    } else {
        assert(f[j] == x);
        assert((g + f)[g.len() + j] == x);
    }
    assert(intent_outputs(si).contains(x));
    lemma_flat_map_has(tx.intents@, |si: (u16, Intent)| intent_outputs(si), k, x);
    let t = transcript_items(TranscriptItemKind::UnshieldedInputs, tx);
    let r = flat_map(tx.intents@, |si: (u16, Intent)| intent_outputs(si));
    let m = choose|m: int| 0 <= m < r.len() && #[trigger] r[m] == x;
    assert((t + r)[t.len() + m] == x);
}

} // verus!
