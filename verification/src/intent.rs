//! The parts of a standard transaction that its structural checks read: its
//! intents with their contract calls, unshielded offers and DUST actions,
//! and its shielded offers, each held as plain values.
use vstd::prelude::*;
use crate::hash::{KeyEq, HashOutput, ContractAddress, UserAddress, TokenType, ShieldedTokenType, UnshieldedTokenType};
use crate::utxo::{UnshieldedOffer, UtxoSpend, UtxoOutput};
use crate::keyed::copy_vec;
use crate::counting::{flat_map, lemma_flat_map_take, lemma_flat_map_full, extend_with};
use crate::ledger::ClaimRewardsTransaction;
use crate::dust::DustPublicKey;

verus! {

/// A contract call that a transcript claims to make: its sequence number, and
/// the address, entry point hash and communication commitment of the callee.
#[derive(Debug, Clone, Copy)]
pub struct ClaimedContractCall {
    pub seq: u64,
    pub address: ContractAddress,
    pub ep_hash: HashOutput,
    pub commitment: HashOutput,
}

/// The recipient of an unshielded spend: a contract or a user.
#[derive(Debug, Clone, Copy)]
pub enum PublicAddress {
    Contract(ContractAddress),
    User(UserAddress),
}

impl KeyEq for PublicAddress {
    fn key_eq(&self, other: &Self) -> (r: bool) {
        match (self, other) {
            (PublicAddress::Contract(a), PublicAddress::Contract(b)) => a.key_eq(b),
            (PublicAddress::User(a), PublicAddress::User(b)) => a.key_eq(b),
            _ => false,
        }
    }
}

/// An unshielded spend that a transcript claims: the token, the recipient
/// and the amount.
#[derive(Debug, Clone, Copy)]
pub struct ClaimedUnshieldedSpend {
    pub token: TokenType,
    pub recipient: PublicAddress,
    pub value: u128,
}

/// What a contract transcript declares it does. The mints are given by the
/// token types that the calling contract derives from their domain
/// separators.
#[derive(Debug, Clone)]
pub struct Effects {
    pub claimed_nullifiers: Vec<HashOutput>,
    pub claimed_shielded_receives: Vec<HashOutput>,
    pub claimed_shielded_spends: Vec<HashOutput>,
    pub claimed_contract_calls: Vec<ClaimedContractCall>,
    pub shielded_mints: Vec<(ShieldedTokenType, u64)>,
    pub unshielded_mints: Vec<(UnshieldedTokenType, u64)>,
    pub unshielded_inputs: Vec<(TokenType, u128)>,
    pub unshielded_outputs: Vec<(TokenType, u128)>,
    pub claimed_unshielded_spends: Vec<ClaimedUnshieldedSpend>,
}

/// A contract call: the contract, the hash of the entry point, the
/// communication commitment, and the effects of its guaranteed and fallible
/// transcripts, where present.
#[derive(Debug, Clone)]
pub struct ContractCall {
    pub address: ContractAddress,
    pub ep_hash: HashOutput,
    pub communication_commitment: HashOutput,
    pub guaranteed_transcript: Option<Effects>,
    pub fallible_transcript: Option<Effects>,
}

/// A spend of DUST: the fee it pays and the nullifier and commitment it
/// carries.
#[derive(Debug, Clone, Copy)]
pub struct DustSpend {
    pub v_fee: u128,
    pub old_nullifier: HashOutput,
    pub new_commitment: HashOutput,
}

/// A registration of a DUST address for a NIGHT key, with how much of the
/// DUST generated it allows to go to fees.
#[derive(Debug, Clone, Copy)]
pub struct DustRegistration {
    pub night_key: UserAddress,
    pub dust_address: Option<DustPublicKey>,
    pub allow_fee_payment: u128,
}

/// The DUST actions of an intent.
#[derive(Debug, Clone)]
pub struct DustActions {
    pub spends: Vec<DustSpend>,
    pub registrations: Vec<DustRegistration>,
    pub ctime: u64,
}

/// An intent: its unshielded offers, its contract calls in order, its DUST
/// actions and its time to live.
#[derive(Debug, Clone)]
pub struct Intent {
    pub guaranteed_unshielded_offer: Option<UnshieldedOffer>,
    pub fallible_unshielded_offer: Option<UnshieldedOffer>,
    pub calls: Vec<ContractCall>,
    pub dust_actions: Option<DustActions>,
    pub ttl: u64,
}

/// A shielded input; `contract_address` is set where a contract owns the
/// coin.
#[derive(Debug, Clone, Copy)]
pub struct ZswapInput {
    pub nullifier: HashOutput,
    pub contract_address: Option<ContractAddress>,
}

impl KeyEq for ZswapInput {
    fn key_eq(&self, other: &Self) -> (r: bool) {
        self.nullifier.key_eq(&other.nullifier) && match (&self.contract_address, &other.contract_address) {
            (Some(a), Some(b)) => a.key_eq(b),
            (None, None) => true,
            _ => false,
        }
    }
}

/// A shielded output; `contract_address` is set where a contract receives
/// the coin.
#[derive(Debug, Clone, Copy)]
pub struct ZswapOutput {
    pub coin_com: HashOutput,
    pub contract_address: Option<ContractAddress>,
}

impl KeyEq for ZswapOutput {
    fn key_eq(&self, other: &Self) -> (r: bool) {
        self.coin_com.key_eq(&other.coin_com) && match (&self.contract_address, &other.contract_address) {
            (Some(a), Some(b)) => a.key_eq(b),
            (None, None) => true,
            _ => false,
        }
    }
}

/// A coin created and spent within one offer.
#[derive(Debug, Clone, Copy)]
pub struct ZswapTransient {
    pub nullifier: HashOutput,
    pub coin_com: HashOutput,
    pub contract_address: Option<ContractAddress>,
}

/// The net value that a shielded offer moves of one token type.
#[derive(Debug, Clone, Copy)]
pub struct Delta {
    pub token_type: ShieldedTokenType,
    pub value: i128,
}

/// A shielded offer.
#[derive(Debug, Clone)]
pub struct ZswapOffer {
    pub inputs: Vec<ZswapInput>,
    pub outputs: Vec<ZswapOutput>,
    pub transient: Vec<ZswapTransient>,
    pub deltas: Vec<Delta>,
}

/// Segment numbers in strictly increasing order: the keys of a map, in the
/// order in which the map is walked when sorted.
pub open spec fn segments_increasing<T>(s: Seq<(u16, T)>) -> bool {
    forall|i: int, j: int| 0 <= i < j < s.len() ==> s[i].0 < s[j].0
}

/// A standard transaction: its intents and fallible shielded offers, each
/// keyed by segment, and its guaranteed shielded offer.
#[derive(Debug, Clone)]
pub struct StandardTransaction {
    pub network_id: String,
    pub intents: Vec<(u16, Intent)>,
    pub guaranteed_coins: Option<ZswapOffer>,
    pub fallible_coins: Vec<(u16, ZswapOffer)>,
}

impl StandardTransaction {
    /// Intents and fallible offers are keyed by distinct segments, held in
    /// increasing order.
    pub open spec fn wf(&self) -> bool {
        &&& segments_increasing(self.intents@)
        &&& segments_increasing(self.fallible_coins@)
    }
}

/// The inputs of an optional unshielded offer, none where it is absent.
pub open spec fn offer_inputs(o: Option<UnshieldedOffer>) -> Seq<UtxoSpend> {
    match o {
        Some(o) => o.inputs@,
        None => Seq::empty(),
    }
}

/// The outputs of an optional unshielded offer, none where it is absent.
pub open spec fn offer_outputs(o: Option<UnshieldedOffer>) -> Seq<UtxoOutput> {
    match o {
        Some(o) => o.outputs@,
        None => Seq::empty(),
    }
}

impl Intent {
    /// The inputs of the guaranteed unshielded offer.
    pub fn guaranteed_inputs(&self) -> (r: Vec<UtxoSpend>)
        ensures
            r@ == offer_inputs(self.guaranteed_unshielded_offer),
    {
        match &self.guaranteed_unshielded_offer {
            Some(o) => copy_vec(&o.inputs),
            None => Vec::new(),
        }
    }

    /// The inputs of the fallible unshielded offer.
    pub fn fallible_inputs(&self) -> (r: Vec<UtxoSpend>)
        ensures
            r@ == offer_inputs(self.fallible_unshielded_offer),
    {
        match &self.fallible_unshielded_offer {
            Some(o) => copy_vec(&o.inputs),
            None => Vec::new(),
        }
    }

    /// The outputs of the guaranteed unshielded offer.
    pub fn guaranteed_outputs(&self) -> (r: Vec<UtxoOutput>)
        ensures
            r@ == offer_outputs(self.guaranteed_unshielded_offer),
    {
        match &self.guaranteed_unshielded_offer {
            Some(o) => copy_vec(&o.outputs),
            None => Vec::new(),
        }
    }

    /// The outputs of the fallible unshielded offer.
    pub fn fallible_outputs(&self) -> (r: Vec<UtxoOutput>)
        ensures
            r@ == offer_outputs(self.fallible_unshielded_offer),
    {
        match &self.fallible_unshielded_offer {
            Some(o) => copy_vec(&o.outputs),
            None => Vec::new(),
        }
    }
}

/// Some entry of `s` is keyed by `seg`.
pub open spec fn keyed_by<T>(s: Seq<(u16, T)>, seg: u16) -> bool {
    exists|i: int| 0 <= i < s.len() && #[trigger] s[i].0 == seg
}

/// The segments of a transaction: zero (the guaranteed segment), those of
/// its intents and those of its fallible offers.
pub open spec fn has_segment_of(tx: StandardTransaction, seg: u16) -> bool {
    seg == 0 || keyed_by(tx.intents@, seg) || keyed_by(tx.fallible_coins@, seg)
}

/// `r` is strictly increasing.
pub open spec fn strictly_increasing(r: Seq<u16>) -> bool {
    forall|i: int, j: int| 0 <= i < j < r.len() ==> r[i] < r[j]
}

/// Adds `x` to the strictly increasing `v`, where it is not there yet.
fn insert_sorted_unique(v: &mut Vec<u16>, x: u16)
    requires
        strictly_increasing(old(v)@),
    ensures
        strictly_increasing(final(v)@),
        forall|y: u16| final(v)@.contains(y) <==> (old(v)@.contains(y) || y == x),
{
    let mut p: usize = 0;
    while p < v.len() && v[p] < x
        invariant
            0 <= p <= v@.len(),
            v@ == old(v)@,
            strictly_increasing(v@),
            forall|k: int| 0 <= k < p ==> v@[k] < x,
        decreases v@.len() - p,
    {
        p = p + 1;
    }
    if p < v.len() && v[p] == x {
        assert(v@[p as int] == x);
        return;
    }
    let ghost old_v = v@;
    assert(old_v == old(v)@);
    v.insert(p, x);
    proof {
        assert forall|y: u16| v@.contains(y) <==> (old(v)@.contains(y) || y == x) by {
            if v@.contains(y) {
                let k = choose|k: int| 0 <= k < v@.len() && v@[k] == y;
                if k < p {
                    assert(old_v[k] == y);
                } else if k > p {
                    assert(old_v[k - 1] == y);
                }
            }
            if old_v.contains(y) {
                let k = choose|k: int| 0 <= k < old_v.len() && old_v[k] == y;
                if k < p {
                    assert(v@[k] == y);
                } else {
                    assert(v@[k + 1] == y);
                }
            }
            if y == x {
                assert(v@[p as int] == x);
            }
        }
    }
}

impl StandardTransaction {
    /// The segments of the transaction, in increasing order, each once.
    pub fn segments(&self) -> (r: Vec<u16>)
        ensures
            strictly_increasing(r@),
            forall|seg: u16| r@.contains(seg) <==> has_segment_of(*self, seg),
    {
        let mut r: Vec<u16> = Vec::new();
        insert_sorted_unique(&mut r, 0);
        let mut i: usize = 0;
        while i < self.intents.len()
            invariant
                0 <= i <= self.intents@.len(),
                strictly_increasing(r@),
                forall|seg: u16| r@.contains(seg) <==> (seg == 0 || exists|k: int| 0 <= k < i && #[trigger] self.intents@[k].0 == seg),
            decreases self.intents@.len() - i,
        {
            insert_sorted_unique(&mut r, self.intents[i].0);
            i = i + 1;
        }
        let mut j: usize = 0;
        while j < self.fallible_coins.len()
            invariant
                0 <= j <= self.fallible_coins@.len(),
                strictly_increasing(r@),
                forall|seg: u16| r@.contains(seg) <==> (seg == 0 || keyed_by(self.intents@, seg)
                    || exists|k: int| 0 <= k < j && #[trigger] self.fallible_coins@[k].0 == seg),
            decreases self.fallible_coins@.len() - j,
        {
            insert_sorted_unique(&mut r, self.fallible_coins[j].0);
            j = j + 1;
        }
        r
    }
}

/// A transaction: a standard one, or a claim of rewards.
#[derive(Debug, Clone)]
pub enum Transaction {
    Standard(StandardTransaction),
    ClaimRewards(ClaimRewardsTransaction),
}

impl Transaction {
    /// The segments of a standard transaction; none for a claim.
    pub fn segments(&self) -> (r: Vec<u16>)
        ensures
            match self {
                Transaction::Standard(stx) => strictly_increasing(r@) && forall|seg: u16| r@.contains(seg) <==> has_segment_of(*stx, seg),
                Transaction::ClaimRewards(_) => r@.len() == 0,
            },
    {
        match self {
            Transaction::Standard(stx) => stx.segments(),
            Transaction::ClaimRewards(_) => Vec::new(),
        }
    }
}

/// The guaranteed shielded offer's part, none where it is absent.
pub open spec fn guaranteed_part<T>(g: Option<ZswapOffer>, part: spec_fn(ZswapOffer) -> Seq<T>) -> Seq<T> {
    match g {
        Some(o) => part(o),
        None => Seq::empty(),
    }
}

/// The fallible shielded offers' parts, in segment order.
pub open spec fn fallible_parts<T>(fc: Seq<(u16, ZswapOffer)>, part: spec_fn(ZswapOffer) -> Seq<T>) -> Seq<T> {
    flat_map(fc, |so: (u16, ZswapOffer)| part(so.1))
}

impl StandardTransaction {
    /// The inputs of the guaranteed shielded offer.
    pub fn guaranteed_inputs(&self) -> (r: Vec<ZswapInput>)
        ensures
            r@ == guaranteed_part(self.guaranteed_coins, |o: ZswapOffer| o.inputs@),
    {
        match &self.guaranteed_coins {
            Some(o) => copy_vec(&o.inputs),
            None => Vec::new(),
        }
    }

    /// The outputs of the guaranteed shielded offer.
    pub fn guaranteed_outputs(&self) -> (r: Vec<ZswapOutput>)
        ensures
            r@ == guaranteed_part(self.guaranteed_coins, |o: ZswapOffer| o.outputs@),
    {
        match &self.guaranteed_coins {
            Some(o) => copy_vec(&o.outputs),
            None => Vec::new(),
        }
    }

    /// The transient coins of the guaranteed shielded offer.
    pub fn guaranteed_transients(&self) -> (r: Vec<ZswapTransient>)
        ensures
            r@ == guaranteed_part(self.guaranteed_coins, |o: ZswapOffer| o.transient@),
    {
        match &self.guaranteed_coins {
            Some(o) => copy_vec(&o.transient),
            None => Vec::new(),
        }
    }

    /// The inputs of the fallible shielded offers, in segment order.
    pub fn fallible_inputs(&self) -> (r: Vec<ZswapInput>)
        ensures
            r@ == fallible_parts(self.fallible_coins@, |o: ZswapOffer| o.inputs@),
    {
        let ghost f = |so: (u16, ZswapOffer)| (|o: ZswapOffer| o.inputs@)(so.1);
        let mut r: Vec<ZswapInput> = Vec::new();
        let mut i: usize = 0;
        while i < self.fallible_coins.len()
            invariant
                0 <= i <= self.fallible_coins@.len(),
                f == (|so: (u16, ZswapOffer)| (|o: ZswapOffer| o.inputs@)(so.1)),
                r@ == flat_map(self.fallible_coins@.take(i as int), f),
            decreases self.fallible_coins@.len() - i,
        {
            extend_with(&mut r, &self.fallible_coins[i].1.inputs);
            proof {
                lemma_flat_map_take(self.fallible_coins@, f, i as int);
            }
            i = i + 1;
        }
        proof {
            lemma_flat_map_full(self.fallible_coins@, f);
        }
        r
    }

    /// The outputs of the fallible shielded offers, in segment order.
    pub fn fallible_outputs(&self) -> (r: Vec<ZswapOutput>)
        ensures
            r@ == fallible_parts(self.fallible_coins@, |o: ZswapOffer| o.outputs@),
    {
        let ghost f = |so: (u16, ZswapOffer)| (|o: ZswapOffer| o.outputs@)(so.1);
        let mut r: Vec<ZswapOutput> = Vec::new();
        let mut i: usize = 0;
        while i < self.fallible_coins.len()
            invariant
                0 <= i <= self.fallible_coins@.len(),
                f == (|so: (u16, ZswapOffer)| (|o: ZswapOffer| o.outputs@)(so.1)),
                r@ == flat_map(self.fallible_coins@.take(i as int), f),
            decreases self.fallible_coins@.len() - i,
        {
            extend_with(&mut r, &self.fallible_coins[i].1.outputs);
            proof {
                lemma_flat_map_take(self.fallible_coins@, f, i as int);
            }
            i = i + 1;
        }
        proof {
            lemma_flat_map_full(self.fallible_coins@, f);
        }
        r
    }

    /// The transient coins of the fallible shielded offers, in segment order.
    pub fn fallible_transients(&self) -> (r: Vec<ZswapTransient>)
        ensures
            r@ == fallible_parts(self.fallible_coins@, |o: ZswapOffer| o.transient@),
    {
        let ghost f = |so: (u16, ZswapOffer)| (|o: ZswapOffer| o.transient@)(so.1);
        let mut r: Vec<ZswapTransient> = Vec::new();
        let mut i: usize = 0;
        while i < self.fallible_coins.len()
            invariant
                0 <= i <= self.fallible_coins@.len(),
                f == (|so: (u16, ZswapOffer)| (|o: ZswapOffer| o.transient@)(so.1)),
                r@ == flat_map(self.fallible_coins@.take(i as int), f),
            decreases self.fallible_coins@.len() - i,
        {
            extend_with(&mut r, &self.fallible_coins[i].1.transient);
            proof {
                lemma_flat_map_take(self.fallible_coins@, f, i as int);
            }
            i = i + 1;
        }
        proof {
            lemma_flat_map_full(self.fallible_coins@, f);
        }
        r
    }

    /// All shielded inputs: the guaranteed offer's, then the fallible ones'.
    pub fn inputs(&self) -> (r: Vec<ZswapInput>)
        ensures
            r@ == guaranteed_part(self.guaranteed_coins, |o: ZswapOffer| o.inputs@) + fallible_parts(
                self.fallible_coins@,
                |o: ZswapOffer| o.inputs@,
            ),
    {
        let mut r = self.guaranteed_inputs();
        let rest = self.fallible_inputs();
        extend_with(&mut r, &rest);
        r
    }

    /// All shielded outputs: the guaranteed offer's, then the fallible ones'.
    pub fn outputs(&self) -> (r: Vec<ZswapOutput>)
        ensures
            r@ == guaranteed_part(self.guaranteed_coins, |o: ZswapOffer| o.outputs@) + fallible_parts(
                self.fallible_coins@,
                |o: ZswapOffer| o.outputs@,
            ),
    {
        let mut r = self.guaranteed_outputs();
        let rest = self.fallible_outputs();
        extend_with(&mut r, &rest);
        r
    }

    /// All transient coins: the guaranteed offer's, then the fallible ones'.
    pub fn transients(&self) -> (r: Vec<ZswapTransient>)
        ensures
            r@ == guaranteed_part(self.guaranteed_coins, |o: ZswapOffer| o.transient@) + fallible_parts(
                self.fallible_coins@,
                |o: ZswapOffer| o.transient@,
            ),
    {
        let mut r = self.guaranteed_transients();
        let rest = self.fallible_transients();
        extend_with(&mut r, &rest);
        r
    }
}

} // verus!
