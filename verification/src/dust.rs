//! DUST: the fee resource that NIGHT generates over time. This module holds
//! the generation parameters, the value of a DUST output at a given time, and
//! the bookkeeping of generation on the ledger (which NIGHT generates DUST
//! for whom, and from when until when).
use vstd::prelude::*;
use crate::hash::{KeyEq, HashOutput, UserAddress, spec_night, night};
use crate::keyed::{KeyMap, copy_vec};
use crate::utxo::{UnshieldedOffer, UtxoSpend, UtxoOutput};
use crate::intent::Intent;

verus! {

/// `a * b`, or `u128::MAX` where the product does not fit.
pub open spec fn spec_sat_mul(a: u128, b: u128) -> u128 {
    if a * b > u128::MAX {
        u128::MAX
    } else {
        (a * b) as u128
    }
}

/// `a + b`, or `u128::MAX` where the sum does not fit.
pub open spec fn spec_sat_add(a: u128, b: u128) -> u128 {
    if a + b > u128::MAX {
        u128::MAX
    } else {
        (a + b) as u128
    }
}

/// `a - b`, or zero where `b` exceeds `a`.
pub open spec fn spec_sat_sub(a: u128, b: u128) -> u128 {
    if a < b {
        0
    } else {
        (a - b) as u128
    }
}

/// Saturating multiplication.
pub fn sat_mul(a: u128, b: u128) -> (r: u128)
    ensures
        r == spec_sat_mul(a, b),
{
    match a.checked_mul(b) {
        Some(v) => v,
        None => u128::MAX,
    }
}

/// Saturating addition.
pub fn sat_add(a: u128, b: u128) -> (r: u128)
    ensures
        r == spec_sat_add(a, b),
{
    a.saturating_add(b)
}

/// Saturating subtraction.
pub fn sat_sub(a: u128, b: u128) -> (r: u128)
    ensures
        r == spec_sat_sub(a, b),
{
    a.saturating_sub(b)
}

/// A DUST public key (a field element, by its 32-byte representation).
#[derive(Debug, Clone, Copy)]
pub struct DustPublicKey(pub HashOutput);

impl KeyEq for DustPublicKey {
    fn key_eq(&self, other: &Self) -> (r: bool) {
        self.0.key_eq(&other.0)
    }
}

/// The nonce that identifies the NIGHT output backing a DUST output.
#[derive(Debug, Clone, Copy)]
pub struct InitialNonce(pub HashOutput);

impl KeyEq for InitialNonce {
    fn key_eq(&self, other: &Self) -> (r: bool) {
        self.0.key_eq(&other.0)
    }
}

/// The parameters of DUST generation.
#[derive(Debug, Clone, Copy, PartialEq, Eq, Structural)]
pub struct DustParameters {
    /// Specks of DUST that one Star of NIGHT can hold at most.
    pub night_dust_ratio: u64,
    /// Specks generated (or decayed) per Star per second.
    pub generation_decay_rate: u32,
    /// The grace period, in seconds.
    pub dust_grace_period: u64,
}

/// The initial DUST parameters: 5 DUST per NIGHT, a rate that fills the cap
/// in about a week, and a three hour grace period.
pub fn initial_dust_parameters() -> (r: DustParameters)
    ensures
        r.night_dust_ratio == 5_000_000_000,
        r.generation_decay_rate == 8_267,
        r.dust_grace_period == 10_800,
{
    DustParameters { night_dust_ratio: 5_000_000_000, generation_decay_rate: 8_267, dust_grace_period: 10_800 }
}

impl DustParameters {
    /// The time, in seconds, a DUST output takes to fill up to its cap:
    /// the ratio divided by the rate, rounded up.
    pub fn time_to_cap(&self) -> (r: u64)
        requires
            self.generation_decay_rate > 0,
        ensures
            r as int == (self.night_dust_ratio as int + self.generation_decay_rate as int - 1) / self.generation_decay_rate as int,
            r as int * self.generation_decay_rate as int >= self.night_dust_ratio as int,
            (r as int - 1) * (self.generation_decay_rate as int) < self.night_dust_ratio as int,
    {
        let rate = self.generation_decay_rate as u64;
        let q = self.night_dust_ratio / rate;
        proof {
            let n = self.night_dust_ratio as int;
            let d = rate as int;
            if n % d != 0 {
                assert(d >= 2);
                assert((n / d) * 2 <= n) by (nonlinear_arith) requires d >= 2, n >= 0;
            }
        }
        let r = if self.night_dust_ratio % rate == 0 { q } else { q + 1 };
        proof {
            let n = self.night_dust_ratio as int;
            let d = rate as int;
            assert(n == (n / d) * d + n % d) by (nonlinear_arith) requires d > 0;
            assert(0 <= n % d < d) by (nonlinear_arith) requires d > 0;
            if n % d == 0 {
                assert((n + d - 1) / d == n / d) by (nonlinear_arith)
                    requires d > 0, n % d == 0, n == (n / d) * d + n % d;
            } else {
                assert((n + d - 1) / d == n / d + 1) by (nonlinear_arith)
                    requires d > 0, 0 < n % d < d, n == (n / d) * d + n % d;
            }
            assert(r as int * d >= n) by (nonlinear_arith)
                requires n == (n / d) * d + n % d, 0 <= n % d < d, r as int == (if n % d == 0 { n / d } else { n / d + 1 });
            assert((r as int - 1) * d < n) by (nonlinear_arith)
                requires n == (n / d) * d + n % d, 0 <= n % d < d, r as int == (if n % d == 0 { n / d } else { n / d + 1 });
        }
        r
    }
}

/// A DUST output: its value at creation, owner, nonce, sequence number and
/// creation time.
#[derive(Debug, Clone, Copy)]
pub struct DustOutput {
    pub initial_value: u128,
    pub owner: DustPublicKey,
    pub nonce: HashOutput,
    pub seq: u32,
    pub ctime: u64,
}

/// What the ledger records of the NIGHT backing DUST generation: its value,
/// the DUST owner, the nonce of the backing output, and the time it stopped
/// generating (`u64::MAX` while it still does).
#[derive(Debug, Clone, Copy)]
pub struct DustGenerationInfo {
    pub value: u128,
    pub owner: DustPublicKey,
    pub nonce: InitialNonce,
    pub dtime: u64,
}

/// The seconds from `a` to `b`, zero where `b` is not after `a`.
pub open spec fn elapsed(a: u64, b: u64) -> u128 {
    if b >= a {
        (b - a) as u128
    } else {
        0
    }
}

/// The value of a DUST output at `now`. It grows at `rate` per second from
/// its creation until it reaches the cap `vfull` or its backing NIGHT stops
/// generating, and from that stop it decays at `rate` per second to zero.
pub open spec fn spec_updated_value(out: DustOutput, gen: DustGenerationInfo, now: u64, params: DustParameters) -> u128 {
    let vfull = spec_sat_mul(gen.value, params.night_dust_ratio as u128);
    let rate = spec_sat_mul(gen.value, params.generation_decay_rate as u128);
    let tend_phase_12 = if gen.dtime <= now { gen.dtime } else { now };
    let dt_phase_12 = elapsed(out.ctime, tend_phase_12);
    let value_phase_1 = spec_sat_add(spec_sat_mul(dt_phase_12, rate), out.initial_value);
    let value_phase_12 = if value_phase_1 <= vfull { value_phase_1 } else { vfull };
    let dt_phase_3 = elapsed(gen.dtime, now);
    spec_sat_sub(value_phase_12, spec_sat_mul(dt_phase_3, rate))
}

impl DustOutput {
    /// The value of this output at `now`, given the generation record of its
    /// backing NIGHT.
    pub fn updated_value(&self, gen_info: &DustGenerationInfo, now: u64, params: &DustParameters) -> (r: u128)
        ensures
            r == spec_updated_value(*self, *gen_info, now, *params),
    {
        let vfull = sat_mul(gen_info.value, params.night_dust_ratio as u128);
        let rate = sat_mul(gen_info.value, params.generation_decay_rate as u128);
        let tstart_phase_1 = self.ctime;
        let tend_phase_12 = if gen_info.dtime <= now { gen_info.dtime } else { now };
        let dt_phase_12: u128 = if tend_phase_12 >= tstart_phase_1 { (tend_phase_12 - tstart_phase_1) as u128 } else { 0 };
        let value_phase_1_unchecked = sat_add(sat_mul(dt_phase_12, rate), self.initial_value);
        let value_phase_12 = if value_phase_1_unchecked <= vfull { value_phase_1_unchecked } else { vfull };
        let dt_phase_3: u128 = if now >= gen_info.dtime { (now - gen_info.dtime) as u128 } else { 0 };
        sat_sub(value_phase_12, sat_mul(dt_phase_3, rate))
    }
}

/// The value of a DUST output never exceeds its cap, the backing NIGHT value
/// times the NIGHT-to-DUST ratio.
pub proof fn lemma_updated_value_capped(out: DustOutput, gen: DustGenerationInfo, now: u64, params: DustParameters)
    ensures
        spec_updated_value(out, gen, now, params) <= spec_sat_mul(gen.value, params.night_dust_ratio as u128),
{
}

/// While the backing NIGHT generates, DUST does not decrease over time.
pub proof fn lemma_updated_value_monotone_while_generating(out: DustOutput, gen: DustGenerationInfo, t1: u64, t2: u64, params: DustParameters)
    requires
        t1 <= t2 <= gen.dtime,
    ensures
        spec_updated_value(out, gen, t1, params) <= spec_updated_value(out, gen, t2, params),
{
    let rate = spec_sat_mul(gen.value, params.generation_decay_rate as u128);
    let d1 = elapsed(out.ctime, t1);
    let d2 = elapsed(out.ctime, t2);
    assert(d1 <= d2);
    assert(d1 * rate <= d2 * rate) by (nonlinear_arith) requires d1 <= d2, rate >= 0;
}

/// Once the backing NIGHT has stopped generating, DUST does not increase over
/// time.
pub proof fn lemma_updated_value_decays_after_dtime(out: DustOutput, gen: DustGenerationInfo, t1: u64, t2: u64, params: DustParameters)
    requires
        gen.dtime <= t1 <= t2,
    ensures
        spec_updated_value(out, gen, t2, params) <= spec_updated_value(out, gen, t1, params),
{
    let rate = spec_sat_mul(gen.value, params.generation_decay_rate as u128);
    let d1 = elapsed(gen.dtime, t1);
    let d2 = elapsed(gen.dtime, t2);
    assert(d1 <= d2);
    assert(d1 * rate <= d2 * rate) by (nonlinear_arith) requires d1 <= d2, rate >= 0;
}


/// While its backing NIGHT generates, a DUST output grows from its initial
/// value at the generation rate (the backing NIGHT value times the decay
/// rate) per second since its creation, up to the cap (the backing NIGHT
/// value times the NIGHT-to-DUST ratio).
pub proof fn lemma_growth_before_dtime(out: DustOutput, gen: DustGenerationInfo, now: u64, params: DustParameters)
    requires
        out.ctime <= now <= gen.dtime,
        gen.value * params.night_dust_ratio <= u128::MAX,
    ensures
        ({
            let cap = gen.value * params.night_dust_ratio;
            let grown = out.initial_value + (now - out.ctime) * (gen.value * params.generation_decay_rate);
            spec_updated_value(out, gen, now, params) as int == if grown >= cap { cap } else { grown }
        }),
{
    let vfull = spec_sat_mul(gen.value, params.night_dust_ratio as u128);
    let rs = spec_sat_mul(gen.value, params.generation_decay_rate as u128);
    let dt = elapsed(out.ctime, now);
    assert(dt == now - out.ctime);
    assert(elapsed(gen.dtime, now) == 0);
    assert(spec_sat_mul(0, rs) == 0);
    let r: int = gen.value * params.generation_decay_rate;
    assert(r >= 0) by (nonlinear_arith)
        requires
            r == gen.value * params.generation_decay_rate,
            gen.value >= 0,
            params.generation_decay_rate >= 0,
    ;
    if dt >= 1 {
        assert(dt * r >= r) by (nonlinear_arith)
            requires
                dt >= 1,
                r >= 0,
        ;
        assert(dt * rs >= rs) by (nonlinear_arith)
            requires
                dt >= 1,
                rs >= 0,
        ;
        if r > u128::MAX {
            assert(rs == u128::MAX);
        } else {
            assert(rs == r);
        }
    } else {
        assert(dt * r == 0) by (nonlinear_arith)
            requires
                dt == 0,
        ;
    }
}

/// After its backing NIGHT stops generating, a DUST output loses value at
/// the generation rate (the backing NIGHT value times the decay rate) per
/// second, down to zero: at `now`, it is worth what it was worth at the
/// stop, less the elapsed time times that rate, or nothing.
pub proof fn lemma_decay_after_dtime(out: DustOutput, gen: DustGenerationInfo, now: u64, params: DustParameters)
    requires
        gen.dtime <= now,
    ensures
        ({
            let v0 = spec_updated_value(out, gen, gen.dtime, params) as int;
            let lost = (now - gen.dtime) * (gen.value * params.generation_decay_rate);
            spec_updated_value(out, gen, now, params) as int == if lost >= v0 { 0 } else { v0 - lost }
        }),
{
    let vfull = spec_sat_mul(gen.value, params.night_dust_ratio as u128);
    let rs = spec_sat_mul(gen.value, params.generation_decay_rate as u128);
    let dt12 = elapsed(out.ctime, gen.dtime);
    let p1 = spec_sat_add(spec_sat_mul(dt12, rs), out.initial_value);
    let p12 = if p1 <= vfull { p1 } else { vfull };
    let dt = elapsed(gen.dtime, now);
    assert(dt == now - gen.dtime);
    assert(spec_sat_mul(0, rs) == 0);
    assert(spec_updated_value(out, gen, gen.dtime, params) == p12);
    assert(spec_updated_value(out, gen, now, params) == spec_sat_sub(p12, spec_sat_mul(dt, rs)));
    let r: int = gen.value * params.generation_decay_rate;
    assert(r >= 0) by (nonlinear_arith)
        requires
            r == gen.value * params.generation_decay_rate,
            gen.value >= 0,
            params.generation_decay_rate >= 0,
    ;
    if dt >= 1 {
        assert(dt * r >= r) by (nonlinear_arith)
            requires
                dt >= 1,
                r >= 0,
        ;
        assert(dt * rs >= rs) by (nonlinear_arith)
            requires
                dt >= 1,
                rs >= 0,
        ;
        if r > u128::MAX {
            assert(rs == u128::MAX);
        } else {
            assert(rs == r);
        }
    } else {
        assert(dt * r == 0) by (nonlinear_arith)
            requires
                dt == 0,
        ;
    }
}

/// The number of leaves of the DUST commitment and generation trees (both
/// have depth 32).
pub const DUST_TREE_CAPACITY: u64 = 0x1_0000_0000;

/// What the ledger reports of changes to DUST generation.
#[derive(Debug, Clone, Copy)]
pub enum DustEvent {
    /// A new DUST output, backed by the NIGHT output `backing_night`, was
    /// committed at `mt_index`, with its generation record at
    /// `generation_index`.
    InitialUtxo {
        initial_value: u128,
        owner: DustPublicKey,
        ctime: u64,
        backing_night: InitialNonce,
        mt_index: u64,
        generation: DustGenerationInfo,
        generation_index: u64,
        block_time: u64,
    },
    /// The generation record at `index` now has the given stop time.
    GenerationDtimeUpdate { index: u64, generation: DustGenerationInfo, block_time: u64 },
    /// A DUST spend was processed: its new commitment went to
    /// `commitment_index`, its nullifier is recorded.
    DustSpendProcessed {
        commitment: HashOutput,
        commitment_index: u64,
        nullifier: HashOutput,
        v_fee: u128,
        declared_time: u64,
        block_time: u64,
    },
}

/// Why a change to DUST generation was refused.
#[derive(Debug, Clone, Copy)]
pub enum DustStateError {
    /// A record with the same value, owner and nonce already exists.
    GenerationInfoAlreadyPresent(DustGenerationInfo),
    /// A tree has no free leaf left.
    MerkleTreeFull,
}

/// The ledger's DUST generation state: which NIGHT address delegates
/// generation to which DUST key, the generation records in tree order, where
/// each backing NIGHT output's record sits, the nullifiers of spent DUST,
/// and the next free leaf of the DUST commitment tree.
pub struct DustState {
    pub address_delegation: KeyMap<UserAddress, DustPublicKey>,
    pub generating_tree: Vec<DustGenerationInfo>,
    pub night_indices: KeyMap<InitialNonce, u64>,
    pub nullifiers: KeyMap<HashOutput, ()>,
    pub commitments_first_free: u64,
}

/// Two generation records agree on value, owner and nonce.
pub open spec fn same_generation(a: DustGenerationInfo, b: DustGenerationInfo) -> bool {
    a.value == b.value && a.owner == b.owner && a.nonce == b.nonce
}

/// The generation record of a freshly created DUST output.
pub open spec fn spec_fresh_generation(night_value: u128, owner: DustPublicKey, nonce: InitialNonce) -> DustGenerationInfo {
    DustGenerationInfo { value: night_value, owner, nonce, dtime: u64::MAX }
}

/// The contents of the DUST generation state.
pub struct DustView {
    pub delegation: Map<UserAddress, DustPublicKey>,
    pub tree: Seq<DustGenerationInfo>,
    pub indices: Map<InitialNonce, u64>,
    pub nullifiers: Map<HashOutput, ()>,
    pub commitments_first_free: u64,
}

/// Creating a DUST output (see `DustState::fresh_dust_output`): the new
/// contents and the event, or the error.
pub open spec fn spec_fresh_dust_output(
    v: DustView,
    initial_nonce: InitialNonce,
    initial_value: u128,
    night_value: u128,
    dust_addr: DustPublicKey,
    tnow: u64,
    tblock: u64,
) -> Result<(DustView, DustEvent), DustStateError> {
    let gen = spec_fresh_generation(night_value, dust_addr, initial_nonce);
    let n = v.tree.len();
    if v.commitments_first_free >= DUST_TREE_CAPACITY {
        Err(DustStateError::MerkleTreeFull)
    } else if exists|i: int| 0 <= i < n && same_generation(#[trigger] v.tree[i], gen) {
        Err(DustStateError::GenerationInfoAlreadyPresent(gen))
    } else if n >= DUST_TREE_CAPACITY {
        Err(DustStateError::MerkleTreeFull)
    } else {
        Ok((
            DustView {
                delegation: v.delegation,
                tree: v.tree.push(gen),
                indices: v.indices.insert(initial_nonce, n as u64),
                nullifiers: v.nullifiers,
                commitments_first_free: (v.commitments_first_free + 1) as u64,
            },
            DustEvent::InitialUtxo {
                initial_value,
                owner: dust_addr,
                ctime: tnow,
                backing_night: initial_nonce,
                mt_index: v.commitments_first_free,
                generation: gen,
                generation_index: n as u64,
                block_time: tblock,
            },
        ))
    }
}

/// Stopping generation for `nonce` at `time` (see `DustState::update_dtime`):
/// the new contents and the event, if any.
pub open spec fn spec_update_dtime(v: DustView, nonce: InitialNonce, time: u64, tblock: u64) -> (DustView, Option<DustEvent>) {
    if v.indices.contains_key(nonce) && v.indices[nonce] < v.tree.len() {
        let idx = v.indices[nonce] as int;
        let g = DustGenerationInfo { dtime: time, ..v.tree[idx] };
        (
            DustView { tree: v.tree.update(idx, g), ..v },
            Some(DustEvent::GenerationDtimeUpdate { index: idx as u64, generation: g, block_time: tblock }),
        )
    } else {
        (v, None)
    }
}

impl DustState {
    /// The maps are well formed.
    pub open spec fn wf(&self) -> bool {
        self.address_delegation.wf() && self.night_indices.wf() && self.nullifiers.wf()
    }

    /// The contents of this state.
    pub open spec fn dview(&self) -> DustView {
        DustView {
            delegation: self.address_delegation@,
            tree: self.generating_tree@,
            indices: self.night_indices@,
            nullifiers: self.nullifiers@,
            commitments_first_free: self.commitments_first_free,
        }
    }

    /// Nothing delegated, no generation, no commitment.
    pub fn new() -> (r: Self)
        ensures
            r.wf(),
            r.address_delegation@ == Map::<UserAddress, DustPublicKey>::empty(),
            r.generating_tree@ == Seq::<DustGenerationInfo>::empty(),
            r.night_indices@ == Map::<InitialNonce, u64>::empty(),
            r.nullifiers@ == Map::<HashOutput, ()>::empty(),
            r.commitments_first_free == 0,
    {
        DustState {
            address_delegation: KeyMap::new(),
            generating_tree: Vec::new(),
            night_indices: KeyMap::new(),
            nullifiers: KeyMap::new(),
            commitments_first_free: 0,
        }
    }

    /// A copy of this state.
    pub fn duplicate(&self) -> (r: Self)
        requires
            self.wf(),
        ensures
            r.wf(),
            r.address_delegation@ == self.address_delegation@,
            r.generating_tree@ == self.generating_tree@,
            r.night_indices@ == self.night_indices@,
            r.nullifiers@ == self.nullifiers@,
            r.commitments_first_free == self.commitments_first_free,
    {
        DustState {
            address_delegation: self.address_delegation.duplicate(),
            generating_tree: copy_vec(&self.generating_tree),
            night_indices: self.night_indices.duplicate(),
            nullifiers: self.nullifiers.duplicate(),
            commitments_first_free: self.commitments_first_free,
        }
    }

    /// Whether a record with the value, owner and nonce of `gen` exists.
    pub fn has_generation(&self, gen: &DustGenerationInfo) -> (r: bool)
        ensures
            r == exists|i: int| 0 <= i < self.generating_tree@.len() && same_generation(#[trigger] self.generating_tree@[i], *gen),
    {
        let mut i: usize = 0;
        while i < self.generating_tree.len()
            invariant
                0 <= i <= self.generating_tree@.len(),
                forall|j: int| 0 <= j < i ==> !same_generation(#[trigger] self.generating_tree@[j], *gen),
            decreases self.generating_tree@.len() - i,
        {
            let g = self.generating_tree[i];
            if g.value == gen.value && g.owner.key_eq(&gen.owner) && g.nonce.key_eq(&gen.nonce) {
                return true;
            }
            i = i + 1;
        }
        false
    }

    /// Creates a DUST output of `initial_value` for `dust_addr`, created at
    /// `tnow`, backed by `night_value` NIGHT identified by `initial_nonce`:
    /// takes the next commitment leaf, records the generation (generating
    /// until further notice) at the next generation leaf, and remembers where
    /// the record of `initial_nonce` sits.
    pub fn fresh_dust_output(
        &self,
        initial_nonce: InitialNonce,
        initial_value: u128,
        night_value: u128,
        dust_addr: DustPublicKey,
        tnow: u64,
        tblock: u64,
    ) -> (res: Result<(DustState, DustEvent), DustStateError>)
        requires
            self.wf(),
        ensures
            match (res, spec_fresh_dust_output(self.dview(), initial_nonce, initial_value, night_value, dust_addr, tnow, tblock)) {
                (Ok((st, ev)), Ok((v, sev))) => st.wf() && st.dview() == v && ev == sev,
                (Err(e), Err(se)) => e == se,
                _ => false,
            },
    {
        if self.commitments_first_free >= DUST_TREE_CAPACITY {
            return Err(DustStateError::MerkleTreeFull);
        }
        let gen = DustGenerationInfo { value: night_value, owner: dust_addr, nonce: initial_nonce, dtime: u64::MAX };
        if self.has_generation(&gen) {
            return Err(DustStateError::GenerationInfoAlreadyPresent(gen));
        }
        let n = self.generating_tree.len();
        if n as u64 >= DUST_TREE_CAPACITY {
            return Err(DustStateError::MerkleTreeFull);
        }
        let mut st = self.duplicate();
        st.generating_tree.push(gen);
        st.night_indices.insert(initial_nonce, n as u64);
        let mt_index = st.commitments_first_free;
        st.commitments_first_free = mt_index + 1;
        let ev = DustEvent::InitialUtxo {
            initial_value,
            owner: dust_addr,
            ctime: tnow,
            backing_night: initial_nonce,
            mt_index,
            generation: gen,
            generation_index: n as u64,
            block_time: tblock,
        };
        Ok((st, ev))
    }

    /// Marks the NIGHT output `nonce` as no longer generating from `time`:
    /// its generation record gets `time` as stop time. Where the nonce has no
    /// record, nothing changes and no event is reported.
    pub fn update_dtime(&mut self, nonce: &InitialNonce, time: u64, tblock: u64) -> (ev: Option<DustEvent>)
        requires
            old(self).wf(),
        ensures
            final(self).wf(),
            (final(self).dview(), ev) == spec_update_dtime(old(self).dview(), *nonce, time, tblock),
    {
        match self.night_indices.get(nonce) {
            None => None,
            Some(idx) => {
                if idx >= self.generating_tree.len() as u64 {
                    return None;
                }
                let i = idx as usize;
                let old_g = self.generating_tree[i];
                let g = DustGenerationInfo { value: old_g.value, owner: old_g.owner, nonce: old_g.nonce, dtime: time };
                self.generating_tree.set(i, g);
                Some(DustEvent::GenerationDtimeUpdate { index: idx, generation: g, block_time: tblock })
            },
        }
    }
}

/// The generation of each NIGHT input ends at `tblock`: inputs are taken in
/// order, the `k`-th under `nonces[k]`; those not generating are passed
/// over.
pub open spec fn spec_end_generations(v: DustView, inputs: Seq<UtxoSpend>, nonces: Seq<InitialNonce>, tblock: u64, n: int) -> (DustView, Seq<DustEvent>)
    decreases n,
{
    if n <= 0 {
        (v, Seq::empty())
    } else {
        let (v1, evs) = spec_end_generations(v, inputs, nonces, tblock, n - 1);
        if inputs[n - 1].type_ == spec_night() {
            let (v2, ev) = spec_update_dtime(v1, nonces[n - 1], tblock, tblock);
            match ev {
                Some(e) => (v2, evs.push(e)),
                None => (v2, evs),
            }
        } else {
            (v1, evs)
        }
    }
}

/// Spending NIGHT ends its DUST generation at the block time: after the
/// first `n` inputs, the record of every NIGHT input among them whose
/// nonce is tracked has dtime `tblock`, keeping its value, owner and nonce;
/// no record is added and no index changes, and records of nonces no input
/// names stay as they were.
pub proof fn lemma_spent_night_stops_generating(v: DustView, inputs: Seq<UtxoSpend>, nonces: Seq<InitialNonce>, tblock: u64, n: int)
    requires
        0 <= n <= inputs.len(),
        n <= nonces.len(),
    ensures
        ({
            let (w, _) = spec_end_generations(v, inputs, nonces, tblock, n);
            &&& w.tree.len() == v.tree.len()
            &&& w.indices == v.indices
            &&& w.delegation == v.delegation
            &&& forall|i: int| 0 <= i < v.tree.len() ==> same_generation(#[trigger] w.tree[i], v.tree[i])
            &&& forall|k: int| 0 <= k < n && inputs[k].type_ == spec_night() && v.indices.contains_key(#[trigger] nonces[k])
                && v.indices[nonces[k]] < v.tree.len() ==> {
                let i = v.indices[nonces[k]] as int;
                w.tree[i].dtime == tblock
            }
            &&& forall|i: int| 0 <= i < v.tree.len() && (forall|k: int| 0 <= k < n ==> !(v.indices.contains_key(#[trigger] nonces[k])
                && v.indices[nonces[k]] == i)) ==> w.tree[i] == v.tree[i]
        }),
    decreases n,
{
    if n > 0 {
        lemma_spent_night_stops_generating(v, inputs, nonces, tblock, n - 1);
    }
}

/// A DUST registration of the intent in segment zero covers `owner`.
pub open spec fn handled_by_registration(parent: Intent, segment: u16, owner: UserAddress) -> bool {
    segment == 0 && match parent.dust_actions {
        Some(da) => exists|i: int| 0 <= i < da.registrations@.len() && (#[trigger] da.registrations@[i]).night_key == owner,
        None => false,
    }
}

/// Each NIGHT output to an owner with a DUST address (and no registration
/// covering it) starts generating at `tblock`: outputs are taken in order,
/// the `k`-th under `nonces[k]`; the first failure stops.
pub open spec fn spec_start_generations(
    v: DustView,
    outputs: Seq<UtxoOutput>,
    nonces: Seq<InitialNonce>,
    parent: Intent,
    segment: u16,
    tblock: u64,
    n: int,
) -> Result<(DustView, Seq<DustEvent>), DustStateError>
    decreases n,
{
    if n <= 0 {
        Ok((v, Seq::empty()))
    } else {
        match spec_start_generations(v, outputs, nonces, parent, segment, tblock, n - 1) {
            Err(e) => Err(e),
            Ok((v1, evs)) => {
                let o = outputs[n - 1];
                if o.type_ == spec_night() && v1.delegation.contains_key(o.owner) && !handled_by_registration(parent, segment, o.owner) {
                    match spec_fresh_dust_output(v1, nonces[n - 1], 0, o.value, v1.delegation[o.owner], tblock, tblock) {
                        Ok((v2, ev)) => Ok((v2, evs.push(ev))),
                        Err(e) => Err(e),
                    }
                } else {
                    Ok((v1, evs))
                }
            },
        }
    }
}

/// New NIGHT starts DUST generation for the DUST address of its owner:
/// where the first `n` outputs (under distinct nonces) all go through,
/// every NIGHT output among them whose owner has a DUST address, and that
/// no registration covers, has its nonce indexed to a record of its value,
/// that DUST address and its nonce that never stops generating; records
/// already there stay, and no DUST address changes.
pub proof fn lemma_new_night_starts_generating(
    v: DustView,
    outputs: Seq<UtxoOutput>,
    nonces: Seq<InitialNonce>,
    parent: Intent,
    segment: u16,
    tblock: u64,
    n: int,
)
    requires
        0 <= n <= outputs.len(),
        n <= nonces.len(),
        forall|a: int, b: int| 0 <= a < b < n ==> nonces[a] != nonces[b],
    ensures
        spec_start_generations(v, outputs, nonces, parent, segment, tblock, n) matches Ok((w, _)) ==> {
            &&& w.delegation == v.delegation
            &&& v.tree.len() <= w.tree.len()
            &&& forall|i: int| 0 <= i < v.tree.len() ==> #[trigger] w.tree[i] == v.tree[i]
            &&& forall|k: int| 0 <= k < n && (#[trigger] outputs[k]).type_ == spec_night() && v.delegation.contains_key(outputs[k].owner)
                && !handled_by_registration(parent, segment, outputs[k].owner) ==> {
                &&& w.indices.contains_key(nonces[k])
                &&& w.indices[nonces[k]] < w.tree.len()
                &&& w.tree[w.indices[nonces[k]] as int] == (DustGenerationInfo {
                    value: outputs[k].value,
                    owner: v.delegation[outputs[k].owner],
                    nonce: nonces[k],
                    dtime: u64::MAX,
                })
            }
        },
    decreases n,
{
    if n > 0 {
        lemma_new_night_starts_generating(v, outputs, nonces, parent, segment, tblock, n - 1);
        match spec_start_generations(v, outputs, nonces, parent, segment, tblock, n - 1) {
            Ok((v1, _)) => {
                let o = outputs[n - 1];
                if o.type_ == spec_night() && v1.delegation.contains_key(o.owner) && !handled_by_registration(parent, segment, o.owner) {
                    match spec_fresh_dust_output(v1, nonces[n - 1], 0, o.value, v1.delegation[o.owner], tblock, tblock) {
                        Ok((v2, _)) => {
                            assert forall|k: int| 0 <= k < n && (#[trigger] outputs[k]).type_ == spec_night() && v.delegation.contains_key(
                                outputs[k].owner,
                            ) && !handled_by_registration(parent, segment, outputs[k].owner) implies {
                                &&& v2.indices.contains_key(nonces[k])
                                &&& v2.indices[nonces[k]] < v2.tree.len()
                                &&& v2.tree[v2.indices[nonces[k]] as int] == (DustGenerationInfo {
                                    value: outputs[k].value,
                                    owner: v.delegation[outputs[k].owner],
                                    nonce: nonces[k],
                                    dtime: u64::MAX,
                                })
                            } by {
                                if k < n - 1 {
                                    assert(nonces[k] != nonces[n - 1]);
                                    assert(v1.indices.contains_key(nonces[k]));
                                    assert(v2.tree[v1.indices[nonces[k]] as int] == v1.tree[v1.indices[nonces[k]] as int]);
                                }
                            }
                            assert forall|i: int| 0 <= i < v.tree.len() implies #[trigger] v2.tree[i] == v.tree[i] by {
                                assert(v1.tree[i] == v.tree[i]);
                            }
                        },
                        Err(_) => {},
                    }
                }
            },
            Err(_) => {},
        }
    }
}

/// Once the outputs up to `k` fail, all of them fail the same way.
pub proof fn lemma_start_generations_err_extends(
    v: DustView,
    outputs: Seq<UtxoOutput>,
    nonces: Seq<InitialNonce>,
    parent: Intent,
    segment: u16,
    tblock: u64,
    k: int,
    n: int,
)
    requires
        0 <= k <= n,
        spec_start_generations(v, outputs, nonces, parent, segment, tblock, k) is Err,
    ensures
        spec_start_generations(v, outputs, nonces, parent, segment, tblock, n) == spec_start_generations(v, outputs, nonces, parent, segment, tblock, k),
    decreases n - k,
{
    if k < n {
        lemma_start_generations_err_extends(v, outputs, nonces, parent, segment, tblock, k, n - 1);
    }
}

/// Whether a DUST registration of `parent` covers `owner` in `segment`.
fn covered_by_registration(parent: &Intent, segment: u16, owner: &UserAddress) -> (r: bool)
    ensures
        r == handled_by_registration(*parent, segment, *owner),
{
    if segment != 0 {
        return false;
    }
    match &parent.dust_actions {
        None => false,
        Some(da) => {
            let mut i: usize = 0;
            while i < da.registrations.len()
                invariant
                    0 <= i <= da.registrations@.len(),
                    segment == 0,
                    parent.dust_actions == Some(*da),
                    forall|j: int| 0 <= j < i ==> (#[trigger] da.registrations@[j]).night_key != *owner,
                decreases da.registrations@.len() - i,
            {
                if da.registrations[i].night_key.key_eq(owner) {
                    assert(da.registrations@[i as int].night_key == *owner);
                    return true;
                }
                i = i + 1;
            }
            false
        },
    }
}

impl DustState {
    /// Applies an unshielded offer of `parent` in `segment` to DUST
    /// generation: each NIGHT input (the `k`-th under `input_nonces[k]`)
    /// stops generating at `tblock`, then each NIGHT output (the `k`-th
    /// under `output_nonces[k]`) to an owner with a DUST address starts
    /// generating, unless a registration of `parent` in segment zero covers
    /// the owner. Gives the new state and the events, or the first failure.
    pub fn apply_offer(
        &self,
        offer: &UnshieldedOffer,
        input_nonces: &Vec<InitialNonce>,
        output_nonces: &Vec<InitialNonce>,
        parent: &Intent,
        segment: u16,
        tblock: u64,
    ) -> (res: Result<(DustState, Vec<DustEvent>), DustStateError>)
        requires
            self.wf(),
            input_nonces@.len() == offer.inputs@.len(),
            output_nonces@.len() == offer.outputs@.len(),
        ensures
            ({
                let (v1, evs1) = spec_end_generations(self.dview(), offer.inputs@, input_nonces@, tblock, offer.inputs@.len() as int);
                match (res, spec_start_generations(v1, offer.outputs@, output_nonces@, *parent, segment, tblock, offer.outputs@.len() as int)) {
                    (Ok((st, evs)), Ok((v2, evs2))) => st.wf() && st.dview() == v2 && evs@ == evs1 + evs2,
                    (Err(e), Err(se)) => e == se,
                    _ => false,
                }
            }),
    {
        let mut st = self.duplicate();
        let mut evs: Vec<DustEvent> = Vec::new();
        let nt = night();
        let mut i: usize = 0;
        while i < offer.inputs.len()
            invariant
                0 <= i <= offer.inputs@.len(),
                input_nonces@.len() == offer.inputs@.len(),
                nt == spec_night(),
                st.wf(),
                (st.dview(), evs@) == spec_end_generations(self.dview(), offer.inputs@, input_nonces@, tblock, i as int),
            decreases offer.inputs@.len() - i,
        {
            let inp = offer.inputs[i];
            if inp.type_.key_eq(&nt) {
                match st.update_dtime(&input_nonces[i], tblock, tblock) {
                    Some(ev) => evs.push(ev),
                    None => {},
                }
            }
            i = i + 1;
        }
        let ghost v1 = st.dview();
        let ghost evs1 = evs@;
        let mut out_evs: Vec<DustEvent> = Vec::new();
        let mut k: usize = 0;
        while k < offer.outputs.len()
            invariant
                0 <= k <= offer.outputs@.len(),
                output_nonces@.len() == offer.outputs@.len(),
                nt == spec_night(),
                st.wf(),
                (v1, evs1) == spec_end_generations(self.dview(), offer.inputs@, input_nonces@, tblock, offer.inputs@.len() as int),
                evs@ == evs1,
                spec_start_generations(v1, offer.outputs@, output_nonces@, *parent, segment, tblock, k as int)
                    == Ok::<(DustView, Seq<DustEvent>), DustStateError>((st.dview(), out_evs@)),
            decreases offer.outputs@.len() - k,
        {
            let o = offer.outputs[k];
            if o.type_.key_eq(&nt) {
                match st.address_delegation.get(&o.owner) {
                    Some(dust_addr) => {
                        if !covered_by_registration(parent, segment, &o.owner) {
                            match st.fresh_dust_output(output_nonces[k], 0, o.value, dust_addr, tblock, tblock) {
                                Ok((next, ev)) => {
                                    st = next;
                                    out_evs.push(ev);
                                },
                                Err(e) => {
                                    proof {
                                        assert(o == offer.outputs@[k as int]);
                                        assert(spec_start_generations(v1, offer.outputs@, output_nonces@, *parent, segment, tblock, k as int + 1)
                                            == Err::<(DustView, Seq<DustEvent>), DustStateError>(e));
                                        lemma_start_generations_err_extends(
                                            v1, offer.outputs@, output_nonces@, *parent, segment, tblock,
                                            k as int + 1, offer.outputs@.len() as int,
                                        );
                                    }
                                    return Err(e);
                                },
                            }
                        }
                    },
                    None => {},
                }
            }
            k = k + 1;
        }
        let mut all = evs;
        let mut j: usize = 0;
        while j < out_evs.len()
            invariant
                0 <= j <= out_evs@.len(),
                all@ == evs1 + out_evs@.take(j as int),
                (v1, evs1) == spec_end_generations(self.dview(), offer.inputs@, input_nonces@, tblock, offer.inputs@.len() as int),
                spec_start_generations(v1, offer.outputs@, output_nonces@, *parent, segment, tblock, offer.outputs@.len() as int)
                    == Ok::<(DustView, Seq<DustEvent>), DustStateError>((st.dview(), out_evs@)),
                st.wf(),
            decreases out_evs@.len() - j,
        {
            all.push(out_evs[j]);
            assert(out_evs@.take(j as int + 1) =~= out_evs@.take(j as int).push(out_evs@[j as int]));
            j = j + 1;
        }
        assert(out_evs@.take(out_evs@.len() as int) =~= out_evs@);
        Ok((st, all))
    }
}

} // verus!
