//! The unshielded UTXO set: unspent outputs with their creation time, the
//! number of outputs and the NIGHT value they hold, and the application of
//! an unshielded offer (spend the inputs, create the outputs).
use vstd::prelude::*;
use crate::hash::{KeyEq, UserAddress, IntentHash, UnshieldedTokenType, spec_night, night};
use crate::keyed::{
    NightAnn, keys_unique, seq_to_map, weighted_sum, lemma_weighted_sum_nonneg, lemma_weighted_sum_bound,
    lemma_weighted_sum_update, lemma_weighted_sum_push, lemma_weighted_sum_remove, lemma_seq_to_map_dom,
    lemma_seq_to_map_value, lemma_seq_to_map_update, lemma_seq_to_map_push, lemma_seq_to_map_remove,
    lemma_seq_to_map_finite, find_key, copy_vec,
};

verus! {

/// An unspent unshielded output.
#[derive(Debug, Clone, Copy)]
pub struct Utxo {
    pub value: u128,
    pub owner: UserAddress,
    pub type_: UnshieldedTokenType,
    pub intent_hash: IntentHash,
    pub output_no: u32,
}

impl KeyEq for Utxo {
    fn key_eq(&self, other: &Self) -> (r: bool) {
        self.value == other.value && self.owner.key_eq(&other.owner) && self.type_.key_eq(
            &other.type_,
        ) && self.intent_hash.key_eq(&other.intent_hash) && self.output_no == other.output_no
    }
}

/// The metadata kept with an unspent output: its creation time, in seconds.
#[derive(Debug, Clone, Copy, PartialEq, Eq, Structural)]
pub struct UtxoMeta {
    pub ctime: u64,
}

/// An input of an unshielded offer: the output it spends, with the owner
/// given by address.
#[derive(Debug, Clone, Copy)]
pub struct UtxoSpend {
    pub value: u128,
    pub owner: UserAddress,
    pub type_: UnshieldedTokenType,
    pub intent_hash: IntentHash,
    pub output_no: u32,
}

impl KeyEq for UtxoSpend {
    fn key_eq(&self, other: &Self) -> (r: bool) {
        self.value == other.value && self.owner.key_eq(&other.owner) && self.type_.key_eq(
            &other.type_,
        ) && self.intent_hash.key_eq(&other.intent_hash) && self.output_no == other.output_no
    }
}

/// An output of an unshielded offer.
#[derive(Debug, Clone, Copy)]
pub struct UtxoOutput {
    pub value: u128,
    pub owner: UserAddress,
    pub type_: UnshieldedTokenType,
}

/// The output that an input spends.
pub open spec fn spec_spend_utxo(s: UtxoSpend) -> Utxo {
    Utxo { value: s.value, owner: s.owner, type_: s.type_, intent_hash: s.intent_hash, output_no: s.output_no }
}

impl Utxo {
    /// The output that `spend` spends.
    pub fn from_spend(spend: &UtxoSpend) -> (r: Utxo)
        ensures
            r == spec_spend_utxo(*spend),
    {
        Utxo {
            value: spend.value,
            owner: spend.owner,
            type_: spend.type_,
            intent_hash: spend.intent_hash,
            output_no: spend.output_no,
        }
    }
}

impl UtxoOutput {
    /// The output with the fields of `utxo`.
    pub fn from_utxo(utxo: &Utxo) -> (r: UtxoOutput)
        ensures
            r.value == utxo.value,
            r.owner == utxo.owner,
            r.type_ == utxo.type_,
    {
        UtxoOutput { value: utxo.value, owner: utxo.owner, type_: utxo.type_ }
    }
}

/// The NIGHT value an output holds: its value if it is NIGHT, else zero.
pub open spec fn night_value(u: Utxo) -> int {
    if u.type_ == spec_night() {
        u.value as int
    } else {
        0
    }
}

/// The weight of a UTXO entry: the NIGHT value of its output.
pub open spec fn utxo_weight() -> spec_fn((Utxo, UtxoMeta)) -> int {
    |e: (Utxo, UtxoMeta)| night_value(e.0)
}

/// A signature slot: a Schnorr signature by its bytes, or a signature
/// erased once it has been verified.
#[derive(Debug, Clone, Copy)]
pub enum Signature {
    Erased,
    Schnorr([u8; 64]),
}

/// An unshielded offer: the outputs it spends, the outputs it creates, and
/// a signature for each input by the input's owner.
#[derive(Debug, Clone)]
pub struct UnshieldedOffer {
    pub inputs: Vec<UtxoSpend>,
    pub outputs: Vec<UtxoOutput>,
    pub signatures: Vec<Signature>,
}

/// Why applying an offer to the UTXO set failed.
#[derive(Debug, Clone, Copy)]
pub enum UtxoError {
    /// The input spends an output that is not in the set.
    InputNotInUtxos(Utxo),
}

/// The set of unspent unshielded outputs.
pub struct UtxoState {
    utxos: Vec<(Utxo, UtxoMeta)>,
    night: u128,
}

impl View for UtxoState {
    type V = Map<Utxo, UtxoMeta>;

    closed spec fn view(&self) -> Map<Utxo, UtxoMeta> {
        seq_to_map(self.utxos@)
    }
}

/// What removing the spent outputs, in order, leaves of `m`, or the first
/// input whose output is not there.
pub open spec fn spec_remove_inputs(m: Map<Utxo, UtxoMeta>, ins: Seq<UtxoSpend>) -> Result<Map<Utxo, UtxoMeta>, Utxo>
    decreases ins.len(),
{
    if ins.len() == 0 {
        Ok(m)
    } else {
        match spec_remove_inputs(m, ins.drop_last()) {
            Ok(m2) => {
                let u = spec_spend_utxo(ins.last());
                if m2.contains_key(u) {
                    Ok(m2.remove(u))
                } else {
                    Err(u)
                }
            },
            Err(u) => Err(u),
        }
    }
}

/// The output that the `i`-th output instruction of an intent creates.
pub open spec fn spec_output_utxo(o: UtxoOutput, intent_hash: IntentHash, i: int) -> Utxo {
    Utxo { value: o.value, owner: o.owner, type_: o.type_, intent_hash, output_no: i as u32 }
}

/// `m` with the outputs of an intent added, each created at `ctime`.
pub open spec fn spec_add_outputs(m: Map<Utxo, UtxoMeta>, outs: Seq<UtxoOutput>, intent_hash: IntentHash, ctime: u64) -> Map<Utxo, UtxoMeta>
    decreases outs.len(),
{
    if outs.len() == 0 {
        m
    } else {
        spec_add_outputs(m, outs.drop_last(), intent_hash, ctime).insert(
            spec_output_utxo(outs.last(), intent_hash, outs.len() - 1),
            UtxoMeta { ctime },
        )
    }
}

/// The sum of the values of a sequence of outputs.
pub open spec fn outputs_value(outs: Seq<UtxoOutput>) -> int
    decreases outs.len(),
{
    if outs.len() == 0 {
        0
    } else {
        outputs_value(outs.drop_last()) + outs.last().value
    }
}

impl UtxoState {
    /// Distinct outputs, and the stored NIGHT value is the sum over them.
    pub closed spec fn wf(&self) -> bool {
        &&& keys_unique(self.utxos@)
        &&& self.night as int == weighted_sum(self.utxos@, utxo_weight())
    }

    /// The NIGHT value held by the set.
    pub closed spec fn spec_night_total(&self) -> int {
        weighted_sum(self.utxos@, utxo_weight())
    }

    /// The number of outputs in the set.
    pub closed spec fn spec_len(&self) -> nat {
        self.utxos@.len()
    }

    /// The NIGHT value at `u`, zero where `u` is absent.
    pub open spec fn night_at(&self, u: Utxo) -> int {
        if self@.contains_key(u) {
            night_value(u)
        } else {
            0
        }
    }

    /// Every output's NIGHT value is within the total, the total fits in a
    /// `u128`, and the number of outputs is the size of the domain.
    pub proof fn lemma_total_facts(&self, u: Utxo)
        requires
            self.wf(),
        ensures
            0 <= self.night_at(u) <= self.spec_night_total() <= u128::MAX,
            self@.dom().finite(),
            self@.dom().len() == self.spec_len(),
    {
        let s = self.utxos@;
        lemma_weighted_sum_nonneg(s, utxo_weight());
        lemma_seq_to_map_dom(s, u);
        if self@.contains_key(u) {
            let i = choose|i: int| 0 <= i < s.len() && #[trigger] s[i].0 == u;
            lemma_weighted_sum_bound(s, i, utxo_weight());
        }
        lemma_seq_to_map_finite(s);
    }

    /// An empty set.
    pub fn new() -> (r: Self)
        ensures
            r.wf(),
            r@ == Map::<Utxo, UtxoMeta>::empty(),
            r.spec_night_total() == 0,
            r.spec_len() == 0,
    {
        let r = UtxoState { utxos: Vec::new(), night: 0 };
        proof {
            assert(r@ =~= Map::<Utxo, UtxoMeta>::empty());
        }
        r
    }

    /// A copy of this set.
    pub fn duplicate(&self) -> (r: Self)
        requires
            self.wf(),
        ensures
            r.wf(),
            r@ == self@,
            r.spec_night_total() == self.spec_night_total(),
            r.spec_len() == self.spec_len(),
    {
        UtxoState { utxos: copy_vec(&self.utxos), night: self.night }
    }

    /// Whether `u` is unspent.
    pub fn contains_key(&self, u: &Utxo) -> (r: bool)
        requires
            self.wf(),
        ensures
            r == self@.contains_key(*u),
    {
        match find_key(&self.utxos, u) {
            Some(i) => {
                proof {
                    lemma_seq_to_map_dom(self.utxos@, *u);
                }
                true
            },
            None => {
                proof {
                    lemma_seq_to_map_dom(self.utxos@, *u);
                }
                false
            },
        }
    }

    /// The metadata of `u`, if it is unspent.
    pub fn get(&self, u: &Utxo) -> (r: Option<UtxoMeta>)
        requires
            self.wf(),
        ensures
            r == (if self@.contains_key(*u) { Some(self@[*u]) } else { None::<UtxoMeta> }),
    {
        match find_key(&self.utxos, u) {
            Some(i) => {
                proof {
                    lemma_seq_to_map_value(self.utxos@, i as int);
                }
                Some(self.utxos[i].1)
            },
            None => {
                proof {
                    lemma_seq_to_map_dom(self.utxos@, *u);
                }
                None
            },
        }
    }

    /// The number of outputs and their NIGHT value.
    pub fn ann(&self) -> (r: NightAnn)
        requires
            self.wf(),
        ensures
            r.size == self.spec_len(),
            r.value == self.spec_night_total(),
    {
        NightAnn { size: self.utxos.len(), value: self.night }
    }

    /// Adds `utxo` with `meta`, replacing the metadata where it is present.
    pub fn insert(&mut self, utxo: Utxo, meta: UtxoMeta)
        requires
            old(self).wf(),
            old(self).spec_night_total() - old(self).night_at(utxo) + night_value(utxo) <= u128::MAX,
        ensures
            final(self).wf(),
            final(self)@ == old(self)@.insert(utxo, meta),
            final(self).spec_night_total() == old(self).spec_night_total() - old(self).night_at(utxo) + night_value(utxo),
            final(self).spec_len() == old(self).spec_len() + (if old(self)@.contains_key(utxo) { 0int } else { 1int }),
    {
        let ghost s = self.utxos@;
        let nv: u128 = if utxo.type_.key_eq(&night()) { utxo.value } else { 0 };
        match find_key(&self.utxos, &utxo) {
            Some(i) => {
                proof {
                    lemma_seq_to_map_value(s, i as int);
                    lemma_seq_to_map_update(s, i as int, meta);
                    lemma_weighted_sum_update(s, i as int, (utxo, meta), utxo_weight());
                }
                self.utxos.set(i, (utxo, meta));
            },
            None => {
                proof {
                    lemma_seq_to_map_dom(s, utxo);
                    lemma_seq_to_map_push(s, utxo, meta);
                    lemma_weighted_sum_push(s, (utxo, meta), utxo_weight());
                }
                let new_night = self.night + nv;
                self.utxos.push((utxo, meta));
                self.night = new_night;
            },
        }
    }

    /// Removes `utxo`, if present.
    pub fn remove(&mut self, utxo: &Utxo)
        requires
            old(self).wf(),
        ensures
            final(self).wf(),
            final(self)@ == old(self)@.remove(*utxo),
            final(self).spec_night_total() == old(self).spec_night_total() - old(self).night_at(*utxo),
            final(self).spec_len() == old(self).spec_len() - (if old(self)@.contains_key(*utxo) { 1int } else { 0int }),
    {
        let ghost s = self.utxos@;
        match find_key(&self.utxos, utxo) {
            Some(i) => {
                proof {
                    lemma_seq_to_map_value(s, i as int);
                    lemma_seq_to_map_remove(s, i as int);
                    lemma_weighted_sum_remove(s, i as int, utxo_weight());
                    lemma_weighted_sum_bound(s, i as int, utxo_weight());
                }
                let nv: u128 = if utxo.type_.key_eq(&night()) { utxo.value } else { 0 };
                let new_night = self.night - nv;
                self.utxos.remove(i);
                self.night = new_night;
            },
            None => {
                proof {
                    lemma_seq_to_map_dom(s, *utxo);
                    assert(seq_to_map(s).remove(*utxo) =~= seq_to_map(s));
                }
            },
        }
    }

    /// Applies an unshielded offer: spends each input in turn, failing on the
    /// first whose output is not unspent, then adds the outputs, numbered by
    /// position, under `intent_hash` and created at `tblock`. On failure the
    /// set is unchanged.
    pub fn apply_offer(&mut self, offer: &UnshieldedOffer, intent_hash: IntentHash, tblock: u64) -> (res: Result<(), UtxoError>)
        requires
            old(self).wf(),
            old(self).spec_night_total() + outputs_value(offer.outputs@) <= u128::MAX,
            offer.outputs@.len() <= u32::MAX,
        ensures
            final(self).wf(),
            match spec_remove_inputs(old(self)@, offer.inputs@) {
                Ok(m) => res is Ok && final(self)@ == spec_add_outputs(m, offer.outputs@, intent_hash, tblock),
                Err(u) => res == Err::<(), UtxoError>(UtxoError::InputNotInUtxos(u)) && final(self)@ == old(self)@,
            },
            final(self).spec_night_total() <= old(self).spec_night_total() + outputs_value(offer.outputs@),
    {
        proof {
            lemma_outputs_value_nonneg(offer.outputs@);
        }
        let mut res = self.duplicate();
        let mut i: usize = 0;
        while i < offer.inputs.len()
            invariant
                res.wf(),
                self.wf(),
                0 <= i <= offer.inputs@.len(),
                spec_remove_inputs(self@, offer.inputs@.take(i as int)) == Ok::<Map<Utxo, UtxoMeta>, Utxo>(res@),
                res.spec_night_total() <= self.spec_night_total(),
                outputs_value(offer.outputs@) >= 0,
            decreases offer.inputs@.len() - i,
        {
            let u = Utxo::from_spend(&offer.inputs[i]);
            proof {
                assert(offer.inputs@.take(i + 1).drop_last() =~= offer.inputs@.take(i as int));
            }
            if !res.contains_key(&u) {
                proof {
                    lemma_remove_inputs_err_extends(self@, offer.inputs@, i as int + 1, u);
                }
                return Err(UtxoError::InputNotInUtxos(u));
            }
            proof {
                res.lemma_total_facts(u);
            }
            res.remove(&u);
            i = i + 1;
        }
        proof {
            assert(offer.inputs@.take(offer.inputs@.len() as int) =~= offer.inputs@);
        }
        let ghost base = res@;
        let ghost base_total = res.spec_night_total();
        let mut j: usize = 0;
        while j < offer.outputs.len()
            invariant
                res.wf(),
                0 <= j <= offer.outputs@.len(),
                offer.outputs@.len() <= u32::MAX,
                res@ == spec_add_outputs(base, offer.outputs@.take(j as int), intent_hash, tblock),
                res.spec_night_total() <= base_total + outputs_value(offer.outputs@.take(j as int)),
                base_total + outputs_value(offer.outputs@) <= u128::MAX,
            decreases offer.outputs@.len() - j,
        {
            let o = offer.outputs[j];
            let u = Utxo { value: o.value, owner: o.owner, type_: o.type_, intent_hash, output_no: j as u32 };
            proof {
                let t = offer.outputs@.take(j as int + 1);
                assert(t.drop_last() =~= offer.outputs@.take(j as int));
                lemma_outputs_value_prefix(offer.outputs@, j as int + 1);
                res.lemma_total_facts(u);
            }
            res.insert(u, UtxoMeta { ctime: tblock });
            j = j + 1;
        }
        proof {
            assert(offer.outputs@.take(offer.outputs@.len() as int) =~= offer.outputs@);
        }
        *self = res;
        Ok(())
    }
}

/// Once removing a prefix of the inputs fails, removing all of them fails
/// with the same output.
proof fn lemma_remove_inputs_err_extends(m: Map<Utxo, UtxoMeta>, ins: Seq<UtxoSpend>, n: int, u: Utxo)
    requires
        0 <= n <= ins.len(),
        spec_remove_inputs(m, ins.take(n)) == Err::<Map<Utxo, UtxoMeta>, Utxo>(u),
    ensures
        spec_remove_inputs(m, ins) == Err::<Map<Utxo, UtxoMeta>, Utxo>(u),
    decreases ins.len() - n,
{
    if n < ins.len() {
        assert(ins.take(n + 1).drop_last() =~= ins.take(n));
        lemma_remove_inputs_err_extends(m, ins, n + 1, u);
    } else {
        assert(ins.take(n) =~= ins);
    }
}

/// The value of a prefix of the outputs is at most the value of them all.
proof fn lemma_outputs_value_prefix(outs: Seq<UtxoOutput>, n: int)
    requires
        0 <= n <= outs.len(),
    ensures
        0 <= outputs_value(outs.take(n)) <= outputs_value(outs),
        n > 0 ==> outputs_value(outs.take(n)) == outputs_value(outs.take(n - 1)) + outs[n - 1].value,
    decreases outs.len() - n,
{
    if n > 0 {
        assert(outs.take(n).drop_last() =~= outs.take(n - 1));
    }
    lemma_outputs_value_nonneg(outs.take(n));
    if n < outs.len() {
        lemma_outputs_value_prefix(outs, n + 1);
        assert(outs.take(n + 1).drop_last() =~= outs.take(n));
    } else {
        assert(outs.take(n) =~= outs);
    }
}

/// The value of a sequence of outputs is not negative.
pub proof fn lemma_outputs_value_nonneg(outs: Seq<UtxoOutput>)
    ensures
        outputs_value(outs) >= 0,
    decreases outs.len(),
{
    if outs.len() > 0 {
        lemma_outputs_value_nonneg(outs.drop_last());
    }
}

impl NightAnn {
    /// The annotation of one output: a count of one, and its NIGHT value.
    pub fn from_value(utxo: &Utxo) -> (r: NightAnn)
        ensures
            r.size == 1,
            r.value == night_value(*utxo),
    {
        let nt = night();
        NightAnn { size: 1, value: if utxo.type_.key_eq(&nt) { utxo.value } else { 0 } }
    }
}

/// What removing the inputs leaves holds none of their outputs.
proof fn lemma_remove_inputs_gone(m: Map<Utxo, UtxoMeta>, ins: Seq<UtxoSpend>, k: int)
    requires
        0 <= k < ins.len(),
        spec_remove_inputs(m, ins) is Ok,
    ensures
        !spec_remove_inputs(m, ins)->Ok_0.contains_key(spec_spend_utxo(ins[k])),
    decreases ins.len(),
{
    if k < ins.len() - 1 {
        lemma_remove_inputs_gone(m, ins.drop_last(), k);
    }
}

/// An offer that spends the same output twice cannot be applied: the
/// second spend finds the output gone.
pub proof fn lemma_repeated_input_refused(m: Map<Utxo, UtxoMeta>, ins: Seq<UtxoSpend>, i: int, j: int)
    requires
        0 <= i < j < ins.len(),
        ins[i] == ins[j],
    ensures
        spec_remove_inputs(m, ins) is Err,
{
    let pre = ins.take(j);
    let upto = ins.take(j + 1);
    assert(upto.drop_last() =~= pre);
    if spec_remove_inputs(m, pre) is Ok {
        assert(pre[i] == ins[i]);
        lemma_remove_inputs_gone(m, pre, i);
    }
    let u = spec_remove_inputs(m, upto)->Err_0;
    lemma_remove_inputs_err_extends(m, ins, j + 1, u);
}

/// Adding the outputs of an intent creates, for the `k`-th output, the
/// output with its value, owner and type under the intent's hash and
/// number `k`, created at `ctime`; every other output keeps what it had.
pub proof fn lemma_add_outputs_numbered(m: Map<Utxo, UtxoMeta>, outs: Seq<UtxoOutput>, intent_hash: IntentHash, ctime: u64)
    requires
        outs.len() <= u32::MAX + 1,
    ensures
        forall|k: int| #![trigger outs[k]] 0 <= k < outs.len() ==> {
            let u = (Utxo { value: outs[k].value, owner: outs[k].owner, type_: outs[k].type_, intent_hash, output_no: k as u32 });
            spec_add_outputs(m, outs, intent_hash, ctime).contains_key(u) && spec_add_outputs(m, outs, intent_hash, ctime)[u]
                == (UtxoMeta { ctime })
        },
        forall|u: Utxo| !(u.intent_hash == intent_hash && u.output_no < outs.len()) ==> (#[trigger] spec_add_outputs(
            m,
            outs,
            intent_hash,
            ctime,
        ).contains_key(u) == m.contains_key(u) && (m.contains_key(u) ==> spec_add_outputs(m, outs, intent_hash, ctime)[u] == m[u])),
    decreases outs.len(),
{
    if outs.len() > 0 {
        let n = outs.len() - 1;
        lemma_add_outputs_numbered(m, outs.drop_last(), intent_hash, ctime);
        assert forall|k: int| #![trigger outs[k]] 0 <= k < outs.len() implies {
            let u = (Utxo { value: outs[k].value, owner: outs[k].owner, type_: outs[k].type_, intent_hash, output_no: k as u32 });
            spec_add_outputs(m, outs, intent_hash, ctime).contains_key(u) && spec_add_outputs(m, outs, intent_hash, ctime)[u]
                == (UtxoMeta { ctime })
        } by {
            if k < n {
                assert(outs.drop_last()[k] == outs[k]);
                assert((k as u32) != (n as u32));
            }
        }
        assert forall|u: Utxo| !(u.intent_hash == intent_hash && u.output_no < outs.len()) implies (#[trigger] spec_add_outputs(
            m,
            outs,
            intent_hash,
            ctime,
        ).contains_key(u) == m.contains_key(u) && (m.contains_key(u) ==> spec_add_outputs(m, outs, intent_hash, ctime)[u] == m[u])) by {
            assert(!(u.intent_hash == intent_hash && u.output_no < outs.drop_last().len()));
            assert(spec_add_outputs(m, outs.drop_last(), intent_hash, ctime).contains_key(u) == m.contains_key(u));
        }
    }
}

/// Removing the spent outputs leaves exactly the outputs of `m` that no
/// input spends, each with what it had; a failure names an output that an
/// input spends.
pub proof fn lemma_remove_inputs_spends(m: Map<Utxo, UtxoMeta>, ins: Seq<UtxoSpend>)
    ensures
        spec_remove_inputs(m, ins) matches Ok(m2) ==> forall|u: Utxo| (#[trigger] m2.contains_key(u) <==> m.contains_key(u) && !(exists|j: int|
            0 <= j < ins.len() && u == (Utxo {
                value: ins[j].value,
                owner: ins[j].owner,
                type_: ins[j].type_,
                intent_hash: ins[j].intent_hash,
                output_no: ins[j].output_no,
            }))) && (m2.contains_key(u) ==> m2[u] == m[u]),
        spec_remove_inputs(m, ins) matches Err(u) ==> exists|j: int| 0 <= j < ins.len() && u == (Utxo {
            value: ins[j].value,
            owner: ins[j].owner,
            type_: ins[j].type_,
            intent_hash: ins[j].intent_hash,
            output_no: ins[j].output_no,
        }),
    decreases ins.len(),
{
    if ins.len() > 0 {
        let p = ins.drop_last();
        lemma_remove_inputs_spends(m, p);
        let last = ins.len() - 1;
        match spec_remove_inputs(m, ins) {
            Ok(m2) => {
                let m1 = spec_remove_inputs(m, p)->Ok_0;
                assert forall|u: Utxo| #[trigger] m2.contains_key(u) <==> m.contains_key(u) && !(exists|j: int|
                    0 <= j < ins.len() && u == (Utxo {
                        value: ins[j].value,
                        owner: ins[j].owner,
                        type_: ins[j].type_,
                        intent_hash: ins[j].intent_hash,
                        output_no: ins[j].output_no,
                    })) by {
                    if exists|j: int| 0 <= j < ins.len() && u == (Utxo {
                        value: ins[j].value,
                        owner: ins[j].owner,
                        type_: ins[j].type_,
                        intent_hash: ins[j].intent_hash,
                        output_no: ins[j].output_no,
                    }) {
                        let j = choose|j: int| 0 <= j < ins.len() && u == (Utxo {
                            value: ins[j].value,
                            owner: ins[j].owner,
                            type_: ins[j].type_,
                            intent_hash: ins[j].intent_hash,
                            output_no: ins[j].output_no,
                        });
                        if j < last {
                            assert(p[j] == ins[j]);
                            assert(!m1.contains_key(u));
                        }
                    } else {
                        assert forall|j: int| 0 <= j < p.len() implies u != (Utxo {
                            value: p[j].value,
                            owner: p[j].owner,
                            type_: p[j].type_,
                            intent_hash: p[j].intent_hash,
                            output_no: p[j].output_no,
                        }) by {
                            assert(p[j] == ins[j]);
                        }
                    }
                }
            },
            Err(u) => {
                match spec_remove_inputs(m, p) {
                    Ok(_) => {
                        assert(u == (Utxo {
                            value: ins[last].value,
                            owner: ins[last].owner,
                            type_: ins[last].type_,
                            intent_hash: ins[last].intent_hash,
                            output_no: ins[last].output_no,
                        }));
                    },
                    Err(_) => {
                        let j = choose|j: int| 0 <= j < p.len() && u == (Utxo {
                            value: p[j].value,
                            owner: p[j].owner,
                            type_: p[j].type_,
                            intent_hash: p[j].intent_hash,
                            output_no: p[j].output_no,
                        });
                        assert(p[j] == ins[j]);
                    },
                }
            },
        }
    }
}

} // verus!
