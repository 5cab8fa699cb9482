//! The disjointness check of a standard transaction: no shielded input, and
//! no shielded output, occurs in two of its shielded offers, and no
//! unshielded input is spent by two of its unshielded offers.
use vstd::prelude::*;
use crate::intent::{ZswapInput, ZswapOutput, ZswapTransient, ZswapOffer, Intent, StandardTransaction};
use crate::utxo::{UnshieldedOffer, UtxoSpend};
use crate::counting::{
    flat_map, lemma_flat_map_take, lemma_flat_map_append, intersects, distinct_values, extend_with,
    lists_each_once, meets,
};

verus! {

/// Why the disjointness check refused a transaction: the inputs (or
/// outputs) gathered so far, and those of the offer that repeats one.
#[derive(Debug, Clone)]
pub enum DisjointCheckError {
    ShieldedInputsDisjointFailure { shielded_inputs: Vec<ZswapInput>, transient_inputs: Vec<ZswapInput> },
    ShieldedOutputsDisjointFailure { shielded_outputs: Vec<ZswapOutput>, transient_outputs: Vec<ZswapOutput> },
    UnshieldedInputsDisjointFailure { unshielded_inputs: Vec<UtxoSpend>, offer_inputs: Vec<UtxoSpend> },
}

/// The input side of a transient coin.
pub open spec fn as_input(t: ZswapTransient) -> ZswapInput {
    ZswapInput { nullifier: t.nullifier, contract_address: t.contract_address }
}

/// The output side of a transient coin.
pub open spec fn as_output(t: ZswapTransient) -> ZswapOutput {
    ZswapOutput { coin_com: t.coin_com, contract_address: t.contract_address }
}

/// The inputs of a shielded offer, its transient coins included.
pub open spec fn offer_inputs_of(o: ZswapOffer) -> Seq<ZswapInput> {
    o.inputs@ + o.transient@.map_values(|t: ZswapTransient| as_input(t))
}

/// The outputs of a shielded offer, its transient coins included.
pub open spec fn offer_outputs_of(o: ZswapOffer) -> Seq<ZswapOutput> {
    o.outputs@ + o.transient@.map_values(|t: ZswapTransient| as_output(t))
}

/// The shielded offers: the guaranteed one, then the fallible ones.
pub open spec fn shielded_offers(tx: StandardTransaction) -> Seq<ZswapOffer> {
    (match tx.guaranteed_coins {
        Some(g) => seq![g],
        None => Seq::empty(),
    }) + tx.fallible_coins@.map_values(|so: (u16, ZswapOffer)| so.1)
}

/// The inputs of the first `i` shielded offers.
pub open spec fn inputs_before(offers: Seq<ZswapOffer>, i: int) -> Seq<ZswapInput> {
    flat_map(offers.take(i), |o: ZswapOffer| offer_inputs_of(o))
}

/// The outputs of the first `i` shielded offers.
pub open spec fn outputs_before(offers: Seq<ZswapOffer>, i: int) -> Seq<ZswapOutput> {
    flat_map(offers.take(i), |o: ZswapOffer| offer_outputs_of(o))
}

/// The first shielded offer from `i` on that repeats an earlier input
/// (`true`) or, failing that, an earlier output (`false`).
pub open spec fn shielded_clash_from(offers: Seq<ZswapOffer>, i: int) -> Option<(bool, int)>
    decreases offers.len() - i,
{
    if i < 0 || i >= offers.len() {
        None
    } else if meets(inputs_before(offers, i), offer_inputs_of(offers[i])) {
        Some((true, i))
    } else if meets(outputs_before(offers, i), offer_outputs_of(offers[i])) {
        Some((false, i))
    } else {
        shielded_clash_from(offers, i + 1)
    }
}

/// The unshielded offers of the intents: for each, the guaranteed one then
/// the fallible one, where present.
pub open spec fn unshielded_offers(tx: StandardTransaction) -> Seq<Option<UnshieldedOffer>> {
    flat_map(tx.intents@, |si: (u16, Intent)| seq![si.1.guaranteed_unshielded_offer, si.1.fallible_unshielded_offer])
}

/// The inputs of an optional unshielded offer.
pub open spec fn spend_inputs(o: Option<UnshieldedOffer>) -> Seq<UtxoSpend> {
    match o {
        Some(o) => o.inputs@,
        None => Seq::empty(),
    }
}

/// The inputs of the first `i` unshielded offers.
pub open spec fn spends_before(offers: Seq<Option<UnshieldedOffer>>, i: int) -> Seq<UtxoSpend> {
    flat_map(offers.take(i), |o: Option<UnshieldedOffer>| spend_inputs(o))
}

/// The first unshielded offer from `i` on that spends an input spent
/// before.
pub open spec fn unshielded_clash_from(offers: Seq<Option<UnshieldedOffer>>, i: int) -> Option<int>
    decreases offers.len() - i,
{
    if i < 0 || i >= offers.len() {
        None
    } else if meets(spends_before(offers, i), spend_inputs(offers[i])) {
        Some(i)
    } else {
        unshielded_clash_from(offers, i + 1)
    }
}

/// The inputs and the outputs of a shielded offer.
fn offer_sides(o: &ZswapOffer) -> (r: (Vec<ZswapInput>, Vec<ZswapOutput>))
    ensures
        r.0@ == offer_inputs_of(*o),
        r.1@ == offer_outputs_of(*o),
{
    let mut ins: Vec<ZswapInput> = Vec::new();
    extend_with(&mut ins, &o.inputs);
    let mut outs: Vec<ZswapOutput> = Vec::new();
    extend_with(&mut outs, &o.outputs);
    let ghost ti = o.transient@.map_values(|t: ZswapTransient| as_input(t));
    let ghost to = o.transient@.map_values(|t: ZswapTransient| as_output(t));
    let mut i: usize = 0;
    while i < o.transient.len()
        invariant
            0 <= i <= o.transient@.len(),
            ti == o.transient@.map_values(|t: ZswapTransient| as_input(t)),
            to == o.transient@.map_values(|t: ZswapTransient| as_output(t)),
            ins@ == o.inputs@ + ti.take(i as int),
            outs@ == o.outputs@ + to.take(i as int),
        decreases o.transient@.len() - i,
    {
        let t = o.transient[i];
        ins.push(ZswapInput { nullifier: t.nullifier, contract_address: t.contract_address });
        outs.push(ZswapOutput { coin_com: t.coin_com, contract_address: t.contract_address });
        assert(ti.take(i as int + 1) =~= ti.take(i as int).push(ti[i as int]));
        assert(to.take(i as int + 1) =~= to.take(i as int).push(to[i as int]));
        i = i + 1;
    }
    assert(ti.take(o.transient@.len() as int) =~= ti);
    assert(to.take(o.transient@.len() as int) =~= to);
    (ins, outs)
}

/// Checks the shielded offer at position `i` against the inputs and outputs
/// of those before it, and adds its own.
fn shielded_step(
    acc_in: &mut Vec<ZswapInput>,
    acc_out: &mut Vec<ZswapOutput>,
    o: &ZswapOffer,
    Ghost(offers): Ghost<Seq<ZswapOffer>>,
    Ghost(i): Ghost<int>,
) -> (res: Result<(), DisjointCheckError>)
    requires
        0 <= i < offers.len(),
        offers[i] == *o,
        old(acc_in)@ == inputs_before(offers, i),
        old(acc_out)@ == outputs_before(offers, i),
    ensures
        match res {
            Ok(()) => {
                &&& !meets(inputs_before(offers, i), offer_inputs_of(offers[i]))
                &&& !meets(outputs_before(offers, i), offer_outputs_of(offers[i]))
                &&& final(acc_in)@ == inputs_before(offers, i + 1)
                &&& final(acc_out)@ == outputs_before(offers, i + 1)
            },
            Err(DisjointCheckError::ShieldedInputsDisjointFailure { shielded_inputs, transient_inputs }) => {
                &&& meets(inputs_before(offers, i), offer_inputs_of(offers[i]))
                &&& lists_each_once(inputs_before(offers, i), shielded_inputs@)
                &&& lists_each_once(offer_inputs_of(offers[i]), transient_inputs@)
            },
            Err(DisjointCheckError::ShieldedOutputsDisjointFailure { shielded_outputs, transient_outputs }) => {
                &&& !meets(inputs_before(offers, i), offer_inputs_of(offers[i]))
                &&& meets(outputs_before(offers, i), offer_outputs_of(offers[i]))
                &&& lists_each_once(outputs_before(offers, i), shielded_outputs@)
                &&& lists_each_once(offer_outputs_of(offers[i]), transient_outputs@)
            },
            _ => false,
        },
{
    let (ins, outs) = offer_sides(o);
    if intersects(acc_in, &ins) {
        return Err(DisjointCheckError::ShieldedInputsDisjointFailure {
            shielded_inputs: distinct_values(acc_in),
            transient_inputs: distinct_values(&ins),
        });
    }
    if intersects(acc_out, &outs) {
        return Err(DisjointCheckError::ShieldedOutputsDisjointFailure {
            shielded_outputs: distinct_values(acc_out),
            transient_outputs: distinct_values(&outs),
        });
    }
    extend_with(acc_in, &ins);
    extend_with(acc_out, &outs);
    proof {
        lemma_flat_map_take(offers, |o: ZswapOffer| offer_inputs_of(o), i);
        lemma_flat_map_take(offers, |o: ZswapOffer| offer_outputs_of(o), i);
    }
    Ok(())
}

/// Checks the unshielded offer at position `i` against the inputs spent
/// before it, and adds its own.
fn unshielded_step(
    acc: &mut Vec<UtxoSpend>,
    o: &Option<UnshieldedOffer>,
    Ghost(offers): Ghost<Seq<Option<UnshieldedOffer>>>,
    Ghost(i): Ghost<int>,
) -> (res: Result<(), DisjointCheckError>)
    requires
        0 <= i < offers.len(),
        offers[i] == *o,
        old(acc)@ == spends_before(offers, i),
    ensures
        match res {
            Ok(()) => {
                &&& !meets(spends_before(offers, i), spend_inputs(offers[i]))
                &&& final(acc)@ == spends_before(offers, i + 1)
            },
            Err(DisjointCheckError::UnshieldedInputsDisjointFailure { unshielded_inputs, offer_inputs }) => {
                &&& meets(spends_before(offers, i), spend_inputs(offers[i]))
                &&& lists_each_once(spends_before(offers, i), unshielded_inputs@)
                &&& lists_each_once(spend_inputs(offers[i]), offer_inputs@)
            },
            _ => false,
        },
{
    let mut ins: Vec<UtxoSpend> = Vec::new();
    match o {
        Some(offer) => extend_with(&mut ins, &offer.inputs),
        None => {},
    }
    assert(ins@ =~= spend_inputs(offers[i]));
    if intersects(acc, &ins) {
        return Err(DisjointCheckError::UnshieldedInputsDisjointFailure {
            unshielded_inputs: distinct_values(acc),
            offer_inputs: distinct_values(&ins),
        });
    }
    extend_with(acc, &ins);
    proof {
        lemma_flat_map_take(offers, |o: Option<UnshieldedOffer>| spend_inputs(o), i);
    }
    Ok(())
}

/// Each intent contributes two unshielded offers.
proof fn lemma_flat_map_len_two(s: Seq<(u16, Intent)>, f: spec_fn((u16, Intent)) -> Seq<Option<UnshieldedOffer>>)
    requires
        f == (|si: (u16, Intent)| seq![si.1.guaranteed_unshielded_offer, si.1.fallible_unshielded_offer]),
    ensures
        flat_map(s, f).len() == 2 * s.len(),
    decreases s.len(),
{
    if s.len() > 0 {
        lemma_flat_map_len_two(s.drop_last(), f);
    }
}

/// The first clash is found by scanning: where the scan has passed `i`
/// offers without one, the first from zero is the first from `i`.
proof fn lemma_shielded_scan(offers: Seq<ZswapOffer>, i: int)
    requires
        0 <= i < offers.len(),
        !meets(inputs_before(offers, i), offer_inputs_of(offers[i])),
        !meets(outputs_before(offers, i), offer_outputs_of(offers[i])),
    ensures
        shielded_clash_from(offers, i) == shielded_clash_from(offers, i + 1),
{
}

impl StandardTransaction {
    /// Checks that no shielded input or output occurs in two shielded offers
    /// (the guaranteed one first, then the fallible ones), and that no
    /// unshielded input is spent by two unshielded offers (intent by intent,
    /// guaranteed before fallible). The first offer that repeats one is
    /// reported, with what was gathered before it.
    pub fn disjoint_check(&self) -> (res: Result<(), DisjointCheckError>)
        ensures
            ({
                let so = shielded_offers(*self);
                let uo = unshielded_offers(*self);
                match shielded_clash_from(so, 0) {
                    Some((true, i)) => res matches Err(DisjointCheckError::ShieldedInputsDisjointFailure { shielded_inputs, transient_inputs })
                        && lists_each_once(inputs_before(so, i), shielded_inputs@)
                        && lists_each_once(offer_inputs_of(so[i]), transient_inputs@),
                    Some((false, i)) => res matches Err(DisjointCheckError::ShieldedOutputsDisjointFailure { shielded_outputs, transient_outputs })
                        && lists_each_once(outputs_before(so, i), shielded_outputs@)
                        && lists_each_once(offer_outputs_of(so[i]), transient_outputs@),
                    None => match unshielded_clash_from(uo, 0) {
                        Some(i) => res matches Err(DisjointCheckError::UnshieldedInputsDisjointFailure { unshielded_inputs, offer_inputs })
                            && lists_each_once(spends_before(uo, i), unshielded_inputs@)
                            && lists_each_once(spend_inputs(uo[i]), offer_inputs@),
                        None => res is Ok,
                    },
                }
            }),
    {
        let ghost so = shielded_offers(*self);
        let ghost uo = unshielded_offers(*self);
        let mut acc_in: Vec<ZswapInput> = Vec::new();
        let mut acc_out: Vec<ZswapOutput> = Vec::new();
        proof {
            assert(so.take(0) =~= Seq::<ZswapOffer>::empty());
            assert(acc_in@ =~= inputs_before(so, 0));
            assert(acc_out@ =~= outputs_before(so, 0));
        }
        let base: usize = match &self.guaranteed_coins {
            Some(g) => {
                proof {
                    assert(so[0] == *g);
                }
                match shielded_step(&mut acc_in, &mut acc_out, g, Ghost(so), Ghost(0)) {
                    Ok(()) => {
                        proof {
                            lemma_shielded_scan(so, 0);
                        }
                    },
                    Err(e) => return Err(e),
                }
                1
            },
            None => 0,
        };
        assert(so.len() == base + self.fallible_coins@.len());
        let mut i: usize = 0;
        while i < self.fallible_coins.len()
            invariant
                0 <= i <= self.fallible_coins@.len(),
                so == shielded_offers(*self),
                so.len() == base + self.fallible_coins@.len(),
                base <= 1,
                forall|k: int| 0 <= k < self.fallible_coins@.len() ==> so[base + k] == #[trigger] self.fallible_coins@[k].1,
                acc_in@ == inputs_before(so, base + i),
                acc_out@ == outputs_before(so, base + i),
                shielded_clash_from(so, 0) == shielded_clash_from(so, base + i),
            decreases self.fallible_coins@.len() - i,
        {
            proof {
                assert(so[base + i] == self.fallible_coins@[i as int].1);
            }
            match shielded_step(&mut acc_in, &mut acc_out, &self.fallible_coins[i].1, Ghost(so), Ghost(base + i)) {
                Ok(()) => {
                    proof {
                        lemma_shielded_scan(so, base + i);
                    }
                },
                Err(e) => return Err(e),
            }
            i = i + 1;
        }
        let mut acc: Vec<UtxoSpend> = Vec::new();
        proof {
            assert(uo.take(0) =~= Seq::<Option<UnshieldedOffer>>::empty());
            assert(acc@ =~= spends_before(uo, 0));
        }
        let ghost fi = |si: (u16, Intent)| seq![si.1.guaranteed_unshielded_offer, si.1.fallible_unshielded_offer];
        let mut k: usize = 0;
        while k < self.intents.len()
            invariant
                0 <= k <= self.intents@.len(),
                uo == unshielded_offers(*self),
                so == shielded_offers(*self),
                fi == (|si: (u16, Intent)| seq![si.1.guaranteed_unshielded_offer, si.1.fallible_unshielded_offer]),
                uo == flat_map(self.intents@, fi),
                shielded_clash_from(so, 0) is None,
                acc@ == spends_before(uo, 2 * k),
                unshielded_clash_from(uo, 0) == unshielded_clash_from(uo, 2 * k),
            decreases self.intents@.len() - k,
        {
            proof {
                lemma_flat_map_take(self.intents@, fi, k as int);
                lemma_flat_map_append(self.intents@.take(k as int + 1), self.intents@.skip(k as int + 1), fi);
                assert(self.intents@.take(k as int + 1) + self.intents@.skip(k as int + 1) =~= self.intents@);
                assert(flat_map(self.intents@.take(k as int), fi).len() == 2 * k) by {
                    lemma_flat_map_len_two(self.intents@.take(k as int), fi);
                }
                lemma_flat_map_len_two(self.intents@, fi);
                assert(uo.len() == 2 * self.intents@.len());
                assert(uo[2 * k] == self.intents@[k as int].1.guaranteed_unshielded_offer);
                assert(uo[2 * k + 1] == self.intents@[k as int].1.fallible_unshielded_offer);
            }
            match unshielded_step(&mut acc, &self.intents[k].1.guaranteed_unshielded_offer, Ghost(uo), Ghost(2 * k as int)) {
                Ok(()) => {
                    assert(unshielded_clash_from(uo, 2 * k) == unshielded_clash_from(uo, 2 * k + 1));
                },
                Err(e) => {
                    assert(unshielded_clash_from(uo, 2 * k) == Some(2 * k as int));
                    return Err(e);
                },
            }
            match unshielded_step(&mut acc, &self.intents[k].1.fallible_unshielded_offer, Ghost(uo), Ghost(2 * k as int + 1)) {
                Ok(()) => {
                    assert(unshielded_clash_from(uo, 2 * k + 1) == unshielded_clash_from(uo, 2 * k + 2));
                },
                Err(e) => {
                    assert(unshielded_clash_from(uo, 2 * k + 1) == Some(2 * k as int + 1));
                    return Err(e);
                },
            }
            k = k + 1;
        }
        proof {
            lemma_flat_map_len_two(self.intents@, fi);
        }
        Ok(())
    }
}

/// Where no clash is found from `i` on, no offer from `i` on repeats an
/// input or an output of an earlier one.
proof fn lemma_no_shielded_clash(offers: Seq<ZswapOffer>, i: int, j: int)
    requires
        0 <= i <= j < offers.len(),
        shielded_clash_from(offers, i) is None,
    ensures
        !meets(inputs_before(offers, j), offer_inputs_of(offers[j])),
        !meets(outputs_before(offers, j), offer_outputs_of(offers[j])),
    decreases j - i,
{
    if i < j {
        lemma_no_shielded_clash(offers, i + 1, j);
    }
}

/// The inputs and outputs of an offer are among those gathered after it.
proof fn lemma_before_contains(offers: Seq<ZswapOffer>, i: int, j: int)
    requires
        0 <= i < j <= offers.len(),
    ensures
        forall|x: ZswapInput| offer_inputs_of(offers[i]).contains(x) ==> #[trigger] inputs_before(offers, j).contains(x),
        forall|x: ZswapOutput| offer_outputs_of(offers[i]).contains(x) ==> #[trigger] outputs_before(offers, j).contains(x),
    decreases j - i,
{
    let fi = |o: ZswapOffer| offer_inputs_of(o);
    let fo = |o: ZswapOffer| offer_outputs_of(o);
    lemma_flat_map_take(offers, fi, j - 1);
    lemma_flat_map_take(offers, fo, j - 1);
    if i < j - 1 {
        lemma_before_contains(offers, i, j - 1);
        assert forall|x: ZswapInput| offer_inputs_of(offers[i]).contains(x) implies #[trigger] inputs_before(offers, j).contains(x) by {
            let a = inputs_before(offers, j - 1);
            assert(a.contains(x));
            let k = choose|k: int| 0 <= k < a.len() && a[k] == x;
            assert(inputs_before(offers, j)[k] == x);
        }
        assert forall|x: ZswapOutput| offer_outputs_of(offers[i]).contains(x) implies #[trigger] outputs_before(offers, j).contains(x) by {
            let a = outputs_before(offers, j - 1);
            assert(a.contains(x));
            let k = choose|k: int| 0 <= k < a.len() && a[k] == x;
            assert(outputs_before(offers, j)[k] == x);
        }
    } else {
        assert forall|x: ZswapInput| offer_inputs_of(offers[i]).contains(x) implies #[trigger] inputs_before(offers, j).contains(x) by {
            let b = offer_inputs_of(offers[i]);
            let k = choose|k: int| 0 <= k < b.len() && b[k] == x;
            assert(inputs_before(offers, j)[inputs_before(offers, i).len() + k] == x);
        }
        assert forall|x: ZswapOutput| offer_outputs_of(offers[i]).contains(x) implies #[trigger] outputs_before(offers, j).contains(x) by {
            let b = offer_outputs_of(offers[i]);
            let k = choose|k: int| 0 <= k < b.len() && b[k] == x;
            assert(outputs_before(offers, j)[outputs_before(offers, i).len() + k] == x);
        }
    }
}

/// When the shielded part of the disjointness check passes, no two shielded
/// offers share an input, and no two share an output.
pub proof fn lemma_shielded_offers_disjoint(tx: StandardTransaction, i: int, j: int)
    requires
        shielded_clash_from(shielded_offers(tx), 0) is None,
        0 <= i < j < shielded_offers(tx).len(),
    ensures
        !meets(offer_inputs_of(shielded_offers(tx)[i]), offer_inputs_of(shielded_offers(tx)[j])),
        !meets(offer_outputs_of(shielded_offers(tx)[i]), offer_outputs_of(shielded_offers(tx)[j])),
{
    let offers = shielded_offers(tx);
    lemma_no_shielded_clash(offers, 0, j);
    lemma_before_contains(offers, i, j);
    if meets(offer_inputs_of(offers[i]), offer_inputs_of(offers[j])) {
        let x = choose|x: ZswapInput| offer_inputs_of(offers[i]).contains(x) && offer_inputs_of(offers[j]).contains(x);
        assert(inputs_before(offers, j).contains(x));
    }
    if meets(offer_outputs_of(offers[i]), offer_outputs_of(offers[j])) {
        let x = choose|x: ZswapOutput| offer_outputs_of(offers[i]).contains(x) && offer_outputs_of(offers[j]).contains(x);
        assert(outputs_before(offers, j).contains(x));
    }
}

/// Where no clash is found from `i` on, no unshielded offer from `i` on
/// spends an input spent before it.
proof fn lemma_no_unshielded_clash(offers: Seq<Option<UnshieldedOffer>>, i: int, j: int)
    requires
        0 <= i <= j < offers.len(),
        unshielded_clash_from(offers, i) is None,
    ensures
        !meets(spends_before(offers, j), spend_inputs(offers[j])),
    decreases j - i,
{
    if i < j {
        lemma_no_unshielded_clash(offers, i + 1, j);
    }
}

/// The inputs of an unshielded offer are among those gathered after it.
proof fn lemma_spends_before_contains(offers: Seq<Option<UnshieldedOffer>>, i: int, j: int)
    requires
        0 <= i < j <= offers.len(),
    ensures
        forall|x: UtxoSpend| spend_inputs(offers[i]).contains(x) ==> #[trigger] spends_before(offers, j).contains(x),
    decreases j - i,
{
    let f = |o: Option<UnshieldedOffer>| spend_inputs(o);
    lemma_flat_map_take(offers, f, j - 1);
    if i < j - 1 {
        lemma_spends_before_contains(offers, i, j - 1);
        assert forall|x: UtxoSpend| spend_inputs(offers[i]).contains(x) implies #[trigger] spends_before(offers, j).contains(x) by {
            let a = spends_before(offers, j - 1);
            assert(a.contains(x));
            let k = choose|k: int| 0 <= k < a.len() && a[k] == x;
            assert(spends_before(offers, j)[k] == x);
        }
    } else {
        assert forall|x: UtxoSpend| spend_inputs(offers[i]).contains(x) implies #[trigger] spends_before(offers, j).contains(x) by {
            let b = spend_inputs(offers[i]);
            let k = choose|k: int| 0 <= k < b.len() && b[k] == x;
            assert(spends_before(offers, j)[spends_before(offers, i).len() + k] == x);
        }
    }
}

/// When the unshielded part of the disjointness check passes, no two
/// unshielded offers spend the same input.
pub proof fn lemma_unshielded_offers_disjoint(tx: StandardTransaction, i: int, j: int)
    requires
        unshielded_clash_from(unshielded_offers(tx), 0) is None,
        0 <= i < j < unshielded_offers(tx).len(),
    ensures
        !meets(spend_inputs(unshielded_offers(tx)[i]), spend_inputs(unshielded_offers(tx)[j])),
{
    let offers = unshielded_offers(tx);
    lemma_no_unshielded_clash(offers, 0, j);
    lemma_spends_before_contains(offers, i, j);
    if meets(spend_inputs(offers[i]), spend_inputs(offers[j])) {
        let x = choose|x: UtxoSpend| spend_inputs(offers[i]).contains(x) && spend_inputs(offers[j]).contains(x);
        assert(spends_before(offers, j).contains(x));
    }
}

} // verus!
