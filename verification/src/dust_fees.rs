//! The fee stage of applying a transaction's guaranteed section. Every DUST
//! spend of every intent, in segment order, is applied first and pays its
//! fee, so that registrations hand out as much DUST as they can; then every
//! registration pays what fees remain from the DUST its NIGHT has accrued
//! and hands the rest out over its new NIGHT outputs.
use vstd::prelude::*;
use crate::dust::{DustState, DustView, DustEvent, DustParameters, InitialNonce, spec_sat_sub, sat_sub};
use crate::dust_registration::{spec_apply_spend, spec_apply_registration, guaranteed_inputs, guaranteed_outputs};
use crate::intent::{Intent, DustSpend, DustRegistration};
use crate::utxo::{UtxoState, Utxo, UtxoMeta};
use crate::ledger::TransactionInvalid;

verus! {

/// Applies the first `n` spends, each declared at `ctime`; each lowers the
/// fees still to pay by its own fee, down to zero.
pub open spec fn spends_fold(
    v: DustView,
    fees: u128,
    spends: Seq<DustSpend>,
    ctime: u64,
    tblock: u64,
    n: int,
) -> Result<(DustView, u128, Seq<DustEvent>), TransactionInvalid>
    decreases n,
{
    if n <= 0 {
        Ok((v, fees, Seq::empty()))
    } else {
        match spends_fold(v, fees, spends, ctime, tblock, n - 1) {
            Err(e) => Err(e),
            Ok((v1, f1, e1)) => match spec_apply_spend(v1, spends[n - 1], ctime, tblock) {
                Err(e) => Err(e),
                Ok((v2, ev)) => Ok((v2, spec_sat_sub(f1, spends[n - 1].v_fee), e1.push(ev))),
            },
        }
    }
}

/// Applies the first `n` registrations of `parent`'s DUST actions.
pub open spec fn registrations_fold(
    v: DustView,
    utxos: Map<Utxo, UtxoMeta>,
    fees: u128,
    parent: Intent,
    regs: Seq<DustRegistration>,
    input_nonces: Seq<InitialNonce>,
    output_nonces: Seq<InitialNonce>,
    params: DustParameters,
    tnow: u64,
    tblock: u64,
    n: int,
) -> Result<(DustView, u128, Seq<DustEvent>), TransactionInvalid>
    decreases n,
{
    if n <= 0 {
        Ok((v, fees, Seq::empty()))
    } else {
        match registrations_fold(v, utxos, fees, parent, regs, input_nonces, output_nonces, params, tnow, tblock, n - 1) {
            Err(e) => Err(e),
            Ok((v1, f1, e1)) => match spec_apply_registration(
                v1,
                utxos,
                f1,
                parent,
                regs[n - 1],
                input_nonces,
                output_nonces,
                params,
                tnow,
                tblock,
            ) {
                Err(e) => Err(e),
                Ok((v2, f2, e2)) => Ok((v2, f2, e1 + e2)),
            },
        }
    }
}

/// Applies the spends of the first `m` intents, in order.
pub open spec fn intents_spends_fold(
    v: DustView,
    fees: u128,
    intents: Seq<(u16, Intent)>,
    tblock: u64,
    m: int,
) -> Result<(DustView, u128, Seq<DustEvent>), TransactionInvalid>
    decreases m,
{
    if m <= 0 {
        Ok((v, fees, Seq::empty()))
    } else {
        match intents_spends_fold(v, fees, intents, tblock, m - 1) {
            Err(e) => Err(e),
            Ok((v1, f1, e1)) => match intents[m - 1].1.dust_actions {
                None => Ok((v1, f1, e1)),
                Some(da) => match spends_fold(v1, f1, da.spends@, da.ctime, tblock, da.spends@.len() as int) {
                    Err(e) => Err(e),
                    Ok((v2, f2, e2)) => Ok((v2, f2, e1 + e2)),
                },
            },
        }
    }
}

/// Applies the registrations of the first `m` intents, in order; the
/// `k`-th intent's offer inputs and outputs are taken under the `k`-th
/// lists of nonces.
pub open spec fn intents_registrations_fold(
    v: DustView,
    utxos: Map<Utxo, UtxoMeta>,
    fees: u128,
    intents: Seq<(u16, Intent)>,
    input_nonces: Seq<Vec<InitialNonce>>,
    output_nonces: Seq<Vec<InitialNonce>>,
    params: DustParameters,
    tblock: u64,
    m: int,
) -> Result<(DustView, u128, Seq<DustEvent>), TransactionInvalid>
    decreases m,
{
    if m <= 0 {
        Ok((v, fees, Seq::empty()))
    } else {
        match intents_registrations_fold(v, utxos, fees, intents, input_nonces, output_nonces, params, tblock, m - 1) {
            Err(e) => Err(e),
            Ok((v1, f1, e1)) => match intents[m - 1].1.dust_actions {
                None => Ok((v1, f1, e1)),
                Some(da) => match registrations_fold(
                    v1,
                    utxos,
                    f1,
                    intents[m - 1].1,
                    da.registrations@,
                    input_nonces[m - 1]@,
                    output_nonces[m - 1]@,
                    params,
                    da.ctime,
                    tblock,
                    da.registrations@.len() as int,
                ) {
                    Err(e) => Err(e),
                    Ok((v2, f2, e2)) => Ok((v2, f2, e1 + e2)),
                },
            },
        }
    }
}

/// The fee stage: all spends of all intents, then all registrations of all
/// intents.
pub open spec fn spec_apply_dust_actions(
    v: DustView,
    utxos: Map<Utxo, UtxoMeta>,
    fees: u128,
    intents: Seq<(u16, Intent)>,
    input_nonces: Seq<Vec<InitialNonce>>,
    output_nonces: Seq<Vec<InitialNonce>>,
    params: DustParameters,
    tblock: u64,
) -> Result<(DustView, u128, Seq<DustEvent>), TransactionInvalid> {
    match intents_spends_fold(v, fees, intents, tblock, intents.len() as int) {
        Err(e) => Err(e),
        Ok((v1, f1, e1)) => match intents_registrations_fold(
            v1,
            utxos,
            f1,
            intents,
            input_nonces,
            output_nonces,
            params,
            tblock,
            intents.len() as int,
        ) {
            Err(e) => Err(e),
            Ok((v2, f2, e2)) => Ok((v2, f2, e1 + e2)),
        },
    }
}

/// Once applying the spends fails, it fails with the same error however
/// many more there are.
proof fn lemma_spends_fold_err(v: DustView, fees: u128, spends: Seq<DustSpend>, ctime: u64, tblock: u64, n: int, m: int)
    requires
        n <= m,
        spends_fold(v, fees, spends, ctime, tblock, n) is Err,
    ensures
        spends_fold(v, fees, spends, ctime, tblock, m) == spends_fold(v, fees, spends, ctime, tblock, n),
    decreases m - n,
{
    if n < m {
        lemma_spends_fold_err(v, fees, spends, ctime, tblock, n, m - 1);
    }
}

/// Once applying the registrations fails, it fails with the same error
/// however many more there are.
proof fn lemma_registrations_fold_err(
    v: DustView,
    utxos: Map<Utxo, UtxoMeta>,
    fees: u128,
    parent: Intent,
    regs: Seq<DustRegistration>,
    input_nonces: Seq<InitialNonce>,
    output_nonces: Seq<InitialNonce>,
    params: DustParameters,
    tnow: u64,
    tblock: u64,
    n: int,
    m: int,
)
    requires
        n <= m,
        registrations_fold(v, utxos, fees, parent, regs, input_nonces, output_nonces, params, tnow, tblock, n) is Err,
    ensures
        registrations_fold(v, utxos, fees, parent, regs, input_nonces, output_nonces, params, tnow, tblock, m)
            == registrations_fold(v, utxos, fees, parent, regs, input_nonces, output_nonces, params, tnow, tblock, n),
    decreases m - n,
{
    if n < m {
        lemma_registrations_fold_err(v, utxos, fees, parent, regs, input_nonces, output_nonces, params, tnow, tblock, n, m - 1);
    }
}

/// Once applying the intents' spends fails, it fails with the same error.
proof fn lemma_intents_spends_fold_err(v: DustView, fees: u128, intents: Seq<(u16, Intent)>, tblock: u64, n: int, m: int)
    requires
        n <= m,
        intents_spends_fold(v, fees, intents, tblock, n) is Err,
    ensures
        intents_spends_fold(v, fees, intents, tblock, m) == intents_spends_fold(v, fees, intents, tblock, n),
    decreases m - n,
{
    if n < m {
        lemma_intents_spends_fold_err(v, fees, intents, tblock, n, m - 1);
    }
}

/// Once applying the intents' registrations fails, it fails with the same
/// error.
proof fn lemma_intents_registrations_fold_err(
    v: DustView,
    utxos: Map<Utxo, UtxoMeta>,
    fees: u128,
    intents: Seq<(u16, Intent)>,
    input_nonces: Seq<Vec<InitialNonce>>,
    output_nonces: Seq<Vec<InitialNonce>>,
    params: DustParameters,
    tblock: u64,
    n: int,
    m: int,
)
    requires
        n <= m,
        intents_registrations_fold(v, utxos, fees, intents, input_nonces, output_nonces, params, tblock, n) is Err,
    ensures
        intents_registrations_fold(v, utxos, fees, intents, input_nonces, output_nonces, params, tblock, m)
            == intents_registrations_fold(v, utxos, fees, intents, input_nonces, output_nonces, params, tblock, n),
    decreases m - n,
{
    if n < m {
        lemma_intents_registrations_fold_err(v, utxos, fees, intents, input_nonces, output_nonces, params, tblock, n, m - 1);
    }
}

/// Appends the events of `b` to `a`.
fn append_events(a: &mut Vec<DustEvent>, b: Vec<DustEvent>)
    ensures
        final(a)@ == old(a)@ + b@,
{
    let mut i: usize = 0;
    let ghost a0 = a@;
    while i < b.len()
        invariant
            0 <= i <= b@.len(),
            a@ == a0 + b@.take(i as int),
        decreases b@.len() - i,
    {
        a.push(b[i]);
        i = i + 1;
        proof {
            assert(b@.take(i as int) =~= b@.take(i as int - 1).push(b@[i as int - 1]));
        }
    }
    proof {
        assert(b@.take(b@.len() as int) =~= b@);
    }
}

impl DustState {
    /// Applies `spends`, declared at `ctime`, in order (see `spends_fold`);
    /// `fees` is what remains to pay, and what is returned remains after
    /// them.
    pub fn apply_spends(&self, spends: &Vec<DustSpend>, ctime: u64, fees: u128, tblock: u64)
        -> (res: Result<(DustState, u128, Vec<DustEvent>), TransactionInvalid>)
        requires
            self.wf(),
        ensures
            match (res, spends_fold(self.dview(), fees, spends@, ctime, tblock, spends@.len() as int)) {
                (Ok((st, f, evs)), Ok((v, sf, sevs))) => st.wf() && st.dview() == v && f == sf && evs@ == sevs,
                (Err(e), Err(se)) => e == se,
                _ => false,
            },
    {
        let mut st = self.duplicate();
        let mut f = fees;
        let mut evs: Vec<DustEvent> = Vec::new();
        let mut i: usize = 0;
        while i < spends.len()
            invariant
                0 <= i <= spends@.len(),
                st.wf(),
                spends_fold(self.dview(), fees, spends@, ctime, tblock, i as int) == Ok::<(DustView, u128, Seq<DustEvent>), TransactionInvalid>((st.dview(), f, evs@)),
            decreases spends@.len() - i,
        {
            match st.apply_spend(&spends[i], ctime, tblock) {
                Err(e) => {
                    proof {
                        lemma_spends_fold_err(self.dview(), fees, spends@, ctime, tblock, i + 1, spends@.len() as int);
                    }
                    return Err(e);
                },
                Ok((st2, ev)) => {
                    st = st2;
                    f = sat_sub(f, spends[i].v_fee);
                    evs.push(ev);
                },
            }
            i = i + 1;
        }
        Ok((st, f, evs))
    }

    /// Applies `regs`, the registrations of `parent`'s DUST actions
    /// declared at `tnow`, in order (see `registrations_fold`).
    pub fn apply_registrations(
        &self,
        utxo: &UtxoState,
        fees: u128,
        parent: &Intent,
        regs: &Vec<DustRegistration>,
        input_nonces: &Vec<InitialNonce>,
        output_nonces: &Vec<InitialNonce>,
        params: &DustParameters,
        tnow: u64,
        tblock: u64,
    ) -> (res: Result<(DustState, u128, Vec<DustEvent>), TransactionInvalid>)
        requires
            self.wf(),
            utxo.wf(),
            input_nonces@.len() == guaranteed_inputs(*parent).len(),
            output_nonces@.len() == guaranteed_outputs(*parent).len(),
        ensures
            match (res, registrations_fold(self.dview(), utxo@, fees, *parent, regs@, input_nonces@, output_nonces@, *params, tnow, tblock, regs@.len() as int)) {
                (Ok((st, f, evs)), Ok((v, sf, sevs))) => st.wf() && st.dview() == v && f == sf && evs@ == sevs,
                (Err(e), Err(se)) => e == se,
                _ => false,
            },
    {
        let mut st = self.duplicate();
        let mut f = fees;
        let mut evs: Vec<DustEvent> = Vec::new();
        let mut i: usize = 0;
        while i < regs.len()
            invariant
                0 <= i <= regs@.len(),
                st.wf(),
                utxo.wf(),
                input_nonces@.len() == guaranteed_inputs(*parent).len(),
                output_nonces@.len() == guaranteed_outputs(*parent).len(),
                registrations_fold(self.dview(), utxo@, fees, *parent, regs@, input_nonces@, output_nonces@, *params, tnow, tblock, i as int)
                    == Ok::<(DustView, u128, Seq<DustEvent>), TransactionInvalid>((st.dview(), f, evs@)),
            decreases regs@.len() - i,
        {
            match st.apply_registration(utxo, f, parent, &regs[i], input_nonces, output_nonces, params, tnow, tblock) {
                Err(e) => {
                    proof {
                        lemma_registrations_fold_err(
                            self.dview(),
                            utxo@,
                            fees,
                            *parent,
                            regs@,
                            input_nonces@,
                            output_nonces@,
                            *params,
                            tnow,
                            tblock,
                            i + 1,
                            regs@.len() as int,
                        );
                    }
                    return Err(e);
                },
                Ok((st2, f2, evs2)) => {
                    st = st2;
                    f = f2;
                    append_events(&mut evs, evs2);
                },
            }
            i = i + 1;
        }
        Ok((st, f, evs))
    }

    /// The fee stage of a transaction's guaranteed section: the DUST spends
    /// of all intents in order, each paying its fee towards `fees`, then the
    /// registrations of all intents in order, against the reference UTXO
    /// set `utxo` (see `spec_apply_dust_actions`). Returns the new state,
    /// the fees still unpaid, and the events.
    pub fn apply_dust_actions(
        &self,
        utxo: &UtxoState,
        fees: u128,
        intents: &Vec<(u16, Intent)>,
        input_nonces: &Vec<Vec<InitialNonce>>,
        output_nonces: &Vec<Vec<InitialNonce>>,
        params: &DustParameters,
        tblock: u64,
    ) -> (res: Result<(DustState, u128, Vec<DustEvent>), TransactionInvalid>)
        requires
            self.wf(),
            utxo.wf(),
            input_nonces@.len() == intents@.len(),
            output_nonces@.len() == intents@.len(),
            forall|k: int| 0 <= k < intents@.len() ==> #[trigger] input_nonces@[k]@.len() == guaranteed_inputs(intents@[k].1).len(),
            forall|k: int| 0 <= k < intents@.len() ==> #[trigger] output_nonces@[k]@.len() == guaranteed_outputs(intents@[k].1).len(),
        ensures
            match (res, spec_apply_dust_actions(self.dview(), utxo@, fees, intents@, input_nonces@, output_nonces@, *params, tblock)) {
                (Ok((st, f, evs)), Ok((v, sf, sevs))) => st.wf() && st.dview() == v && f == sf && evs@ == sevs,
                (Err(e), Err(se)) => e == se,
                _ => false,
            },
    {
        let mut st = self.duplicate();
        let mut f = fees;
        let mut evs: Vec<DustEvent> = Vec::new();
        let mut k: usize = 0;
        while k < intents.len()
            invariant
                0 <= k <= intents@.len(),
                st.wf(),
                intents_spends_fold(self.dview(), fees, intents@, tblock, k as int)
                    == Ok::<(DustView, u128, Seq<DustEvent>), TransactionInvalid>((st.dview(), f, evs@)),
            decreases intents@.len() - k,
        {
            match &intents[k].1.dust_actions {
                None => {},
                Some(da) => {
                    match st.apply_spends(&da.spends, da.ctime, f, tblock) {
                        Err(e) => {
                            proof {
                                lemma_intents_spends_fold_err(self.dview(), fees, intents@, tblock, k + 1, intents@.len() as int);
                            }
                            return Err(e);
                        },
                        Ok((st2, f2, evs2)) => {
                            st = st2;
                            f = f2;
                            append_events(&mut evs, evs2);
                        },
                    }
                },
            }
            k = k + 1;
        }
        let ghost v1 = st.dview();
        let ghost f1 = f;
        let ghost e1 = evs@;
        let mut k: usize = 0;
        while k < intents.len()
            invariant
                0 <= k <= intents@.len(),
                st.wf(),
                utxo.wf(),
                input_nonces@.len() == intents@.len(),
                output_nonces@.len() == intents@.len(),
                forall|k: int| 0 <= k < intents@.len() ==> #[trigger] input_nonces@[k]@.len() == guaranteed_inputs(intents@[k].1).len(),
                forall|k: int| 0 <= k < intents@.len() ==> #[trigger] output_nonces@[k]@.len() == guaranteed_outputs(intents@[k].1).len(),
                intents_spends_fold(self.dview(), fees, intents@, tblock, intents@.len() as int)
                    == Ok::<(DustView, u128, Seq<DustEvent>), TransactionInvalid>((v1, f1, e1)),
                ({
                    match intents_registrations_fold(v1, utxo@, f1, intents@, input_nonces@, output_nonces@, *params, tblock, k as int) {
                        Ok((v2, f2, e2)) => st.dview() == v2 && f == f2 && evs@ == e1 + e2,
                        Err(_) => false,
                    }
                }),
            decreases intents@.len() - k,
        {
            let ghost prev = intents_registrations_fold(v1, utxo@, f1, intents@, input_nonces@, output_nonces@, *params, tblock, k as int);
            match &intents[k].1.dust_actions {
                None => {},
                Some(da) => {
                    match st.apply_registrations(
                        utxo,
                        f,
                        &intents[k].1,
                        &da.registrations,
                        &input_nonces[k],
                        &output_nonces[k],
                        params,
                        da.ctime,
                        tblock,
                    ) {
                        Err(e) => {
                            proof {
                                lemma_intents_registrations_fold_err(
                                    v1,
                                    utxo@,
                                    f1,
                                    intents@,
                                    input_nonces@,
                                    output_nonces@,
                                    *params,
                                    tblock,
                                    k + 1,
                                    intents@.len() as int,
                                );
                            }
                            return Err(e);
                        },
                        Ok((st2, f2, evs2)) => {
                            proof {
                                assert(evs@ + evs2@ == e1 + (prev->Ok_0.2 + evs2@));
                            }
                            st = st2;
                            f = f2;
                            append_events(&mut evs, evs2);
                        },
                    }
                },
            }
            k = k + 1;
        }
        Ok((st, f, evs))
    }
}

/// Spends only lower the fees still to pay.
proof fn lemma_spends_fold_fees(v: DustView, fees: u128, spends: Seq<DustSpend>, ctime: u64, tblock: u64, n: int)
    ensures
        spends_fold(v, fees, spends, ctime, tblock, n) matches Ok((_, f, _)) ==> f <= fees,
    decreases n,
{
    if n > 0 {
        lemma_spends_fold_fees(v, fees, spends, ctime, tblock, n - 1);
    }
}

/// Registrations only lower the fees still to pay.
proof fn lemma_registrations_fold_fees(
    v: DustView,
    utxos: Map<Utxo, UtxoMeta>,
    fees: u128,
    parent: Intent,
    regs: Seq<DustRegistration>,
    input_nonces: Seq<InitialNonce>,
    output_nonces: Seq<InitialNonce>,
    params: DustParameters,
    tnow: u64,
    tblock: u64,
    n: int,
)
    ensures
        registrations_fold(v, utxos, fees, parent, regs, input_nonces, output_nonces, params, tnow, tblock, n) matches Ok((_, f, _))
            ==> f <= fees,
    decreases n,
{
    if n > 0 {
        lemma_registrations_fold_fees(v, utxos, fees, parent, regs, input_nonces, output_nonces, params, tnow, tblock, n - 1);
    }
}

/// The intents' spends only lower the fees still to pay.
proof fn lemma_intents_spends_fold_fees(v: DustView, fees: u128, intents: Seq<(u16, Intent)>, tblock: u64, m: int)
    ensures
        intents_spends_fold(v, fees, intents, tblock, m) matches Ok((_, f, _)) ==> f <= fees,
    decreases m,
{
    if m > 0 {
        lemma_intents_spends_fold_fees(v, fees, intents, tblock, m - 1);
        match intents_spends_fold(v, fees, intents, tblock, m - 1) {
            Ok((v1, f1, _)) => match intents[m - 1].1.dust_actions {
                Some(da) => lemma_spends_fold_fees(v1, f1, da.spends@, da.ctime, tblock, da.spends@.len() as int),
                None => {},
            },
            Err(_) => {},
        }
    }
}

/// The intents' registrations only lower the fees still to pay.
proof fn lemma_intents_registrations_fold_fees(
    v: DustView,
    utxos: Map<Utxo, UtxoMeta>,
    fees: u128,
    intents: Seq<(u16, Intent)>,
    input_nonces: Seq<Vec<InitialNonce>>,
    output_nonces: Seq<Vec<InitialNonce>>,
    params: DustParameters,
    tblock: u64,
    m: int,
)
    ensures
        intents_registrations_fold(v, utxos, fees, intents, input_nonces, output_nonces, params, tblock, m) matches Ok((_, f, _))
            ==> f <= fees,
    decreases m,
{
    if m > 0 {
        lemma_intents_registrations_fold_fees(v, utxos, fees, intents, input_nonces, output_nonces, params, tblock, m - 1);
        match intents_registrations_fold(v, utxos, fees, intents, input_nonces, output_nonces, params, tblock, m - 1) {
            Ok((v1, f1, _)) => match intents[m - 1].1.dust_actions {
                Some(da) => lemma_registrations_fold_fees(
                    v1,
                    utxos,
                    f1,
                    intents[m - 1].1,
                    da.registrations@,
                    input_nonces[m - 1]@,
                    output_nonces[m - 1]@,
                    params,
                    da.ctime,
                    tblock,
                    da.registrations@.len() as int,
                ),
                None => {},
            },
            Err(_) => {},
        }
    }
}

/// The fee stage never leaves more fees to pay than it was given: each
/// spend and each registration pays towards them or leaves them as they
/// were.
pub proof fn lemma_fee_stage_pays_down(
    v: DustView,
    utxos: Map<Utxo, UtxoMeta>,
    fees: u128,
    intents: Seq<(u16, Intent)>,
    input_nonces: Seq<Vec<InitialNonce>>,
    output_nonces: Seq<Vec<InitialNonce>>,
    params: DustParameters,
    tblock: u64,
)
    ensures
        spec_apply_dust_actions(v, utxos, fees, intents, input_nonces, output_nonces, params, tblock) matches Ok((_, f, _)) ==> f <= fees,
{
    lemma_intents_spends_fold_fees(v, fees, intents, tblock, intents.len() as int);
    match intents_spends_fold(v, fees, intents, tblock, intents.len() as int) {
        Ok((v1, f1, _)) => lemma_intents_registrations_fold_fees(
            v1,
            utxos,
            f1,
            intents,
            input_nonces,
            output_nonces,
            params,
            tblock,
            intents.len() as int,
        ),
        Err(_) => {},
    }
}

/// The sum of the fees the first `n` spends declare.
pub open spec fn declared_fees(spends: Seq<DustSpend>, n: int) -> int
    decreases n,
{
    if n <= 0 {
        0
    } else {
        declared_fees(spends, n - 1) + spends[n - 1].v_fee
    }
}

/// Spends that all go through pay the fees down by what they declare in
/// all, to zero at the least; each reports one event, and each one's
/// nullifier is then recorded as spent.
pub proof fn lemma_spends_pay_declared_fees(v: DustView, fees: u128, spends: Seq<DustSpend>, ctime: u64, tblock: u64, n: int)
    requires
        0 <= n <= spends.len(),
    ensures
        spends_fold(v, fees, spends, ctime, tblock, n) matches Ok((w, f, evs)) ==> f == (if declared_fees(spends, n) <= fees {
            fees - declared_fees(spends, n)
        } else {
            0
        }) && evs.len() == n && forall|k: int| 0 <= k < n ==> w.nullifiers.contains_key(#[trigger] spends[k].old_nullifier),
    decreases n,
{
    if n > 0 {
        lemma_spends_pay_declared_fees(v, fees, spends, ctime, tblock, n - 1);
        assert(declared_fees(spends, n) == declared_fees(spends, n - 1) + spends[n - 1].v_fee);
        assert(declared_fees(spends, n - 1) >= 0) by {
            lemma_declared_fees_nonneg(spends, n - 1);
        }
    }
}

proof fn lemma_declared_fees_nonneg(spends: Seq<DustSpend>, n: int)
    ensures
        declared_fees(spends, n) >= 0,
    decreases n,
{
    if n > 0 {
        lemma_declared_fees_nonneg(spends, n - 1);
    }
}

} // verus!
