//! Applying the contract actions of an intent to the states of contracts:
//! calls, deployments and maintenance updates.
use vstd::prelude::*;
use crate::hash::{ContractAddress, HashOutput, KeyEq, TokenType};
use crate::intent::ContractCall;
use crate::contract_state::{ContractState, spec_effects_balance, balance_of, amount_of, lemma_effects_move_balance};
use crate::maintenance::{MaintenanceUpdate, spec_apply_maintenance, same_failure};
use crate::ledger::TransactionInvalid;
use crate::vm::{StackValue, Val, val_of, copy_value};

verus! {

/// A deployment: the contract's address and its initial state.
pub struct ContractDeploy {
    pub address: ContractAddress,
    pub initial_state: ContractState,
}

/// A contract action of an intent.
pub enum ContractAction {
    Call(ContractCall),
    Deploy(ContractDeploy),
    Maintain(MaintenanceUpdate),
}

/// What running a call's transcript against its contract gave: whether the
/// effects it produced are those the transcript declares, and the values it
/// logged in order.
pub struct CallOutcome {
    pub effects_as_declared: bool,
    pub logged: Vec<StackValue>,
}

/// What applying contract actions reports.
pub enum ActionEvent {
    /// A call logged a value.
    ContractLog { address: ContractAddress, logged: StackValue },
    /// A contract was deployed.
    ContractDeploy { address: ContractAddress },
}

pub open spec fn event_view(e: ActionEvent) -> (ContractAddress, Option<Val>) {
    match e {
        ActionEvent::ContractLog { address, logged } => (address, Some(val_of(logged))),
        ActionEvent::ContractDeploy { address } => (address, None),
    }
}

pub open spec fn action_events_view(s: Seq<ActionEvent>) -> Seq<(ContractAddress, Option<Val>)> {
    Seq::new(s.len(), |i: int| event_view(s[i]))
}

/// A contract's state as plain values: its verifier keys by entry point,
/// its maintenance authority, and its balance.
pub struct ContractView {
    pub ops: Map<Seq<u8>, Option<Seq<u8>>>,
    pub auth: (Seq<HashOutput>, u32, u32),
    pub balance: Map<TokenType, u128>,
}

pub open spec fn cview(c: ContractState) -> ContractView {
    ContractView { ops: c.ops(), auth: c.maintenance_authority.aview(), balance: c.balance@ }
}

pub open spec fn contracts_view(cs: Seq<(ContractAddress, ContractState)>) -> Seq<(ContractAddress, ContractView)> {
    Seq::new(cs.len(), |i: int| (cs[i].0, cview(cs[i].1)))
}

/// Every contract state is well formed.
pub open spec fn contracts_wf(cs: Seq<(ContractAddress, ContractState)>) -> bool {
    forall|i: int| 0 <= i < cs.len() ==> (#[trigger] cs[i]).1.wf()
}

/// The position of the contract at `a`, or -1.
pub open spec fn contract_find(s: Seq<(ContractAddress, ContractView)>, a: ContractAddress) -> int
    decreases s.len(),
{
    if s.len() == 0 {
        -1
    } else if s.last().0 == a {
        s.len() - 1
    } else {
        contract_find(s.drop_last(), a)
    }
}

/// Whether the whitelist, if there is one, names `a`.
pub open spec fn whitelisted(wl: Option<Vec<ContractAddress>>, a: ContractAddress) -> bool {
    match wl {
        None => true,
        Some(l) => l@.contains(a),
    }
}

/// The events of the values a call logged.
pub open spec fn log_events(a: ContractAddress, logged: Seq<StackValue>) -> Seq<(ContractAddress, Option<Val>)> {
    Seq::new(logged.len(), |i: int| (a, Some(val_of(logged[i]))))
}

/// One action. A call or update of a contract that the whitelist leaves
/// out does nothing, and so do deployments and updates in the guaranteed
/// part. A call needs its contract; with a transcript for this part, the
/// run must have succeeded with the declared effects, and the contract's
/// balance takes those effects. A deployment needs a fresh address. An
/// update needs its contract and applies to its keys and authority.
pub open spec fn spec_action(
    s: Seq<(ContractAddress, ContractView)>,
    ev: Seq<(ContractAddress, Option<Val>)>,
    act: ContractAction,
    guaranteed: bool,
    wl: Option<Vec<ContractAddress>>,
    outcome: Option<CallOutcome>,
) -> Result<(Seq<(ContractAddress, ContractView)>, Seq<(ContractAddress, Option<Val>)>), TransactionInvalid> {
    match act {
        ContractAction::Call(c) => if !whitelisted(wl, c.address) {
            Ok((s, ev))
        } else {
            let k = contract_find(s, c.address);
            if k < 0 {
                Err(TransactionInvalid::ContractNotPresent(c.address))
            } else {
                match (if guaranteed { c.guaranteed_transcript } else { c.fallible_transcript }) {
                    None => Ok((s, ev)),
                    Some(eff) => match outcome {
                        None => Err(TransactionInvalid::TranscriptRejected(c.address)),
                        Some(o) => if !o.effects_as_declared {
                            Err(TransactionInvalid::EffectsMismatch(c.address))
                        } else {
                            match spec_effects_balance(s[k].1.balance, eff) {
                                Err(e) => Err(e),
                                Ok(b) => Ok((
                                    s.update(k, (c.address, ContractView { ops: s[k].1.ops, auth: s[k].1.auth, balance: b })),
                                    ev + log_events(c.address, o.logged@),
                                )),
                            }
                        },
                    },
                }
            }
        },
        ContractAction::Deploy(d) => if !whitelisted(wl, d.address) || guaranteed {
            Ok((s, ev))
        } else if contract_find(s, d.address) >= 0 {
            Err(TransactionInvalid::ContractAlreadyDeployed(d.address))
        } else {
            Ok((s.push((d.address, cview(d.initial_state))), ev.push((d.address, None))))
        },
        ContractAction::Maintain(u) => if !whitelisted(wl, u.address) || guaranteed {
            Ok((s, ev))
        } else {
            let k = contract_find(s, u.address);
            if k < 0 {
                Err(TransactionInvalid::ContractNotPresent(u.address))
            } else {
                match spec_apply_maintenance(u.address, u.counter, s[k].1.auth, s[k].1.ops, u.updates@) {
                    Err(e) => Err(e),
                    Ok((a, m)) => Ok((s.update(k, (u.address, ContractView { ops: m, auth: a, balance: s[k].1.balance })), ev)),
                }
            }
        },
    }
}

/// The first `n` actions in order, each with its outcome.
pub open spec fn spec_actions(
    s: Seq<(ContractAddress, ContractView)>,
    actions: Seq<ContractAction>,
    guaranteed: bool,
    wl: Option<Vec<ContractAddress>>,
    outcomes: Seq<Option<CallOutcome>>,
    n: int,
) -> Result<(Seq<(ContractAddress, ContractView)>, Seq<(ContractAddress, Option<Val>)>), TransactionInvalid>
    decreases n,
{
    if n <= 0 {
        Ok((s, Seq::empty()))
    } else {
        match spec_actions(s, actions, guaranteed, wl, outcomes, n - 1) {
            Err(e) => Err(e),
            Ok((s1, ev1)) => spec_action(s1, ev1, actions[n - 1], guaranteed, wl, outcomes[n - 1]),
        }
    }
}

/// The same failure, or, for a maintenance update, the same failure with
/// entry points compared by their bytes.
pub open spec fn failure_matches(e: TransactionInvalid, se: TransactionInvalid) -> bool {
    e == se || same_failure(e, se)
}

proof fn lemma_actions_err(
    s: Seq<(ContractAddress, ContractView)>,
    actions: Seq<ContractAction>,
    guaranteed: bool,
    wl: Option<Vec<ContractAddress>>,
    outcomes: Seq<Option<CallOutcome>>,
    n: int,
    m: int,
)
    requires
        0 <= n <= m,
        spec_actions(s, actions, guaranteed, wl, outcomes, n) is Err,
    ensures
        spec_actions(s, actions, guaranteed, wl, outcomes, m) == spec_actions(s, actions, guaranteed, wl, outcomes, n),
    decreases m - n,
{
    if n < m {
        lemma_actions_err(s, actions, guaranteed, wl, outcomes, n, m - 1);
    }
}

fn is_whitelisted(wl: &Option<Vec<ContractAddress>>, a: ContractAddress) -> (r: bool)
    ensures
        r == whitelisted(*wl, a),
{
    match wl {
        None => true,
        Some(l) => {
            let mut i: usize = 0;
            while i < l.len()
                invariant
                    i <= l.len(),
                    *wl == Some(*l),
                    forall|j: int| 0 <= j < i ==> l@[j] != a,
                decreases l.len() - i,
            {
                if l[i].key_eq(&a) {
                    assert(l@[i as int] == a);
                    assert(l@.contains(a));
                    return true;
                }
                i = i + 1;
            }
            assert(!l@.contains(a));
            false
        },
    }
}

fn find_contract(cs: &Vec<(ContractAddress, ContractState)>, a: ContractAddress) -> (r: Option<usize>)
    ensures
        match r {
            Some(i) => i < cs.len() && contract_find(contracts_view(cs@), a) == i,
            None => contract_find(contracts_view(cs@), a) == -1,
        },
{
    let ghost sv = contracts_view(cs@);
    assert(sv.subrange(0, cs.len() as int) =~= sv);
    let mut i: usize = cs.len();
    while i > 0
        invariant
            i <= cs.len(),
            sv == contracts_view(cs@),
            contract_find(sv, a) == contract_find(sv.subrange(0, i as int), a),
        decreases i,
    {
        assert(sv.subrange(0, i as int).drop_last() =~= sv.subrange(0, i - 1));
        if cs[i - 1].0.key_eq(&a) {
            return Some(i - 1);
        }
        i = i - 1;
    }
    None
}

fn copy_contracts(cs: &Vec<(ContractAddress, ContractState)>) -> (r: Vec<(ContractAddress, ContractState)>)
    requires
        contracts_wf(cs@),
    ensures
        contracts_wf(r@),
        contracts_view(r@) == contracts_view(cs@),
{
    let mut r: Vec<(ContractAddress, ContractState)> = Vec::new();
    let mut i: usize = 0;
    while i < cs.len()
        invariant
            i <= cs.len(),
            contracts_wf(cs@),
            contracts_wf(r@),
            r@.len() == i,
            forall|j: int| 0 <= j < i ==> (#[trigger] r@[j]).0 == cs@[j].0 && cview(r@[j].1) == cview(cs@[j].1),
        decreases cs.len() - i,
    {
        let c = cs[i].1.duplicate();
        proof {
            assert(cs@[i as int].1.wf());
            assert(c.ops() == cs@[i as int].1.ops());
        }
        r.push((cs[i].0, c));
        i = i + 1;
    }
    assert(contracts_view(r@) =~= contracts_view(cs@));
    r
}

/// Applies `actions` in order to the contracts `contracts` (see
/// `spec_actions`): the guaranteed part of an intent when `guaranteed`,
/// else its fallible part. `whitelist`, where there is one, names the
/// contracts whose actions apply, and `outcomes` gives for each call
/// what running its transcript gave (`None` where the run failed). Gives
/// the new contracts and the events, or the first failure.
pub fn apply_actions(
    contracts: &Vec<(ContractAddress, ContractState)>,
    actions: &Vec<ContractAction>,
    guaranteed: bool,
    whitelist: &Option<Vec<ContractAddress>>,
    outcomes: &Vec<Option<CallOutcome>>,
) -> (r: Result<(Vec<(ContractAddress, ContractState)>, Vec<ActionEvent>), TransactionInvalid>)
    requires
        contracts_wf(contracts@),
        outcomes@.len() == actions@.len(),
        forall|k: int| 0 <= k < actions@.len() ==> (#[trigger] actions@[k] matches ContractAction::Deploy(d) ==> d.initial_state.wf()),
    ensures
        match spec_actions(contracts_view(contracts@), actions@, guaranteed, *whitelist, outcomes@, actions@.len() as int) {
            Ok((s, ev)) => r matches Ok((cs, evs)) && contracts_wf(cs@) && contracts_view(cs@) == s && action_events_view(evs@) == ev,
            Err(se) => r matches Err(e) && failure_matches(e, se),
        },
{
    let ghost s0 = contracts_view(contracts@);
    let ghost n = actions@.len() as int;
    let mut res = copy_contracts(contracts);
    let mut evs: Vec<ActionEvent> = Vec::new();
    assert(action_events_view(evs@) =~= Seq::<(ContractAddress, Option<Val>)>::empty());
    let mut k: usize = 0;
    while k < actions.len()
        invariant
            k <= actions.len(),
            n == actions@.len(),
            outcomes@.len() == n,
            forall|j: int| 0 <= j < n ==> (#[trigger] actions@[j] matches ContractAction::Deploy(d) ==> d.initial_state.wf()),
            contracts_wf(res@),
            s0 == contracts_view(contracts@),
            spec_actions(s0, actions@, guaranteed, *whitelist, outcomes@, k as int)
                == Ok::<(Seq<(ContractAddress, ContractView)>, Seq<(ContractAddress, Option<Val>)>), TransactionInvalid>(
                    (contracts_view(res@), action_events_view(evs@)),
                ),
        decreases n - k,
    {
        let ghost sv = contracts_view(res@);
        let ghost ev = action_events_view(evs@);
        match &actions[k] {
            ContractAction::Call(c) => {
                if is_whitelisted(whitelist, c.address) {
                    match find_contract(&res, c.address) {
                        None => {
                            proof {
                                lemma_actions_err(s0, actions@, guaranteed, *whitelist, outcomes@, k + 1, n);
                            }
                            return Err(TransactionInvalid::ContractNotPresent(c.address));
                        },
                        Some(j) => {
                            let t = if guaranteed { &c.guaranteed_transcript } else { &c.fallible_transcript };
                            match t {
                                None => {},
                                Some(eff) => match &outcomes[k] {
                                    None => {
                                        proof {
                                            lemma_actions_err(s0, actions@, guaranteed, *whitelist, outcomes@, k + 1, n);
                                        }
                                        return Err(TransactionInvalid::TranscriptRejected(c.address));
                                    },
                                    Some(o) => {
                                        if !o.effects_as_declared {
                                            proof {
                                                lemma_actions_err(s0, actions@, guaranteed, *whitelist, outcomes@, k + 1, n);
                                            }
                                            return Err(TransactionInvalid::EffectsMismatch(c.address));
                                        }
                                        proof {
                                            assert(res@[j as int].1.wf());
                                        }
                                        match res[j].1.effects_balance(eff) {
                                            Err(e) => {
                                                proof {
                                                    lemma_actions_err(s0, actions@, guaranteed, *whitelist, outcomes@, k + 1, n);
                                                }
                                                return Err(e);
                                            },
                                            Ok(b) => {
                                                let mut cs = res[j].1.duplicate();
                                                cs.balance = b;
                                                let ghost before = res@;
                                                res.set(j, (c.address, cs));
                                                proof {
                                                    assert(contracts_view(res@) =~= sv.update(
                                                        j as int,
                                                        (c.address, ContractView { ops: sv[j as int].1.ops, auth: sv[j as int].1.auth, balance: b@ }),
                                                    ));
                                                    assert forall|q: int| 0 <= q < res@.len() implies (#[trigger] res@[q]).1.wf() by {
                                                        if q != j {
                                                            assert(res@[q] == before[q]);
                                                        }
                                                    }
                                                }
                                                let mut q: usize = 0;
                                                while q < o.logged.len()
                                                    invariant
                                                        q <= o.logged.len(),
                                                        action_events_view(evs@) == ev + log_events(c.address, o.logged@).subrange(0, q as int),
                                                    decreases o.logged.len() - q,
                                                {
                                                    let ghost e0 = evs@;
                                                    evs.push(ActionEvent::ContractLog { address: c.address, logged: copy_value(&o.logged[q]) });
                                                    proof {
                                                        assert(action_events_view(evs@) =~= action_events_view(e0).push((c.address, Some(val_of(o.logged@[q as int])))));
                                                        assert(log_events(c.address, o.logged@).subrange(0, q + 1) =~= log_events(c.address, o.logged@).subrange(0, q as int).push(
                                                            (c.address, Some(val_of(o.logged@[q as int]))),
                                                        ));
                                                    }
                                                    q = q + 1;
                                                }
                                                assert(log_events(c.address, o.logged@).subrange(0, o.logged@.len() as int) =~= log_events(c.address, o.logged@));
                                            },
                                        }
                                    },
                                },
                            }
                        },
                    }
                }
            },
            ContractAction::Deploy(d) => {
                if is_whitelisted(whitelist, d.address) && !guaranteed {
                    match find_contract(&res, d.address) {
                        Some(_) => {
                            proof {
                                lemma_actions_err(s0, actions@, guaranteed, *whitelist, outcomes@, k + 1, n);
                            }
                            return Err(TransactionInvalid::ContractAlreadyDeployed(d.address));
                        },
                        None => {
                            proof {
                                assert(actions@[k as int] matches ContractAction::Deploy(d));
                            }
                            let c = d.initial_state.duplicate();
                            let ghost before = res@;
                            res.push((d.address, c));
                            evs.push(ActionEvent::ContractDeploy { address: d.address });
                            proof {
                                assert(c.ops() == d.initial_state.ops());
                                assert(contracts_view(res@) =~= sv.push((d.address, cview(d.initial_state))));
                                assert(action_events_view(evs@) =~= ev.push((d.address, None)));
                                assert forall|q: int| 0 <= q < res@.len() implies (#[trigger] res@[q]).1.wf() by {
                                    if q < before.len() {
                                        assert(res@[q] == before[q]);
                                    }
                                }
                            }
                        },
                    }
                }
            },
            ContractAction::Maintain(u) => {
                if is_whitelisted(whitelist, u.address) && !guaranteed {
                    match find_contract(&res, u.address) {
                        None => {
                            proof {
                                lemma_actions_err(s0, actions@, guaranteed, *whitelist, outcomes@, k + 1, n);
                            }
                            return Err(TransactionInvalid::ContractNotPresent(u.address));
                        },
                        Some(j) => {
                            proof {
                                assert(res@[j as int].1.wf());
                            }
                            match u.apply(&res[j].1) {
                                Err(e) => {
                                    proof {
                                        lemma_actions_err(s0, actions@, guaranteed, *whitelist, outcomes@, k + 1, n);
                                    }
                                    return Err(e);
                                },
                                Ok(st) => {
                                    let ghost before = res@;
                                    res.set(j, (u.address, st));
                                    proof {
                                        assert(contracts_view(res@) =~= sv.update(
                                            j as int,
                                            (u.address, ContractView { ops: st.ops(), auth: st.maintenance_authority.aview(), balance: sv[j as int].1.balance }),
                                        ));
                                        assert forall|q: int| 0 <= q < res@.len() implies (#[trigger] res@[q]).1.wf() by {
                                            if q != j {
                                                assert(res@[q] == before[q]);
                                            }
                                        }
                                    }
                                },
                            }
                        },
                    }
                }
            },
        }
        k = k + 1;
    }
    Ok((res, evs))
}

/// A call changes only the state of the contract it calls, and of that one
/// only the balance; its logged values follow the earlier events in order.
/// In the part its transcript is for, the contract's balance moves by the
/// transcript's declared effects.
pub proof fn lemma_call_touches_only_its_balance(
    s: Seq<(ContractAddress, ContractView)>,
    ev: Seq<(ContractAddress, Option<Val>)>,
    c: ContractCall,
    guaranteed: bool,
    wl: Option<Vec<ContractAddress>>,
    outcome: Option<CallOutcome>,
)
    requires
        spec_action(s, ev, ContractAction::Call(c), guaranteed, wl, outcome) is Ok,
    ensures
        ({
            let (s2, ev2) = spec_action(s, ev, ContractAction::Call(c), guaranteed, wl, outcome)->Ok_0;
            let k = contract_find(s, c.address);
            &&& s2.len() == s.len()
            &&& forall|i: int| 0 <= i < s.len() && i != k ==> s2[i] == s[i]
            &&& whitelisted(wl, c.address) ==> 0 <= k && s2[k].0 == c.address && s2[k].1.ops == s[k].1.ops && s2[k].1.auth
                == s[k].1.auth
            &&& ev2.subrange(0, ev.len() as int) == ev
            &&& (whitelisted(wl, c.address) && (if guaranteed { c.guaranteed_transcript } else { c.fallible_transcript }) is Some)
                ==> forall|t: TokenType| balance_of(#[trigger] s2[k].1.balance, t) == balance_of(s[k].1.balance, t) + amount_of(
                (if guaranteed { c.guaranteed_transcript } else { c.fallible_transcript })->Some_0.unshielded_inputs@,
                t,
                (if guaranteed { c.guaranteed_transcript } else { c.fallible_transcript })->Some_0.unshielded_inputs@.len() as int,
            ) - amount_of(
                (if guaranteed { c.guaranteed_transcript } else { c.fallible_transcript })->Some_0.unshielded_outputs@,
                t,
                (if guaranteed { c.guaranteed_transcript } else { c.fallible_transcript })->Some_0.unshielded_outputs@.len() as int,
            )
        }),
{
    let (s2, ev2) = spec_action(s, ev, ContractAction::Call(c), guaranteed, wl, outcome)->Ok_0;
    assert(ev2.subrange(0, ev.len() as int) =~= ev);
    let k = contract_find(s, c.address);
    if whitelisted(wl, c.address) {
        lemma_contract_find_range(s, c.address);
        let t = if guaranteed { c.guaranteed_transcript } else { c.fallible_transcript };
        if t is Some {
            assert forall|tt: TokenType| balance_of(#[trigger] s2[k].1.balance, tt) == balance_of(s[k].1.balance, tt) + amount_of(
                t->Some_0.unshielded_inputs@,
                tt,
                t->Some_0.unshielded_inputs@.len() as int,
            ) - amount_of(t->Some_0.unshielded_outputs@, tt, t->Some_0.unshielded_outputs@.len() as int) by {
                lemma_effects_move_balance(s[k].1.balance, t->Some_0, tt);
            }
        }
    }
}

proof fn lemma_contract_find_range(s: Seq<(ContractAddress, ContractView)>, a: ContractAddress)
    ensures
        -1 <= contract_find(s, a) < s.len(),
        contract_find(s, a) >= 0 ==> s[contract_find(s, a)].0 == a,
    decreases s.len(),
{
    if s.len() > 0 {
        lemma_contract_find_range(s.drop_last(), a);
    }
}

/// A deployment in the fallible part of a contract the whitelist admits
/// adds the contract with its initial state and reports it, when no
/// contract has its address, and fails otherwise; in the guaranteed part,
/// or outside the whitelist, it does nothing.
pub proof fn lemma_deploy_adds_fresh_contract(
    s: Seq<(ContractAddress, ContractView)>,
    ev: Seq<(ContractAddress, Option<Val>)>,
    d: ContractDeploy,
    guaranteed: bool,
    wl: Option<Vec<ContractAddress>>,
    outcome: Option<CallOutcome>,
)
    ensures
        ({
            let r = spec_action(s, ev, ContractAction::Deploy(d), guaranteed, wl, outcome);
            &&& (guaranteed || !whitelisted(wl, d.address)) ==> r == Ok::<_, TransactionInvalid>((s, ev))
            &&& (!guaranteed && whitelisted(wl, d.address) && (exists|i: int| 0 <= i < s.len() && s[i].0 == d.address)) ==> r
                == Err::<(Seq<(ContractAddress, ContractView)>, Seq<(ContractAddress, Option<Val>)>), TransactionInvalid>(
                TransactionInvalid::ContractAlreadyDeployed(d.address),
            )
            &&& (!guaranteed && whitelisted(wl, d.address) && (forall|i: int| 0 <= i < s.len() ==> s[i].0 != d.address)) ==> r
                == Ok::<_, TransactionInvalid>(
                (s.push((d.address, cview(d.initial_state))), ev.push((d.address, None))),
            )
        }),
{
    lemma_contract_find_never_misses(s, d.address);
    lemma_contract_find_range(s, d.address);
}

proof fn lemma_contract_find_never_misses(s: Seq<(ContractAddress, ContractView)>, a: ContractAddress)
    ensures
        (exists|i: int| 0 <= i < s.len() && s[i].0 == a) ==> contract_find(s, a) >= 0,
    decreases s.len(),
{
    if s.len() > 0 {
        lemma_contract_find_never_misses(s.drop_last(), a);
        if exists|i: int| 0 <= i < s.len() && s[i].0 == a {
            let i = choose|i: int| 0 <= i < s.len() && s[i].0 == a;
            if i < s.len() - 1 {
                assert(s.drop_last()[i].0 == a);
            }
        }
    }
}

/// Maintenance updates apply only in the fallible part: in the guaranteed
/// part, or outside the whitelist, an update does nothing; otherwise it
/// needs its contract, and changes only that contract's keys and authority.
pub proof fn lemma_maintenance_only_fallible(
    s: Seq<(ContractAddress, ContractView)>,
    ev: Seq<(ContractAddress, Option<Val>)>,
    u: MaintenanceUpdate,
    guaranteed: bool,
    wl: Option<Vec<ContractAddress>>,
    outcome: Option<CallOutcome>,
)
    ensures
        ({
            let r = spec_action(s, ev, ContractAction::Maintain(u), guaranteed, wl, outcome);
            &&& (guaranteed || !whitelisted(wl, u.address)) ==> r == Ok::<_, TransactionInvalid>((s, ev))
            &&& (!guaranteed && whitelisted(wl, u.address) && (forall|i: int| 0 <= i < s.len() ==> s[i].0 != u.address)) ==> r
                == Err::<(Seq<(ContractAddress, ContractView)>, Seq<(ContractAddress, Option<Val>)>), TransactionInvalid>(
                TransactionInvalid::ContractNotPresent(u.address),
            )
            &&& (r matches Ok((s2, ev2)) ==> ev2 == ev && s2.len() == s.len() && forall|i: int|
                0 <= i < s.len() && s[i].0 != u.address ==> s2[i] == s[i])
            &&& (r matches Ok((s2, ev2)) ==> forall|i: int| 0 <= i < s.len() ==> #[trigger] s2[i].1.balance == s[i].1.balance)
        }),
{
    lemma_contract_find_range(s, u.address);
}

} // verus!
