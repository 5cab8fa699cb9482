//! The sequencing checks on the contract calls of a transaction. Within an
//! intent, a call that claims to call another must come before it, and the
//! sequence numbers of the calls a call makes must follow their positions; a
//! call made from a guaranteed section must itself be guaranteed-only, and
//! one made from a fallible section fallible-only; and no fallible call may
//! precede a guaranteed one, where calls to the same contract in successive
//! intents, and callers and their callees, are ordered.
use vstd::prelude::*;
use vstd::multiset::Multiset;
use crate::hash::{KeyEq, HashOutput, ContractAddress, hash_lt, hash_less, lemma_hash_order};
use crate::keyed::{KeyMap, MultiMap};
use crate::intent::{ClaimedContractCall, ContractCall, Effects, Intent, StandardTransaction};
use crate::counting::{flat_map, lemma_flat_map_take, lemma_flat_map_full, lemma_flat_map_append};

verus! {

/// The claimed calls of a transcript, none where it is absent.
pub open spec fn transcript_claims(t: Option<Effects>) -> Seq<ClaimedContractCall> {
    match t {
        Some(e) => e.claimed_contract_calls@,
        None => Seq::empty(),
    }
}

/// Whether a claimed call designates `callee`.
pub open spec fn claim_targets(c: ClaimedContractCall, callee: ContractCall) -> bool {
    c.address == callee.address && c.ep_hash == callee.ep_hash && c.commitment == callee.communication_commitment
}

/// The first index of `s` whose claim designates `callee`, if any.
pub open spec fn first_target(s: Seq<ClaimedContractCall>, callee: ContractCall) -> Option<int> {
    if exists|i: int| 0 <= i < s.len() && claim_targets(#[trigger] s[i], callee) {
        Some(choose|i: int| 0 <= i < s.len() && claim_targets(#[trigger] s[i], callee) && forall|j: int| 0 <= j < i ==> !claim_targets(#[trigger] s[j], callee))
    } else {
        None
    }
}

/// Finds the first claim in `s` that designates `callee`.
fn find_target(s: &Vec<ClaimedContractCall>, callee: &ContractCall) -> (r: Option<usize>)
    ensures
        match r {
            Some(i) => i < s@.len() && claim_targets(s@[i as int], *callee) && forall|j: int| 0 <= j < i ==> !claim_targets(#[trigger] s@[j], *callee),
            None => forall|j: int| 0 <= j < s@.len() ==> !claim_targets(#[trigger] s@[j], *callee),
        },
{
    let mut i: usize = 0;
    while i < s.len()
        invariant
            0 <= i <= s@.len(),
            forall|j: int| 0 <= j < i ==> !claim_targets(#[trigger] s@[j], *callee),
        decreases s@.len() - i,
    {
        let c = s[i];
        if c.address.key_eq(&callee.address) && c.ep_hash.key_eq(&callee.ep_hash) && c.commitment.key_eq(&callee.communication_commitment) {
            return Some(i);
        }
        i = i + 1;
    }
    None
}

impl ContractCall {
    /// Whether this call claims to call `callee`, and if so, whether from its
    /// guaranteed section and with which sequence number (the first such
    /// claim, guaranteed section first).
    pub open spec fn spec_calls_with_seq(&self, callee: ContractCall) -> Option<(bool, u64)> {
        let g = transcript_claims(self.guaranteed_transcript);
        let f = transcript_claims(self.fallible_transcript);
        match first_target(g, callee) {
            Some(i) => Some((true, g[i].seq)),
            None => match first_target(f, callee) {
                Some(i) => Some((false, f[i].seq)),
                None => None,
            },
        }
    }

    /// See `spec_calls_with_seq`.
    pub fn calls_with_seq(&self, callee: &ContractCall) -> (r: Option<(bool, u64)>)
        ensures
            r == self.spec_calls_with_seq(*callee),
    {
        let ghost g = transcript_claims(self.guaranteed_transcript);
        let ghost f = transcript_claims(self.fallible_transcript);
        match &self.guaranteed_transcript {
            Some(t) => match find_target(&t.claimed_contract_calls, callee) {
                Some(i) => {
                    proof {
                        let j = first_target(g, *callee)->0;
                        assert(j == i);
                    }
                    return Some((true, t.claimed_contract_calls[i].seq));
                },
                None => {},
            },
            None => {},
        }
        match &self.fallible_transcript {
            Some(t) => match find_target(&t.claimed_contract_calls, callee) {
                Some(i) => {
                    proof {
                        let j = first_target(f, *callee)->0;
                        assert(j == i);
                    }
                    Some((false, t.claimed_contract_calls[i].seq))
                },
                None => None,
            },
            None => None,
        }
    }

    /// Whether this call claims to call `callee`.
    pub fn calls(&self, callee: &ContractCall) -> (r: bool)
        ensures
            r == self.spec_calls_with_seq(*callee) is Some,
    {
        self.calls_with_seq(callee).is_some()
    }
}


/// A call within a transaction: its segment, contract, and position in its
/// intent.
#[derive(Debug, Clone, Copy)]
pub struct CallNode {
    pub segment_id: u16,
    pub addr: ContractAddress,
    pub call_index: u32,
}

impl KeyEq for CallNode {
    fn key_eq(&self, other: &Self) -> (r: bool) {
        self.segment_id == other.segment_id && self.addr.key_eq(&other.addr) && self.call_index == other.call_index
    }
}

/// Why the sequencing of a transaction's calls is refused.
#[derive(Debug, Clone, Copy)]
pub enum SequencingCheckError {
    CausalityConstraintViolation {
        call_predecessor: u32,
        call_successor: u32,
        call_predecessor_address: ContractAddress,
        call_successor_address: ContractAddress,
        segment_id_predecessor: u16,
        segment_id_successor: u16,
    },
    CallSequencingViolation {
        call_predecessor: u32,
        call_successor: u32,
        call_predecessor_address: ContractAddress,
        call_successor_address: ContractAddress,
    },
    SequencingCorrelationViolation {
        address_1: ContractAddress,
        address_2: ContractAddress,
        call_position_1: u32,
        call_position_2: u32,
    },
    FallibleInGuaranteedContextViolation {
        caller: u32,
        callee: u32,
        caller_address: ContractAddress,
        callee_address: ContractAddress,
    },
    GuaranteedInFallibleContextViolation {
        caller: u32,
        callee: u32,
        caller_address: ContractAddress,
        callee_address: ContractAddress,
    },
    CallHasEmptyTranscripts { segment_id: u16, addr: ContractAddress, call_index: u32 },
}

/// The error for a fallible call `pred` that precedes a guaranteed call
/// `succ`.
pub open spec fn causality_violation(pred: CallNode, succ: CallNode) -> SequencingCheckError {
    SequencingCheckError::CausalityConstraintViolation {
        call_predecessor: pred.call_index,
        call_successor: succ.call_index,
        call_predecessor_address: pred.addr,
        call_successor_address: succ.addr,
        segment_id_predecessor: pred.segment_id,
        segment_id_successor: succ.segment_id,
    }
}

/// The order of calls: by segment, then by contract (its address bytes),
/// then by position.
pub open spec fn node_lt(x: CallNode, y: CallNode) -> bool {
    ||| x.segment_id < y.segment_id
    ||| x.segment_id == y.segment_id && hash_lt(x.addr.0, y.addr.0)
    ||| x.segment_id == y.segment_id && x.addr == y.addr && x.call_index < y.call_index
}

/// The order of calls is a strict total order.
pub proof fn lemma_node_order(x: CallNode, y: CallNode, z: CallNode)
    ensures
        !node_lt(x, x),
        node_lt(x, y) && node_lt(y, z) ==> node_lt(x, z),
        x != y ==> node_lt(x, y) || node_lt(y, x),
{
    lemma_hash_order(x.addr.0, y.addr.0, z.addr.0);
}

/// Whether `x` orders before `y`.
pub fn node_less(x: &CallNode, y: &CallNode) -> (r: bool)
    ensures
        r == node_lt(*x, *y),
{
    if x.segment_id != y.segment_id {
        return x.segment_id < y.segment_id;
    }
    if hash_less(&x.addr.0, &y.addr.0) {
        return true;
    }
    if !x.addr.key_eq(&y.addr) {
        return false;
    }
    x.call_index < y.call_index
}

/// An edge from a fallible call to a guaranteed call.
pub open spec fn causality_edge(
    guaranteed: Map<CallNode, ()>,
    fallible: Map<CallNode, ()>,
    adjacencies: Map<CallNode, Seq<CallNode>>,
    f: CallNode,
    j: int,
) -> bool {
    &&& fallible.contains_key(f)
    &&& adjacencies.contains_key(f)
    &&& 0 <= j < adjacencies[f].len()
    &&& guaranteed.contains_key(adjacencies[f][j])
}

/// The first guaranteed call among `succ` from position `j` on.
pub open spec fn first_guaranteed_from(guaranteed: Map<CallNode, ()>, succ: Seq<CallNode>, j: int) -> Option<int>
    decreases succ.len() - j,
{
    if j < 0 || j >= succ.len() {
        None
    } else if guaranteed.contains_key(succ[j]) {
        Some(j)
    } else {
        first_guaranteed_from(guaranteed, succ, j + 1)
    }
}

/// Where a guaranteed call follows position `k`, the first one from `k` on
/// is found.
proof fn lemma_first_guaranteed(guaranteed: Map<CallNode, ()>, succ: Seq<CallNode>, k: int, j: int)
    requires
        0 <= k <= j < succ.len(),
        guaranteed.contains_key(succ[j]),
    ensures
        first_guaranteed_from(guaranteed, succ, k) matches Some(i) && k <= i <= j && guaranteed.contains_key(succ[i]),
    decreases j - k,
{
    if k < j && !guaranteed.contains_key(succ[k]) {
        lemma_first_guaranteed(guaranteed, succ, k + 1, j);
    }
}

/// Where no guaranteed call follows position `k`, none is found.
proof fn lemma_no_guaranteed(guaranteed: Map<CallNode, ()>, succ: Seq<CallNode>, k: int)
    requires
        0 <= k,
        first_guaranteed_from(guaranteed, succ, k) is None,
    ensures
        forall|j: int| k <= j < succ.len() ==> !guaranteed.contains_key(#[trigger] succ[j]),
    decreases succ.len() - k,
{
    if k < succ.len() {
        lemma_no_guaranteed(guaranteed, succ, k + 1);
    }
}

/// `x` is a fallible call that directly precedes a guaranteed one.
pub open spec fn violates(
    guaranteed: Map<CallNode, ()>,
    fallible: Map<CallNode, ()>,
    adjacencies: Map<CallNode, Seq<CallNode>>,
    x: CallNode,
) -> bool {
    exists|j: int| causality_edge(guaranteed, fallible, adjacencies, x, j)
}

/// `x` violates, and orders before every other call that does.
pub open spec fn least_violation(
    guaranteed: Map<CallNode, ()>,
    fallible: Map<CallNode, ()>,
    adjacencies: Map<CallNode, Seq<CallNode>>,
    x: CallNode,
) -> bool {
    &&& violates(guaranteed, fallible, adjacencies, x)
    &&& forall|y: CallNode| #[trigger] violates(guaranteed, fallible, adjacencies, y) && y != x ==> node_lt(x, y)
}

/// The outcome of the causality check: the least fallible call (in call
/// order) that directly precedes a guaranteed one, with the first such
/// successor; or no error.
pub open spec fn causality_outcome(
    guaranteed: Map<CallNode, ()>,
    fallible: Map<CallNode, ()>,
    adjacencies: Map<CallNode, Seq<CallNode>>,
) -> Result<(), SequencingCheckError> {
    if exists|x: CallNode| violates(guaranteed, fallible, adjacencies, x) {
        let x = choose|x: CallNode| least_violation(guaranteed, fallible, adjacencies, x);
        match first_guaranteed_from(guaranteed, adjacencies[x], 0) {
            Some(j) => Err(causality_violation(x, adjacencies[x][j])),
            None => Ok(()),
        }
    } else {
        Ok(())
    }
}

/// Checks that no fallible call directly precedes a guaranteed call, and
/// reports the least one that does (see `causality_outcome`). Since every
/// call that a fallible call precedes is itself checked where it is
/// fallible, and a guaranteed one is refused, this covers the transitive
/// closure.
pub fn causality_check(
    guaranteed_calls: &KeyMap<CallNode, ()>,
    fallible_calls: &KeyMap<CallNode, ()>,
    adjacencies: &MultiMap<CallNode, CallNode>,
) -> (res: Result<(), SequencingCheckError>)
    requires
        guaranteed_calls.wf(),
        fallible_calls.wf(),
        adjacencies.wf(),
    ensures
        res == causality_outcome(guaranteed_calls@, fallible_calls@, adjacencies@),
        res is Ok <==> !exists|f: CallNode, j: int| causality_edge(guaranteed_calls@, fallible_calls@, adjacencies@, f, j),
        res matches Err(e) ==> exists|f: CallNode, j: int| causality_edge(guaranteed_calls@, fallible_calls@, adjacencies@, f, j)
            && e == causality_violation(f, adjacencies@[f][j]),
{
    let ghost g = guaranteed_calls@;
    let ghost fl = fallible_calls@;
    let ghost adj = adjacencies@;
    let queue = fallible_calls.keys();
    let mut best: Option<(CallNode, CallNode)> = None;
    let mut qi: usize = 0;
    while qi < queue.len()
        invariant
            0 <= qi <= queue@.len(),
            guaranteed_calls.wf(),
            fallible_calls.wf(),
            adjacencies.wf(),
            g == guaranteed_calls@,
            fl == fallible_calls@,
            adj == adjacencies@,
            forall|k: CallNode| fallible_calls@.contains_key(k) <==> queue@.contains(k),
            best is None ==> forall|k: int| 0 <= k < qi ==> !violates(g, fl, adj, #[trigger] queue@[k]),
            best matches Some((b, sc)) ==> {
                &&& violates(g, fl, adj, b)
                &&& first_guaranteed_from(g, adj[b], 0) matches Some(j) && sc == adj[b][j]
                &&& forall|k: int| 0 <= k < qi && violates(g, fl, adj, #[trigger] queue@[k]) ==> queue@[k] == b || node_lt(b, queue@[k])
            },
        decreases queue@.len() - qi,
    {
        let curr = queue[qi];
        assert(queue@.contains(curr)) by {
            assert(queue@[qi as int] == curr);
        }
        let neighbors = adjacencies.get(&curr);
        let mut ni: usize = 0;
        while ni < neighbors.len() && !guaranteed_calls.contains_key(&neighbors[ni])
            invariant
                0 <= ni <= neighbors@.len(),
                guaranteed_calls.wf(),
                g == guaranteed_calls@,
                first_guaranteed_from(g, neighbors@, 0) == first_guaranteed_from(g, neighbors@, ni as int),
            decreases neighbors@.len() - ni,
        {
            ni = ni + 1;
        }
        proof {
            assert(neighbors@ == list_at(adj, curr));
            if violates(g, fl, adj, curr) {
                let j = choose|j: int| causality_edge(g, fl, adj, curr, j);
                lemma_first_guaranteed(g, neighbors@, 0, j);
            }
        }
        if ni < neighbors.len() {
            let succ = neighbors[ni];
            proof {
                assert(causality_edge(g, fl, adj, curr, ni as int));
            }
            match best {
                None => {
                    best = Some((curr, succ));
                },
                Some((b, _)) => {
                    if node_less(&curr, &b) {
                        proof {
                            assert forall|k: int| 0 <= k < qi + 1 && violates(g, fl, adj, #[trigger] queue@[k]) implies queue@[k] == curr
                                || node_lt(curr, queue@[k]) by {
                                if k < qi && queue@[k] != b {
                                    lemma_node_order(curr, b, queue@[k]);
                                }
                            }
                        }
                        best = Some((curr, succ));
                    } else {
                        proof {
                            lemma_node_order(b, curr, b);
                        }
                    }
                },
            }
        } else {
            proof {
                if violates(g, fl, adj, curr) {
                    let j = choose|j: int| causality_edge(g, fl, adj, curr, j);
                    lemma_first_guaranteed(g, neighbors@, 0, j);
                }
            }
        }
        qi = qi + 1;
    }
    match best {
        None => {
            proof {
                assert forall|f: CallNode, j: int| !causality_edge(g, fl, adj, f, j) by {
                    if causality_edge(g, fl, adj, f, j) {
                        assert(queue@.contains(f));
                        let i = choose|i: int| 0 <= i < queue@.len() && queue@[i] == f;
                        assert(!violates(g, fl, adj, queue@[i]));
                    }
                }
            }
            Ok(())
        },
        Some((b, sc)) => {
            proof {
                assert forall|y: CallNode| #[trigger] violates(g, fl, adj, y) && y != b implies node_lt(b, y) by {
                    let j = choose|j: int| causality_edge(g, fl, adj, y, j);
                    assert(queue@.contains(y));
                    let i = choose|i: int| 0 <= i < queue@.len() && queue@[i] == y;
                    assert(violates(g, fl, adj, queue@[i]));
                }
                assert(least_violation(g, fl, adj, b));
                let x = choose|x: CallNode| least_violation(g, fl, adj, x);
                if x != b {
                    lemma_node_order(x, b, x);
                }
                assert(x == b);
                let j = first_guaranteed_from(g, adj[b], 0)->Some_0;
                assert(causality_edge(g, fl, adj, b, j)) by {
                    lemma_first_guaranteed_some(g, adj[b], 0);
                }
            }
            Err(SequencingCheckError::CausalityConstraintViolation {
                call_predecessor: b.call_index,
                call_successor: sc.call_index,
                call_predecessor_address: b.addr,
                call_successor_address: sc.addr,
                segment_id_predecessor: b.segment_id,
                segment_id_successor: sc.segment_id,
            })
        },
    }
}

/// What is found is a guaranteed call at a valid position.
proof fn lemma_first_guaranteed_some(guaranteed: Map<CallNode, ()>, succ: Seq<CallNode>, k: int)
    requires
        0 <= k,
        first_guaranteed_from(guaranteed, succ, k) is Some,
    ensures
        first_guaranteed_from(guaranteed, succ, k) matches Some(i) && k <= i < succ.len() && guaranteed.contains_key(succ[i]),
    decreases succ.len() - k,
{
    if k < succ.len() && !guaranteed.contains_key(succ[k]) {
        lemma_first_guaranteed_some(guaranteed, succ, k + 1);
    }
}

/// What identifies a call within an intent: the contract, the entry point
/// hash and the communication commitment.
#[derive(Debug, Clone, Copy)]
pub struct CallKey {
    pub addr: ContractAddress,
    pub ep_hash: HashOutput,
    pub commitment: HashOutput,
}

impl KeyEq for CallKey {
    fn key_eq(&self, other: &Self) -> (r: bool) {
        self.addr.key_eq(&other.addr) && self.ep_hash.key_eq(&other.ep_hash) && self.commitment.key_eq(&other.commitment)
    }
}

/// The key of a call.
pub open spec fn call_key(c: ContractCall) -> CallKey {
    CallKey { addr: c.address, ep_hash: c.ep_hash, commitment: c.communication_commitment }
}

/// The key of the call a claim designates.
pub open spec fn claim_key(c: ClaimedContractCall) -> CallKey {
    CallKey { addr: c.address, ep_hash: c.ep_hash, commitment: c.commitment }
}

/// The calls a call claims to make: its guaranteed transcript's, then its
/// fallible transcript's.
pub open spec fn all_claims(c: ContractCall) -> Seq<ClaimedContractCall> {
    transcript_claims(c.guaranteed_transcript) + transcript_claims(c.fallible_transcript)
}

/// The list at `k` of a multimap's view, empty where `k` is absent.
pub open spec fn list_at<K, V>(m: Map<K, Seq<V>>, k: K) -> Seq<V> {
    if m.contains_key(k) {
        m[k]
    } else {
        Seq::empty()
    }
}

/// The positions of the calls of an intent by key, each list in increasing
/// order: the lookup built from the first `n` calls.
pub open spec fn lookup_upto(calls: Seq<ContractCall>, n: int) -> Map<CallKey, Seq<u32>>
    decreases n,
{
    if n <= 0 {
        Map::empty()
    } else {
        let m = lookup_upto(calls, n - 1);
        let k = call_key(calls[n - 1]);
        m.insert(k, list_at(m, k).push((n - 1) as u32))
    }
}

/// A call that a call makes within its intent: the callee's position, the
/// sequence number of the claim, and the callee's contract.
#[derive(Debug, Clone, Copy)]
pub struct SubCall {
    pub call_index: u32,
    pub seq: u64,
    pub address: ContractAddress,
}

/// The sub-calls one claim designates: each call of the intent with the
/// claimed key.
pub open spec fn claim_sub_calls(lookup: Map<CallKey, Seq<u32>>, cl: ClaimedContractCall) -> Seq<SubCall> {
    list_at(lookup, claim_key(cl)).map_values(|cid: u32| SubCall { call_index: cid, seq: cl.seq, address: cl.address })
}

/// The sub-calls of a call, claim by claim.
pub open spec fn sub_calls(lookup: Map<CallKey, Seq<u32>>, c: ContractCall) -> Seq<SubCall> {
    flat_map(all_claims(c), |cl: ClaimedContractCall| claim_sub_calls(lookup, cl))
}

/// The error for a call at `pos` that claims a call at `s.call_index` that
/// does not follow it.
pub open spec fn sequencing_violation(pos: u32, caller: ContractAddress, s: SubCall) -> SequencingCheckError {
    SequencingCheckError::CallSequencingViolation {
        call_predecessor: pos,
        call_successor: s.call_index,
        call_predecessor_address: caller,
        call_successor_address: s.address,
    }
}

/// The first index from `i` on of a sub-call that does not follow `pos`.
pub open spec fn first_backward_from(subs: Seq<SubCall>, pos: u32, i: int) -> Option<int>
    decreases subs.len() - i,
{
    if i < 0 || i >= subs.len() {
        None
    } else if subs[i].call_index <= pos {
        Some(i)
    } else {
        first_backward_from(subs, pos, i + 1)
    }
}

/// Builds the lookup of an intent's calls by key.
pub fn build_call_lookup(calls: &Vec<ContractCall>) -> (r: MultiMap<CallKey, u32>)
    requires
        calls@.len() <= u32::MAX,
    ensures
        r.wf(),
        r@ == lookup_upto(calls@, calls@.len() as int),
{
    let mut m: MultiMap<CallKey, u32> = MultiMap::new();
    let mut i: usize = 0;
    while i < calls.len()
        invariant
            0 <= i <= calls@.len(),
            calls@.len() <= u32::MAX,
            m.wf(),
            m@ == lookup_upto(calls@, i as int),
        decreases calls@.len() - i,
    {
        let c = &calls[i];
        let k = CallKey { addr: c.address, ep_hash: c.ep_hash, commitment: c.communication_commitment };
        m.push(k, i as u32);
        i = i + 1;
    }
    m
}

/// Appends the sub-calls that the claims in `claims` designate.
fn push_sub_calls(out: &mut Vec<SubCall>, claims: &Vec<ClaimedContractCall>, lookup: &MultiMap<CallKey, u32>)
    requires
        lookup.wf(),
    ensures
        final(out)@ == old(out)@ + flat_map(claims@, |cl: ClaimedContractCall| claim_sub_calls(lookup@, cl)),
{
    let ghost f = |cl: ClaimedContractCall| claim_sub_calls(lookup@, cl);
    let ghost start = out@;
    let mut i: usize = 0;
    while i < claims.len()
        invariant
            0 <= i <= claims@.len(),
            lookup.wf(),
            f == (|cl: ClaimedContractCall| claim_sub_calls(lookup@, cl)),
            out@ == start + flat_map(claims@.take(i as int), f),
        decreases claims@.len() - i,
    {
        let cl = claims[i];
        let cids = lookup.get(&CallKey { addr: cl.address, ep_hash: cl.ep_hash, commitment: cl.commitment });
        let ghost before = out@;
        let ghost items = claim_sub_calls(lookup@, cl);
        let mut j: usize = 0;
        while j < cids.len()
            invariant
                0 <= j <= cids@.len(),
                items.len() == cids@.len(),
                items == claim_sub_calls(lookup@, cl),
                cids@ == list_at(lookup@, claim_key(cl)),
                out@ == before + items.take(j as int),
            decreases cids@.len() - j,
        {
            out.push(SubCall { call_index: cids[j], seq: cl.seq, address: cl.address });
            assert(items.take(j as int + 1) =~= items.take(j as int).push(items[j as int]));
            j = j + 1;
        }
        proof {
            assert(items.take(cids@.len() as int) =~= items);
            lemma_flat_map_take(claims@, f, i as int);
        }
        i = i + 1;
    }
    proof {
        lemma_flat_map_full(claims@, f);
    }
}

/// Collects the sub-calls of a call.
fn collect_sub_calls(call: &ContractCall, lookup: &MultiMap<CallKey, u32>) -> (r: Vec<SubCall>)
    requires
        lookup.wf(),
    ensures
        r@ == sub_calls(lookup@, *call),
{
    let ghost f = |cl: ClaimedContractCall| claim_sub_calls(lookup@, cl);
    let mut out: Vec<SubCall> = Vec::new();
    match &call.guaranteed_transcript {
        Some(g) => push_sub_calls(&mut out, &g.claimed_contract_calls, lookup),
        None => {
            assert(out@ =~= flat_map(transcript_claims(call.guaranteed_transcript), f));
        },
    }
    let ghost mid = out@;
    match &call.fallible_transcript {
        Some(t) => push_sub_calls(&mut out, &t.claimed_contract_calls, lookup),
        None => {
            assert(out@ =~= mid + flat_map(transcript_claims(call.fallible_transcript), f));
        },
    }
    proof {
        lemma_flat_map_append(transcript_claims(call.guaranteed_transcript), transcript_claims(call.fallible_transcript), f);
    }
    out
}

/// Checks that every call that the call at `context_call_position` makes
/// within its intent comes after it, and gives those sub-calls in claim
/// order; else reports the first that does not.
pub fn call_sequencing_check(
    context_call_position: u32,
    contextual_call: &ContractCall,
    call_lookup: &MultiMap<CallKey, u32>,
) -> (res: Result<Vec<SubCall>, SequencingCheckError>)
    requires
        call_lookup.wf(),
    ensures
        ({
            let subs = sub_calls(call_lookup@, *contextual_call);
            &&& res is Ok <==> forall|i: int| 0 <= i < subs.len() ==> context_call_position < #[trigger] subs[i].call_index
            &&& res matches Ok(v) ==> v@ == subs
            &&& res matches Err(e) ==> exists|i: int| 0 <= i < subs.len() && #[trigger] subs[i].call_index <= context_call_position
                && (forall|j: int| 0 <= j < i ==> context_call_position < #[trigger] subs[j].call_index)
                && e == sequencing_violation(context_call_position, contextual_call.address, subs[i])
            &&& match first_backward_from(subs, context_call_position, 0) {
                Some(i) => res == Err::<Vec<SubCall>, SequencingCheckError>(sequencing_violation(context_call_position, contextual_call.address, subs[i])),
                None => res is Ok,
            }
        }),
{
    let subs = collect_sub_calls(contextual_call, call_lookup);
    let mut i: usize = 0;
    while i < subs.len()
        invariant
            0 <= i <= subs@.len(),
            subs@ == sub_calls(call_lookup@, *contextual_call),
            forall|j: int| 0 <= j < i ==> context_call_position < #[trigger] subs@[j].call_index,
            first_backward_from(subs@, context_call_position, 0) == first_backward_from(subs@, context_call_position, i as int),
        decreases subs@.len() - i,
    {
        if subs[i].call_index <= context_call_position {
            let s = subs[i];
            let e = SequencingCheckError::CallSequencingViolation {
                call_predecessor: context_call_position,
                call_successor: s.call_index,
                call_predecessor_address: contextual_call.address,
                call_successor_address: s.address,
            };
            proof {
                let sp = sub_calls(call_lookup@, *contextual_call);
                assert(e == sequencing_violation(context_call_position, contextual_call.address, sp[i as int]));
                assert(sp[i as int].call_index <= context_call_position);
                assert(!(forall|i: int| 0 <= i < sp.len() ==> context_call_position < #[trigger] sp[i].call_index));
            }
            return Err(e);
        }
        i = i + 1;
    }
    Ok(subs)
}

/// Sub-calls are ordered by sequence number, then by position.
pub open spec fn sub_call_le(a: SubCall, b: SubCall) -> bool {
    a.seq < b.seq || (a.seq == b.seq && a.call_index <= b.call_index)
}

/// Where `x` goes in `t`, scanning from `p`: before the first element that
/// orders after it, or at the end.
pub open spec fn insert_pos(t: Seq<SubCall>, x: SubCall, p: int) -> int
    decreases t.len() - p,
{
    if p < 0 || p >= t.len() || !sub_call_le(t[p], x) {
        p
    } else {
        insert_pos(t, x, p + 1)
    }
}

/// The sub-calls sorted by sequence number then position, equal ones kept in
/// their order: each inserted after those that do not order after it.
pub open spec fn sort_sub_calls(s: Seq<SubCall>) -> Seq<SubCall>
    decreases s.len(),
{
    if s.len() == 0 {
        Seq::empty()
    } else {
        let t = sort_sub_calls(s.drop_last());
        t.insert(insert_pos(t, s.last(), 0), s.last())
    }
}

/// Two neighbouring sub-calls that agree: the second follows the first both
/// in sequence number and in position.
pub open spec fn neighbours_agree(a: SubCall, b: SubCall) -> bool {
    a.seq < b.seq && a.call_index < b.call_index
}

/// The error for neighbours that disagree, made by the call to `caller`.
pub open spec fn correlation_violation(caller: ContractAddress, a: SubCall, b: SubCall) -> SequencingCheckError {
    SequencingCheckError::SequencingCorrelationViolation {
        address_1: caller,
        address_2: a.address,
        call_position_1: a.call_index,
        call_position_2: b.call_index,
    }
}

/// The first disagreement from position `i` on between neighbours of `w`.
pub open spec fn first_disagreement_from(caller: ContractAddress, w: Seq<SubCall>, i: int) -> Option<SequencingCheckError>
    decreases w.len() - i,
{
    if i < 0 || i + 1 >= w.len() {
        None
    } else if !neighbours_agree(w[i], w[i + 1]) {
        Some(correlation_violation(caller, w[i], w[i + 1]))
    } else {
        first_disagreement_from(caller, w, i + 1)
    }
}

/// Sorts the sub-calls by sequence number then position, keeping equal ones
/// in order.
pub fn sorted_sub_calls(subs: &Vec<SubCall>) -> (r: Vec<SubCall>)
    ensures
        r@ == sort_sub_calls(subs@),
{
    let mut r: Vec<SubCall> = Vec::new();
    let mut i: usize = 0;
    while i < subs.len()
        invariant
            0 <= i <= subs@.len(),
            r@ == sort_sub_calls(subs@.take(i as int)),
        decreases subs@.len() - i,
    {
        let x = subs[i];
        let mut p: usize = 0;
        while p < r.len() && (r[p].seq < x.seq || (r[p].seq == x.seq && r[p].call_index <= x.call_index))
            invariant
                0 <= p <= r@.len(),
                insert_pos(r@, x, 0) == insert_pos(r@, x, p as int),
            decreases r@.len() - p,
        {
            p = p + 1;
        }
        proof {
            assert(subs@.take(i as int + 1).drop_last() =~= subs@.take(i as int));
            assert(subs@.take(i as int + 1).last() == x);
        }
        r.insert(p, x);
        i = i + 1;
    }
    assert(subs@.take(subs@.len() as int) =~= subs@);
    r
}

/// Checks that sequence numbers follow positions: sorted by sequence number
/// then position, each sub-call must follow the one before it in both. The
/// first pair that does not is reported.
pub fn sequencing_correlation_check(contextual_call_address: ContractAddress, sequenced_sub_calls: Vec<SubCall>) -> (res: Result<(), SequencingCheckError>)
    ensures
        ({
            let w = sort_sub_calls(sequenced_sub_calls@);
            &&& res is Ok <==> forall|i: int| 0 <= i < w.len() - 1 ==> neighbours_agree(#[trigger] w[i], w[i + 1])
            &&& res matches Err(e) ==> exists|i: int| 0 <= i < w.len() - 1 && !neighbours_agree(#[trigger] w[i], w[i + 1])
                && (forall|j: int| 0 <= j < i ==> neighbours_agree(#[trigger] w[j], w[j + 1]))
                && e == correlation_violation(contextual_call_address, w[i], w[i + 1])
            &&& match first_disagreement_from(contextual_call_address, w, 0) {
                Some(e) => res == Err::<(), SequencingCheckError>(e),
                None => res is Ok,
            }
        }),
        res is Ok <==> correlated(sequenced_sub_calls@.to_multiset()),
{
    proof {
        lemma_correlation_check_accepts_correlated(contextual_call_address, sequenced_sub_calls@);
    }
    let w = sorted_sub_calls(&sequenced_sub_calls);
    if w.len() == 0 {
        return Ok(());
    }
    let last: usize = w.len() - 1;
    let mut i: usize = 0;
    while i < last
        invariant
            0 <= i <= last,
            last == w@.len() - 1,
            w@ == sort_sub_calls(sequenced_sub_calls@),
            forall|j: int| 0 <= j < i && j < w@.len() - 1 ==> neighbours_agree(#[trigger] w@[j], w@[j + 1]),
            first_disagreement_from(contextual_call_address, w@, 0) == first_disagreement_from(contextual_call_address, w@, i as int),
        decreases w@.len() - i,
    {
        let a = w[i];
        let b = w[i + 1];
        if !(a.seq < b.seq && a.call_index < b.call_index) {
            let e = SequencingCheckError::SequencingCorrelationViolation {
                address_1: contextual_call_address,
                address_2: a.address,
                call_position_1: a.call_index,
                call_position_2: b.call_index,
            };
            proof {
                assert(!neighbours_agree(w@[i as int], w@[i as int + 1]));
                assert(e == correlation_violation(contextual_call_address, w@[i as int], w@[i as int + 1]));
                lemma_correlation_check_accepts_correlated(contextual_call_address, sequenced_sub_calls@);
            }
            return Err(e);
        }
        i = i + 1;
    }
    Ok(())
}

/// The node of the call at position `c` of an intent in segment `seg`.
pub open spec fn call_node(seg: u16, calls: Seq<ContractCall>, c: int) -> CallNode {
    CallNode { segment_id: seg, addr: calls[c].address, call_index: c as u32 }
}

/// A call has at least one transcript.
pub open spec fn has_transcript(c: ContractCall) -> bool {
    c.guaranteed_transcript is Some || c.fallible_transcript is Some
}

/// The first position from `c` on of a call without a transcript.
pub open spec fn first_empty_from(calls: Seq<ContractCall>, c: int) -> Option<int>
    decreases calls.len() - c,
{
    if c < 0 || c >= calls.len() {
        None
    } else if !has_transcript(calls[c]) {
        Some(c)
    } else {
        first_empty_from(calls, c + 1)
    }
}

/// The nodes marked guaranteed (or fallible) after the first `n` calls of
/// an intent: those with a guaranteed (or fallible) transcript are added.
pub open spec fn marked_upto(m: Map<CallNode, ()>, seg: u16, calls: Seq<ContractCall>, n: int, guaranteed: bool) -> Map<CallNode, ()>
    decreases n,
{
    if n <= 0 {
        m
    } else {
        let p = marked_upto(m, seg, calls, n - 1, guaranteed);
        let has = if guaranteed {
            calls[n - 1].guaranteed_transcript is Some
        } else {
            calls[n - 1].fallible_transcript is Some
        };
        if has {
            p.insert(call_node(seg, calls, n - 1), ())
        } else {
            p
        }
    }
}

/// The latest call to each contract after the first `n` calls of an intent.
pub open spec fn last_upto(last: Map<ContractAddress, CallNode>, seg: u16, calls: Seq<ContractCall>, n: int) -> Map<ContractAddress, CallNode>
    decreases n,
{
    if n <= 0 {
        last
    } else {
        last_upto(last, seg, calls, n - 1).insert(calls[n - 1].address, call_node(seg, calls, n - 1))
    }
}

/// The precedence edges after the first `n` calls of an intent: each call
/// is preceded by the latest earlier call to the same contract, in this
/// intent or an earlier one.
pub open spec fn order_edges_upto(
    adj: Map<CallNode, Seq<CallNode>>,
    last: Map<ContractAddress, CallNode>,
    seg: u16,
    calls: Seq<ContractCall>,
    n: int,
) -> Map<CallNode, Seq<CallNode>>
    decreases n,
{
    if n <= 0 {
        adj
    } else {
        let a = order_edges_upto(adj, last, seg, calls, n - 1);
        let l = last_upto(last, seg, calls, n - 1);
        let addr = calls[n - 1].address;
        if l.contains_key(addr) {
            a.insert(l[addr], list_at(a, l[addr]).push(call_node(seg, calls, n - 1)))
        } else {
            a
        }
    }
}

/// A call that claims to call another, and whether the claim is in its
/// guaranteed transcript.
#[derive(Debug, Clone, Copy)]
pub struct CallerRef {
    pub node: CallNode,
    pub guaranteed: bool,
}

/// `r` recorded as a caller of each call that `claims` designates.
pub open spec fn push_claims(m: Map<CallKey, Seq<CallerRef>>, claims: Seq<ClaimedContractCall>, r: CallerRef) -> Map<CallKey, Seq<CallerRef>>
    decreases claims.len(),
{
    if claims.len() == 0 {
        m
    } else {
        let p = push_claims(m, claims.drop_last(), r);
        let k = claim_key(claims.last());
        p.insert(k, list_at(p, k).push(r))
    }
}

/// The callers of each key after the first `n` calls of an intent.
pub open spec fn callers_upto(seg: u16, calls: Seq<ContractCall>, n: int) -> Map<CallKey, Seq<CallerRef>>
    decreases n,
{
    if n <= 0 {
        Map::empty()
    } else {
        let node = call_node(seg, calls, n - 1);
        push_claims(
            push_claims(
                callers_upto(seg, calls, n - 1),
                transcript_claims(calls[n - 1].guaranteed_transcript),
                CallerRef { node, guaranteed: true },
            ),
            transcript_claims(calls[n - 1].fallible_transcript),
            CallerRef { node, guaranteed: false },
        )
    }
}

/// Records `r` as the caller of each call that `claims` designates.
fn push_claim_callers(callers: &mut MultiMap<CallKey, CallerRef>, claims: &Vec<ClaimedContractCall>, r: CallerRef)
    requires
        old(callers).wf(),
    ensures
        final(callers).wf(),
        final(callers)@ == push_claims(old(callers)@, claims@, r),
{
    let ghost start = callers@;
    let mut i: usize = 0;
    while i < claims.len()
        invariant
            0 <= i <= claims@.len(),
            callers.wf(),
            callers@ == push_claims(start, claims@.take(i as int), r),
        decreases claims@.len() - i,
    {
        let cl = claims[i];
        proof {
            assert(claims@.take(i as int + 1).drop_last() =~= claims@.take(i as int));
            assert(claims@.take(i as int + 1).last() == cl);
        }
        callers.push(CallKey { addr: cl.address, ep_hash: cl.ep_hash, commitment: cl.commitment }, r);
        i = i + 1;
    }
    assert(claims@.take(claims@.len() as int) =~= claims@);
}

/// Records the calls of an intent: each as guaranteed and/or fallible, each
/// preceded by the latest earlier call to its contract, and who claims to
/// call what. Refuses the first call that has no transcript, changing
/// nothing.
pub fn relate_nodes(
    guaranteed_calls: &mut KeyMap<CallNode, ()>,
    fallible_calls: &mut KeyMap<CallNode, ()>,
    last_call_by_address: &mut KeyMap<ContractAddress, CallNode>,
    adjacencies: &mut MultiMap<CallNode, CallNode>,
    segment_id: u16,
    calls: &Vec<ContractCall>,
) -> (res: Result<MultiMap<CallKey, CallerRef>, SequencingCheckError>)
    requires
        old(guaranteed_calls).wf(),
        old(fallible_calls).wf(),
        old(last_call_by_address).wf(),
        old(adjacencies).wf(),
        calls@.len() <= u32::MAX,
    ensures
        final(guaranteed_calls).wf(),
        final(fallible_calls).wf(),
        final(last_call_by_address).wf(),
        final(adjacencies).wf(),
        res is Ok <==> forall|c: int| 0 <= c < calls@.len() ==> has_transcript(#[trigger] calls@[c]),
        res is Ok <==> first_empty_from(calls@, 0) is None,
        first_empty_from(calls@, 0) matches Some(c) ==> res == Err::<MultiMap<CallKey, CallerRef>, SequencingCheckError>(
            SequencingCheckError::CallHasEmptyTranscripts { segment_id, addr: calls@[c].address, call_index: c as u32 },
        ),
        res matches Err(e) ==> {
            &&& exists|c: int| 0 <= c < calls@.len() && !has_transcript(#[trigger] calls@[c])
                && (forall|d: int| 0 <= d < c ==> has_transcript(#[trigger] calls@[d]))
                && e == (SequencingCheckError::CallHasEmptyTranscripts { segment_id, addr: calls@[c].address, call_index: c as u32 })
            &&& final(guaranteed_calls)@ == old(guaranteed_calls)@
            &&& final(fallible_calls)@ == old(fallible_calls)@
            &&& final(last_call_by_address)@ == old(last_call_by_address)@
            &&& final(adjacencies)@ == old(adjacencies)@
        },
        res matches Ok(callers) ==> {
            &&& callers.wf()
            &&& callers@ == callers_upto(segment_id, calls@, calls@.len() as int)
            &&& final(guaranteed_calls)@ == marked_upto(old(guaranteed_calls)@, segment_id, calls@, calls@.len() as int, true)
            &&& final(fallible_calls)@ == marked_upto(old(fallible_calls)@, segment_id, calls@, calls@.len() as int, false)
            &&& final(last_call_by_address)@ == last_upto(old(last_call_by_address)@, segment_id, calls@, calls@.len() as int)
            &&& final(adjacencies)@ == order_edges_upto(old(adjacencies)@, old(last_call_by_address)@, segment_id, calls@, calls@.len() as int)
        },
{
    let mut c: usize = 0;
    while c < calls.len()
        invariant
            0 <= c <= calls@.len(),
            calls@.len() <= u32::MAX,
            guaranteed_calls.wf(),
            fallible_calls.wf(),
            last_call_by_address.wf(),
            adjacencies.wf(),
            forall|d: int| 0 <= d < c ==> has_transcript(#[trigger] calls@[d]),
            first_empty_from(calls@, 0) == first_empty_from(calls@, c as int),
        decreases calls@.len() - c,
    {
        if calls[c].guaranteed_transcript.is_none() && calls[c].fallible_transcript.is_none() {
            let e = SequencingCheckError::CallHasEmptyTranscripts { segment_id, addr: calls[c].address, call_index: c as u32 };
            assert(!has_transcript(calls@[c as int]));
            return Err(e);
        }
        c = c + 1;
    }
    let ghost g0 = guaranteed_calls@;
    let ghost f0 = fallible_calls@;
    let ghost l0 = last_call_by_address@;
    let ghost a0 = adjacencies@;
    let mut callers: MultiMap<CallKey, CallerRef> = MultiMap::new();
    let mut i: usize = 0;
    while i < calls.len()
        invariant
            0 <= i <= calls@.len(),
            calls@.len() <= u32::MAX,
            guaranteed_calls.wf(),
            fallible_calls.wf(),
            last_call_by_address.wf(),
            adjacencies.wf(),
            callers.wf(),
            guaranteed_calls@ == marked_upto(g0, segment_id, calls@, i as int, true),
            fallible_calls@ == marked_upto(f0, segment_id, calls@, i as int, false),
            last_call_by_address@ == last_upto(l0, segment_id, calls@, i as int),
            adjacencies@ == order_edges_upto(a0, l0, segment_id, calls@, i as int),
            callers@ == callers_upto(segment_id, calls@, i as int),
        decreases calls@.len() - i,
    {
        let call = &calls[i];
        let node = CallNode { segment_id, addr: call.address, call_index: i as u32 };
        assert(node == call_node(segment_id, calls@, i as int));
        if call.guaranteed_transcript.is_some() {
            guaranteed_calls.insert(node, ());
        }
        if call.fallible_transcript.is_some() {
            fallible_calls.insert(node, ());
        }
        match last_call_by_address.get(&call.address) {
            Some(prev) => adjacencies.push(prev, node),
            None => {},
        }
        last_call_by_address.insert(call.address, node);
        match &call.guaranteed_transcript {
            Some(t) => push_claim_callers(&mut callers, &t.claimed_contract_calls, CallerRef { node, guaranteed: true }),
            None => {},
        }
        match &call.fallible_transcript {
            Some(t) => push_claim_callers(&mut callers, &t.claimed_contract_calls, CallerRef { node, guaranteed: false }),
            None => {},
        }
        i = i + 1;
    }
    Ok(callers)
}

/// The violation, if any, of a callee at position `c` by one of its
/// callers: a guaranteed caller of a call with a fallible transcript, or a
/// fallible caller of a call with a guaranteed transcript.
pub open spec fn caller_violation(r: CallerRef, seg: u16, calls: Seq<ContractCall>, c: int) -> Option<SequencingCheckError> {
    let callee = calls[c];
    if r.guaranteed && callee.fallible_transcript is Some {
        Some(SequencingCheckError::FallibleInGuaranteedContextViolation {
            caller: r.node.call_index,
            callee: c as u32,
            caller_address: r.node.addr,
            callee_address: callee.address,
        })
    } else if !r.guaranteed && callee.guaranteed_transcript is Some {
        Some(SequencingCheckError::GuaranteedInFallibleContextViolation {
            caller: r.node.call_index,
            callee: c as u32,
            caller_address: r.node.addr,
            callee_address: callee.address,
        })
    } else {
        None
    }
}

/// The positions `0..n`.
pub open spec fn positions(n: int) -> Seq<int> {
    Seq::new(n as nat, |c: int| c)
}

/// The checks on the callers of the call at position `c`, in order.
pub open spec fn callee_checks(seg: u16, calls: Seq<ContractCall>, callers: Map<CallKey, Seq<CallerRef>>, c: int) -> Seq<Option<SequencingCheckError>> {
    list_at(callers, call_key(calls[c])).map_values(|r: CallerRef| caller_violation(r, seg, calls, c))
}

/// All context checks of an intent: callee by callee, caller by caller.
pub open spec fn context_checks(seg: u16, calls: Seq<ContractCall>, callers: Map<CallKey, Seq<CallerRef>>) -> Seq<Option<SequencingCheckError>> {
    flat_map(positions(calls.len() as int), |c: int| callee_checks(seg, calls, callers, c))
}

/// The first error among the checks from `i` on.
pub open spec fn first_some_from(checks: Seq<Option<SequencingCheckError>>, i: int) -> Option<SequencingCheckError>
    decreases checks.len() - i,
{
    if i < 0 || i >= checks.len() {
        None
    } else if checks[i] is Some {
        checks[i]
    } else {
        first_some_from(checks, i + 1)
    }
}

/// The first error is the one before which every check passes.
pub proof fn lemma_first_some(checks: Seq<Option<SequencingCheckError>>, k: int, i: int)
    requires
        0 <= k <= i < checks.len(),
        checks[i] is Some,
        forall|j: int| k <= j < i ==> #[trigger] checks[j] is None,
    ensures
        first_some_from(checks, k) == checks[i],
    decreases i - k,
{
    if k < i {
        lemma_first_some(checks, k + 1, i);
    }
}

/// Where every check passes, there is no first error.
pub proof fn lemma_no_some(checks: Seq<Option<SequencingCheckError>>, k: int)
    requires
        0 <= k,
        forall|j: int| k <= j < checks.len() ==> #[trigger] checks[j] is None,
    ensures
        first_some_from(checks, k) is None,
    decreases checks.len() - k,
{
    if k < checks.len() {
        lemma_no_some(checks, k + 1);
    }
}

/// `node` recorded as following each caller in `refs`.
pub open spec fn push_callee(adj: Map<CallNode, Seq<CallNode>>, refs: Seq<CallerRef>, node: CallNode) -> Map<CallNode, Seq<CallNode>>
    decreases refs.len(),
{
    if refs.len() == 0 {
        adj
    } else {
        let p = push_callee(adj, refs.drop_last(), node);
        let m = refs.last().node;
        p.insert(m, list_at(p, m).push(node))
    }
}

/// The edges from callers to callees after the first `n` calls.
pub open spec fn context_edges_upto(
    adj: Map<CallNode, Seq<CallNode>>,
    seg: u16,
    calls: Seq<ContractCall>,
    callers: Map<CallKey, Seq<CallerRef>>,
    n: int,
) -> Map<CallNode, Seq<CallNode>>
    decreases n,
{
    if n <= 0 {
        adj
    } else {
        push_callee(
            context_edges_upto(adj, seg, calls, callers, n - 1),
            list_at(callers, call_key(calls[n - 1])),
            call_node(seg, calls, n - 1),
        )
    }
}

/// Checks that each call made from a guaranteed transcript has only a
/// guaranteed transcript, and each made from a fallible one only a fallible
/// one; the first violation is reported and nothing changes. Where there is
/// none, records each caller as preceding its callee.
pub fn sequencing_context_check(
    adjacencies: &mut MultiMap<CallNode, CallNode>,
    segment_id: u16,
    calls: &Vec<ContractCall>,
    callers_for_addr: &MultiMap<CallKey, CallerRef>,
) -> (res: Result<(), SequencingCheckError>)
    requires
        old(adjacencies).wf(),
        callers_for_addr.wf(),
        calls@.len() <= u32::MAX,
    ensures
        final(adjacencies).wf(),
        ({
            let checks = context_checks(segment_id, calls@, callers_for_addr@);
            &&& res is Ok <==> forall|i: int| 0 <= i < checks.len() ==> #[trigger] checks[i] is None
            &&& res matches Err(e) ==> exists|i: int| 0 <= i < checks.len() && #[trigger] checks[i] == Some(e)
                && forall|j: int| 0 <= j < i ==> #[trigger] checks[j] is None
        }),
        res is Err ==> final(adjacencies)@ == old(adjacencies)@,
        res is Ok ==> final(adjacencies)@ == context_edges_upto(old(adjacencies)@, segment_id, calls@, callers_for_addr@, calls@.len() as int),
{
    let ghost f = |c: int| callee_checks(segment_id, calls@, callers_for_addr@, c);
    let ghost pos = positions(calls@.len() as int);
    let ghost checks = context_checks(segment_id, calls@, callers_for_addr@);
    let mut c: usize = 0;
    while c < calls.len()
        invariant
            0 <= c <= calls@.len(),
            calls@.len() <= u32::MAX,
            callers_for_addr.wf(),
            adjacencies.wf(),
            f == (|c: int| callee_checks(segment_id, calls@, callers_for_addr@, c)),
            pos == positions(calls@.len() as int),
            checks == flat_map(pos, f),
            forall|i: int| 0 <= i < flat_map(pos.take(c as int), f).len() ==> #[trigger] flat_map(pos.take(c as int), f)[i] is None,
        decreases calls@.len() - c,
    {
        let call = &calls[c];
        let refs = callers_for_addr.get(&CallKey { addr: call.address, ep_hash: call.ep_hash, commitment: call.communication_commitment });
        let ghost done = flat_map(pos.take(c as int), f);
        let ghost here = f(c as int);
        proof {
            assert(pos[c as int] == c as int);
            lemma_flat_map_take(pos, f, c as int);
            assert(refs@ == list_at(callers_for_addr@, call_key(calls@[c as int])));
            assert(here.len() == refs@.len());
        }
        let is_guaranteed = call.guaranteed_transcript.is_some();
        let is_fallible = call.fallible_transcript.is_some();
        let mut j: usize = 0;
        while j < refs.len()
            invariant
                0 <= j <= refs@.len(),
                calls@.len() <= u32::MAX,
                c < calls@.len(),
                here == f(c as int),
                here.len() == refs@.len(),
                adjacencies.wf(),
                *call == calls@[c as int],
                pos == positions(calls@.len() as int),
                checks == flat_map(pos, f),
                done == flat_map(pos.take(c as int), f),
                flat_map(pos.take(c as int + 1), f) == done + here,
                forall|i: int| 0 <= i < done.len() ==> #[trigger] done[i] is None,
                f == (|c: int| callee_checks(segment_id, calls@, callers_for_addr@, c)),
                refs@ == list_at(callers_for_addr@, call_key(calls@[c as int])),
                is_guaranteed == calls@[c as int].guaranteed_transcript is Some,
                is_fallible == calls@[c as int].fallible_transcript is Some,
                forall|k: int| 0 <= k < j ==> #[trigger] here[k] is None,
            decreases refs@.len() - j,
        {
            let r = refs[j];
            assert(here[j as int] == caller_violation(r, segment_id, calls@, c as int));
            if r.guaranteed && is_fallible {
                let e = SequencingCheckError::FallibleInGuaranteedContextViolation {
                    caller: r.node.call_index,
                    callee: c as u32,
                    caller_address: r.node.addr,
                    callee_address: call.address,
                };
                proof {
                    let i = done.len() + j;
                    lemma_flat_map_append(pos.take(c as int + 1), pos.skip(c as int + 1), f);
                    assert(pos.take(c as int + 1) + pos.skip(c as int + 1) =~= pos);
                    assert(checks[i] == here[j as int]);
                    assert(here[j as int] == Some(e));
                    assert forall|k: int| 0 <= k < i implies #[trigger] checks[k] is None by {
                        if k < done.len() {
                            assert(checks[k] == done[k]);
                        } else {
                            assert(checks[k] == here[k - done.len()]);
                        }
                    }
                }
                return Err(e);
            }
            if !r.guaranteed && is_guaranteed {
                let e = SequencingCheckError::GuaranteedInFallibleContextViolation {
                    caller: r.node.call_index,
                    callee: c as u32,
                    caller_address: r.node.addr,
                    callee_address: call.address,
                };
                proof {
                    let i = done.len() + j;
                    lemma_flat_map_append(pos.take(c as int + 1), pos.skip(c as int + 1), f);
                    assert(pos.take(c as int + 1) + pos.skip(c as int + 1) =~= pos);
                    assert(checks[i] == here[j as int]);
                    assert(here[j as int] == Some(e));
                    assert forall|k: int| 0 <= k < i implies #[trigger] checks[k] is None by {
                        if k < done.len() {
                            assert(checks[k] == done[k]);
                        } else {
                            assert(checks[k] == here[k - done.len()]);
                        }
                    }
                }
                return Err(e);
            }
            j = j + 1;
        }
        proof {
            let next = flat_map(pos.take(c as int + 1), f);
            assert(next == done + here);
            assert forall|i: int| 0 <= i < next.len() implies #[trigger] next[i] is None by {
                if i < done.len() {
                    assert(next[i] == done[i]);
                } else {
                    assert(next[i] == here[i - done.len()]);
                }
            }
        }
        c = c + 1;
    }
    proof {
        assert(pos.take(calls@.len() as int) =~= pos);
    }
    let ghost a0 = adjacencies@;
    let mut k: usize = 0;
    while k < calls.len()
        invariant
            0 <= k <= calls@.len(),
            calls@.len() <= u32::MAX,
            callers_for_addr.wf(),
            adjacencies.wf(),
            adjacencies@ == context_edges_upto(a0, segment_id, calls@, callers_for_addr@, k as int),
        decreases calls@.len() - k,
    {
        let call = &calls[k];
        let node = CallNode { segment_id, addr: call.address, call_index: k as u32 };
        let refs = callers_for_addr.get(&CallKey { addr: call.address, ep_hash: call.ep_hash, commitment: call.communication_commitment });
        let ghost before = adjacencies@;
        let mut j: usize = 0;
        while j < refs.len()
            invariant
                0 <= j <= refs@.len(),
                adjacencies.wf(),
                adjacencies@ == push_callee(before, refs@.take(j as int), node),
            decreases refs@.len() - j,
        {
            proof {
                assert(refs@.take(j as int + 1).drop_last() =~= refs@.take(j as int));
            }
            adjacencies.push(refs[j].node, node);
            j = j + 1;
        }
        proof {
            assert(refs@.take(refs@.len() as int) =~= refs@);
        }
        k = k + 1;
    }
    Ok(())
}

/// What the sequencing check gathers over the intents: the guaranteed and
/// the fallible calls, the latest call to each contract, and the edges
/// between calls that precede others.
pub struct SequencingView {
    pub guaranteed: Map<CallNode, ()>,
    pub fallible: Map<CallNode, ()>,
    pub last: Map<ContractAddress, CallNode>,
    pub adjacencies: Map<CallNode, Seq<CallNode>>,
}

/// The first ordering error of the call at position `c` of an intent: a
/// sub-call that does not follow it, else a disagreement between sequence
/// numbers and positions of its sub-calls.
pub open spec fn call_order_error(calls: Seq<ContractCall>, c: int) -> Option<SequencingCheckError> {
    let subs = sub_calls(lookup_upto(calls, calls.len() as int), calls[c]);
    match first_backward_from(subs, c as u32, 0) {
        Some(i) => Some(sequencing_violation(c as u32, calls[c].address, subs[i])),
        None => first_disagreement_from(calls[c].address, sort_sub_calls(subs), 0),
    }
}

/// The first ordering error of the calls of an intent from position `c` on.
pub open spec fn order_error_from(calls: Seq<ContractCall>, c: int) -> Option<SequencingCheckError>
    decreases calls.len() - c,
{
    if c < 0 || c >= calls.len() {
        None
    } else {
        match call_order_error(calls, c) {
            Some(e) => Some(e),
            None => order_error_from(calls, c + 1),
        }
    }
}

/// One intent of the check: the ordering of its calls, then that each has
/// a transcript, then the contexts of callers and callees; where all pass,
/// its calls are recorded.
pub open spec fn intent_outcome(v: SequencingView, seg: u16, calls: Seq<ContractCall>) -> Result<SequencingView, SequencingCheckError> {
    let n = calls.len() as int;
    match order_error_from(calls, 0) {
        Some(e) => Err(e),
        None => match first_empty_from(calls, 0) {
            Some(c) => Err(SequencingCheckError::CallHasEmptyTranscripts { segment_id: seg, addr: calls[c].address, call_index: c as u32 }),
            None => {
                let callers = callers_upto(seg, calls, n);
                match first_some_from(context_checks(seg, calls, callers), 0) {
                    Some(e) => Err(e),
                    None => Ok(SequencingView {
                        guaranteed: marked_upto(v.guaranteed, seg, calls, n, true),
                        fallible: marked_upto(v.fallible, seg, calls, n, false),
                        last: last_upto(v.last, seg, calls, n),
                        adjacencies: context_edges_upto(
                            order_edges_upto(v.adjacencies, v.last, seg, calls, n),
                            seg,
                            calls,
                            callers,
                            n,
                        ),
                    }),
                }
            },
        },
    }
}

/// The intents taken in order, from nothing gathered; the first error
/// stops the check.
pub open spec fn intents_outcome(intents: Seq<(u16, Intent)>) -> Result<SequencingView, SequencingCheckError>
    decreases intents.len(),
{
    if intents.len() == 0 {
        Ok(SequencingView { guaranteed: Map::empty(), fallible: Map::empty(), last: Map::empty(), adjacencies: Map::empty() })
    } else {
        match intents_outcome(intents.drop_last()) {
            Ok(v) => intent_outcome(v, intents.last().0, intents.last().1.calls@),
            Err(e) => Err(e),
        }
    }
}

/// Once the intents up to `k` fail, all of them fail the same way.
pub proof fn lemma_intents_err_extends(intents: Seq<(u16, Intent)>, k: int)
    requires
        0 <= k <= intents.len(),
        intents_outcome(intents.take(k)) is Err,
    ensures
        intents_outcome(intents) == intents_outcome(intents.take(k)),
    decreases intents.len() - k,
{
    if k < intents.len() {
        assert(intents.take(k + 1).drop_last() =~= intents.take(k));
        lemma_intents_err_extends(intents, k + 1);
    } else {
        assert(intents.take(k) =~= intents);
    }
}

/// Every intent has few enough calls to number them in `u32`.
pub open spec fn calls_numbered(intents: Seq<(u16, Intent)>) -> bool {
    forall|k: int| 0 <= k < intents.len() ==> (#[trigger] intents[k]).1.calls@.len() <= u32::MAX
}

/// Checks the ordering of the calls of one intent, call by call.
fn intent_order_check(calls: &Vec<ContractCall>) -> (res: Result<(), SequencingCheckError>)
    requires
        calls@.len() <= u32::MAX,
    ensures
        match order_error_from(calls@, 0) {
            Some(e) => res == Err::<(), SequencingCheckError>(e),
            None => res is Ok,
        },
{
    let lookup = build_call_lookup(calls);
    let mut c: usize = 0;
    while c < calls.len()
        invariant
            0 <= c <= calls@.len(),
            calls@.len() <= u32::MAX,
            lookup.wf(),
            lookup@ == lookup_upto(calls@, calls@.len() as int),
            order_error_from(calls@, 0) == order_error_from(calls@, c as int),
        decreases calls@.len() - c,
    {
        let subs = match call_sequencing_check(c as u32, &calls[c], &lookup) {
            Ok(subs) => subs,
            Err(e) => {
                assert(call_order_error(calls@, c as int) == Some(e));
                return Err(e);
            },
        };
        match sequencing_correlation_check(calls[c].address, subs) {
            Ok(()) => {},
            Err(e) => {
                assert(call_order_error(calls@, c as int) == Some(e));
                return Err(e);
            },
        }
        assert(call_order_error(calls@, c as int) is None);
        c = c + 1;
    }
    Ok(())
}

impl StandardTransaction {
    /// The sequencing check: each intent in segment order, then that no
    /// fallible call precedes a guaranteed one.
    pub fn sequencing_check(&self) -> (res: Result<(), SequencingCheckError>)
        requires
            self.wf(),
            calls_numbered(self.intents@),
        ensures
            match intents_outcome(self.intents@) {
                Err(e) => res == Err::<(), SequencingCheckError>(e),
                Ok(v) => {
                    &&& res == causality_outcome(v.guaranteed, v.fallible, v.adjacencies)
                    &&& res is Ok <==> !exists|f: CallNode, j: int| causality_edge(v.guaranteed, v.fallible, v.adjacencies, f, j)
                    &&& res matches Err(e) ==> exists|f: CallNode, j: int| causality_edge(v.guaranteed, v.fallible, v.adjacencies, f, j)
                        && e == causality_violation(f, v.adjacencies[f][j])
                },
            },
    {
        let mut guaranteed_calls: KeyMap<CallNode, ()> = KeyMap::new();
        let mut fallible_calls: KeyMap<CallNode, ()> = KeyMap::new();
        let mut last_call_by_address: KeyMap<ContractAddress, CallNode> = KeyMap::new();
        let mut adjacencies: MultiMap<CallNode, CallNode> = MultiMap::new();
        let mut k: usize = 0;
        proof {
            assert(self.intents@.take(0) =~= Seq::<(u16, Intent)>::empty());
        }
        while k < self.intents.len()
            invariant
                0 <= k <= self.intents@.len(),
                calls_numbered(self.intents@),
                guaranteed_calls.wf(),
                fallible_calls.wf(),
                last_call_by_address.wf(),
                adjacencies.wf(),
                intents_outcome(self.intents@.take(k as int)) == Ok::<SequencingView, SequencingCheckError>(SequencingView {
                    guaranteed: guaranteed_calls@,
                    fallible: fallible_calls@,
                    last: last_call_by_address@,
                    adjacencies: adjacencies@,
                }),
            decreases self.intents@.len() - k,
        {
            let segment_id = self.intents[k].0;
            let calls = &self.intents[k].1.calls;
            let ghost v = SequencingView {
                guaranteed: guaranteed_calls@,
                fallible: fallible_calls@,
                last: last_call_by_address@,
                adjacencies: adjacencies@,
            };
            proof {
                assert(self.intents@.take(k as int + 1).drop_last() =~= self.intents@.take(k as int));
                assert(self.intents@.take(k as int + 1).last() == self.intents@[k as int]);
                assert(calls@.len() <= u32::MAX) by {
                    assert(self.intents@[k as int].1.calls@.len() <= u32::MAX);
                }
            }
            let ghost next = intent_outcome(v, segment_id, calls@);
            match intent_order_check(calls) {
                Ok(()) => {},
                Err(e) => {
                    proof {
                        lemma_intents_err_extends(self.intents@, k as int + 1);
                    }
                    return Err(e);
                },
            }
            let callers = match relate_nodes(
                &mut guaranteed_calls,
                &mut fallible_calls,
                &mut last_call_by_address,
                &mut adjacencies,
                segment_id,
                calls,
            ) {
                Ok(callers) => callers,
                Err(e) => {
                    proof {
                        lemma_intents_err_extends(self.intents@, k as int + 1);
                    }
                    return Err(e);
                },
            };
            let ghost checks = context_checks(segment_id, calls@, callers@);
            match sequencing_context_check(&mut adjacencies, segment_id, calls, &callers) {
                Ok(()) => {
                    proof {
                        lemma_no_some(checks, 0);
                    }
                },
                Err(e) => {
                    proof {
                        let i = choose|i: int| 0 <= i < checks.len() && #[trigger] checks[i] == Some(e)
                            && forall|j: int| 0 <= j < i ==> #[trigger] checks[j] is None;
                        lemma_first_some(checks, 0, i);
                        lemma_intents_err_extends(self.intents@, k as int + 1);
                    }
                    return Err(e);
                },
            }
            k = k + 1;
        }
        proof {
            assert(self.intents@.take(self.intents@.len() as int) =~= self.intents@);
        }
        let ghost v = SequencingView {
            guaranteed: guaranteed_calls@,
            fallible: fallible_calls@,
            last: last_call_by_address@,
            adjacencies: adjacencies@,
        };
        assert(intents_outcome(self.intents@) == Ok::<SequencingView, SequencingCheckError>(v));
        let res = causality_check(&guaranteed_calls, &fallible_calls, &adjacencies);
        proof {
            let g = guaranteed_calls@;
            let fl = fallible_calls@;
            let a = adjacencies@;
            assert(v.guaranteed == g && v.fallible == fl && v.adjacencies == a);
            if exists|f: CallNode, j: int| causality_edge(g, fl, a, f, j) {
                let (f, j) = choose|f: CallNode, j: int| causality_edge(g, fl, a, f, j);
                assert(causality_edge(v.guaranteed, v.fallible, v.adjacencies, f, j));
            }
            if exists|f: CallNode, j: int| causality_edge(v.guaranteed, v.fallible, v.adjacencies, f, j) {
                let (f, j) = choose|f: CallNode, j: int| causality_edge(v.guaranteed, v.fallible, v.adjacencies, f, j);
                assert(causality_edge(g, fl, a, f, j));
            }
            if res is Err {
                let e = res->Err_0;
                let (f, j) = choose|f: CallNode, j: int| causality_edge(g, fl, a, f, j) && e == causality_violation(f, a[f][j]);
                assert(causality_edge(v.guaranteed, v.fallible, v.adjacencies, f, j) && e == causality_violation(f, v.adjacencies[f][j]));
            }
            assert(match intents_outcome(self.intents@) {
                Err(e) => res == Err::<(), SequencingCheckError>(e),
                Ok(v) => {
                    &&& res == causality_outcome(v.guaranteed, v.fallible, v.adjacencies)
                    &&& res is Ok <==> !exists|f: CallNode, j: int| causality_edge(v.guaranteed, v.fallible, v.adjacencies, f, j)
                    &&& res matches Err(e) ==> exists|f: CallNode, j: int| causality_edge(v.guaranteed, v.fallible, v.adjacencies, f, j)
                        && e == causality_violation(f, v.adjacencies[f][j])
                },
            });
        }
        res
    }
}

/// The latest call to a contract after the first `n` calls of an intent is
/// the one recorded before them, or one of those `n` calls.
pub proof fn lemma_last_upto_source(last: Map<ContractAddress, CallNode>, seg: u16, calls: Seq<ContractCall>, n: int, a: ContractAddress)
    requires
        0 <= n <= calls.len(),
        last_upto(last, seg, calls, n).contains_key(a),
    ensures
        (last.contains_key(a) && last_upto(last, seg, calls, n)[a] == last[a])
            || exists|c: int| 0 <= c < n && last_upto(last, seg, calls, n)[a] == call_node(seg, calls, c),
    decreases n,
{
    if n > 0 {
        if calls[n - 1].address != a {
            lemma_last_upto_source(last, seg, calls, n - 1, a);
            if !(last.contains_key(a) && last_upto(last, seg, calls, n - 1)[a] == last[a]) {
                let c = choose|c: int| 0 <= c < n - 1 && last_upto(last, seg, calls, n - 1)[a] == call_node(seg, calls, c);
                assert(last_upto(last, seg, calls, n)[a] == call_node(seg, calls, c));
            }
        } else {
            assert(last_upto(last, seg, calls, n)[a] == call_node(seg, calls, n - 1));
        }
    }
}

/// The precedence edges that an intent adds run forward: each leads to a
/// call of the intent, and where it starts at a call of the same intent,
/// that call comes earlier. (Recorded calls are from earlier intents, in
/// other segments.) Edges already present are kept in front.
pub proof fn lemma_order_edges_forward(
    adj: Map<CallNode, Seq<CallNode>>,
    last: Map<ContractAddress, CallNode>,
    seg: u16,
    calls: Seq<ContractCall>,
    n: int,
    m: CallNode,
    j: int,
)
    requires
        0 <= n <= calls.len(),
        calls.len() <= u32::MAX,
        forall|a: ContractAddress| #[trigger] last.contains_key(a) ==> last[a].segment_id != seg,
        0 <= j < list_at(order_edges_upto(adj, last, seg, calls, n), m).len(),
    ensures
        list_at(adj, m).len() <= list_at(order_edges_upto(adj, last, seg, calls, n), m).len(),
        j < list_at(adj, m).len() ==> list_at(order_edges_upto(adj, last, seg, calls, n), m)[j] == list_at(adj, m)[j],
        j >= list_at(adj, m).len() ==> ({
            let t = list_at(order_edges_upto(adj, last, seg, calls, n), m)[j];
            &&& t.segment_id == seg
            &&& (m.segment_id == seg ==> m.call_index < t.call_index)
        }),
    decreases n,
{
    if n > 0 {
        let prev = order_edges_upto(adj, last, seg, calls, n - 1);
        let l = last_upto(last, seg, calls, n - 1);
        let addr = calls[n - 1].address;
        let cur = order_edges_upto(adj, last, seg, calls, n);
        if l.contains_key(addr) && l[addr] == m {
            assert(list_at(cur, m) == list_at(prev, m).push(call_node(seg, calls, n - 1)));
            if j < list_at(prev, m).len() {
                lemma_order_edges_forward(adj, last, seg, calls, n - 1, m, j);
            } else {
                if list_at(prev, m).len() > 0 {
                    lemma_order_edges_forward(adj, last, seg, calls, n - 1, m, list_at(prev, m).len() - 1);
                } else {
                    assert(list_at(adj, m).len() == 0) by {
                        assert(adj == order_edges_upto(adj, last, seg, calls, 0));
                        lemma_order_edges_prefix(adj, last, seg, calls, n - 1, m);
                    }
                }
                lemma_last_upto_source(last, seg, calls, n - 1, addr);
                if m.segment_id == seg {
                    assert(!(last.contains_key(addr) && l[addr] == last[addr]));
                    let c = choose|c: int| 0 <= c < n - 1 && l[addr] == call_node(seg, calls, c);
                    assert(m.call_index == c as u32);
                }
            }
        } else {
            assert(list_at(cur, m) == list_at(prev, m));
            lemma_order_edges_forward(adj, last, seg, calls, n - 1, m, j);
        }
    }
}

/// The lists of the precedence edges only grow.
pub proof fn lemma_order_edges_prefix(
    adj: Map<CallNode, Seq<CallNode>>,
    last: Map<ContractAddress, CallNode>,
    seg: u16,
    calls: Seq<ContractCall>,
    n: int,
    m: CallNode,
)
    requires
        0 <= n <= calls.len(),
    ensures
        list_at(adj, m).len() <= list_at(order_edges_upto(adj, last, seg, calls, n), m).len(),
    decreases n,
{
    if n > 0 {
        lemma_order_edges_prefix(adj, last, seg, calls, n - 1, m);
    }
}

/// The sub-calls (as a multiset) correlate: none occurs twice, and any two
/// are ordered the same way by sequence number and by position.
pub open spec fn correlated(m: Multiset<SubCall>) -> bool {
    &&& forall|x: SubCall| m.count(x) <= 1
    &&& forall|x: SubCall, y: SubCall|
        #![trigger m.count(x), m.count(y)]
        m.contains(x) && m.contains(y) && x != y ==> neighbours_agree(x, y) || neighbours_agree(y, x)
}

/// Scanning for the insertion point passes exactly the elements that do
/// not order after `x`.
proof fn lemma_insert_pos(t: Seq<SubCall>, x: SubCall, q: int)
    requires
        0 <= q <= t.len(),
        forall|k: int| 0 <= k < q ==> sub_call_le(#[trigger] t[k], x),
    ensures
        q <= insert_pos(t, x, q) <= t.len(),
        forall|k: int| 0 <= k < insert_pos(t, x, q) ==> sub_call_le(#[trigger] t[k], x),
        insert_pos(t, x, q) < t.len() ==> !sub_call_le(t[insert_pos(t, x, q)], x),
    decreases t.len() - q,
{
    if q < t.len() && sub_call_le(t[q], x) {
        lemma_insert_pos(t, x, q + 1);
    }
}

/// Sorting keeps the sub-calls, and orders them.
pub proof fn lemma_sort_sub_calls(s: Seq<SubCall>)
    ensures
        sort_sub_calls(s).to_multiset() == s.to_multiset(),
        sort_sub_calls(s).len() == s.len(),
        forall|i: int, j: int| 0 <= i < j < s.len() ==> sub_call_le(#[trigger] sort_sub_calls(s)[i], #[trigger] sort_sub_calls(s)[j]),
    decreases s.len(),
{
    broadcast use vstd::seq_lib::group_to_multiset_ensures;
    if s.len() > 0 {
        let t = sort_sub_calls(s.drop_last());
        let x = s.last();
        lemma_sort_sub_calls(s.drop_last());
        lemma_insert_pos(t, x, 0);
        let p = insert_pos(t, x, 0);
        let w = t.insert(p, x);
        assert(w == sort_sub_calls(s));
        assert(s.drop_last().push(x) =~= s);
        assert forall|i: int, j: int| 0 <= i < j < w.len() implies sub_call_le(#[trigger] w[i], #[trigger] w[j]) by {
            if j < p {
                assert(w[i] == t[i] && w[j] == t[j]);
            } else if j == p {
                assert(w[i] == t[i] && w[j] == x);
            } else if i < p {
                assert(w[i] == t[i] && w[j] == t[j - 1]);
            } else if i == p {
                assert(w[i] == x && w[j] == t[j - 1]);
                assert(!sub_call_le(t[p], x));
                if p < j - 1 {
                    assert(sub_call_le(t[p], t[j - 1]));
                }
            } else {
                assert(w[i] == t[i - 1] && w[j] == t[j - 1]);
            }
        }
    }
}

/// No disagreement from `i` on means that all neighbours from `i` on agree.
proof fn lemma_first_disagreement_none(caller: ContractAddress, w: Seq<SubCall>, i: int)
    requires
        0 <= i,
    ensures
        first_disagreement_from(caller, w, i) is None <==> forall|k: int| i <= k < w.len() - 1 ==> neighbours_agree(#[trigger] w[k], w[k + 1]),
    decreases w.len() - i,
{
    if i + 1 < w.len() {
        lemma_first_disagreement_none(caller, w, i + 1);
    }
}

/// Where all neighbours agree, all pairs agree.
proof fn lemma_neighbours_chain(w: Seq<SubCall>, i: int, j: int)
    requires
        0 <= i < j < w.len(),
        forall|k: int| 0 <= k < w.len() - 1 ==> neighbours_agree(#[trigger] w[k], w[k + 1]),
    ensures
        neighbours_agree(w[i], w[j]),
    decreases j - i,
{
    if j > i + 1 {
        lemma_neighbours_chain(w, i, j - 1);
        assert(neighbours_agree(w[j - 1], w[j]));
    }
}

/// For sub-calls sorted by sequence number then position, all neighbours
/// agree exactly when the sub-calls correlate.
proof fn lemma_sorted_neighbours_correlated(w: Seq<SubCall>)
    requires
        forall|i: int, j: int| 0 <= i < j < w.len() ==> sub_call_le(#[trigger] w[i], #[trigger] w[j]),
    ensures
        (forall|k: int| 0 <= k < w.len() - 1 ==> neighbours_agree(#[trigger] w[k], w[k + 1])) <==> correlated(w.to_multiset()),
{
    broadcast use vstd::seq_lib::group_to_multiset_ensures;
    let m = w.to_multiset();
    if forall|k: int| 0 <= k < w.len() - 1 ==> neighbours_agree(#[trigger] w[k], w[k + 1]) {
        assert forall|i: int, j: int| 0 <= i < w.len() && 0 <= j < w.len() && i != j implies w[i] != w[j] by {
            if i < j {
                lemma_neighbours_chain(w, i, j);
            } else {
                lemma_neighbours_chain(w, j, i);
            }
        }
        assert(w.no_duplicates());
        w.lemma_multiset_has_no_duplicates();
        assert forall|x: SubCall| m.count(x) <= 1 by {
            if m.count(x) > 0 {
                assert(m.contains(x));
            }
        }
        assert forall|x: SubCall, y: SubCall| m.contains(x) && m.contains(y) && x != y implies neighbours_agree(x, y) || neighbours_agree(y, x) by {
            assert(w.contains(x));
            assert(w.contains(y));
            let i = choose|i: int| 0 <= i < w.len() && w[i] == x;
            let j = choose|j: int| 0 <= j < w.len() && w[j] == y;
            if i < j {
                lemma_neighbours_chain(w, i, j);
            } else if j < i {
                lemma_neighbours_chain(w, j, i);
            }
        }
    }
    if correlated(m) {
        assert forall|x: SubCall| m.contains(x) implies m.count(x) == 1 by {}
        w.lemma_multiset_has_no_duplicates_conv();
        assert forall|k: int| 0 <= k < w.len() - 1 implies neighbours_agree(#[trigger] w[k], w[k + 1]) by {
            let x = w[k];
            let y = w[k + 1];
            assert(x != y);
            assert(w.contains(x));
            assert(w.contains(y));
            assert(m.contains(x) && m.contains(y));
            assert(m.count(x) <= 1 && m.count(y) <= 1);
            assert(sub_call_le(w[k], w[k + 1]));
        }
    }
}

/// The correlation check accepts exactly the sub-calls that correlate.
pub proof fn lemma_correlation_check_accepts_correlated(caller: ContractAddress, subs: Seq<SubCall>)
    ensures
        first_disagreement_from(caller, sort_sub_calls(subs), 0) is None <==> correlated(subs.to_multiset()),
{
    lemma_sort_sub_calls(subs);
    lemma_first_disagreement_none(caller, sort_sub_calls(subs), 0);
    lemma_sorted_neighbours_correlated(sort_sub_calls(subs));
}

/// `path` follows the edges of `adj`.
pub open spec fn follows_edges(adj: Map<CallNode, Seq<CallNode>>, path: Seq<CallNode>) -> bool {
    forall|i: int| 0 <= i < path.len() - 1 ==> adj.contains_key(#[trigger] path[i]) && adj[path[i]].contains(path[i + 1])
}

/// Every node an edge leads to is a guaranteed or a fallible call.
pub open spec fn edges_close(guaranteed: Map<CallNode, ()>, fallible: Map<CallNode, ()>, adj: Map<CallNode, Seq<CallNode>>) -> bool {
    forall|m: CallNode, j: int| adj.contains_key(m) && 0 <= j < adj[m].len()
        ==> guaranteed.contains_key(#[trigger] adj[m][j]) || fallible.contains_key(adj[m][j])
}

/// Checking the direct successors of fallible calls suffices: where no
/// fallible call directly precedes a guaranteed one, and every successor is
/// a guaranteed or a fallible call, everything a fallible call precedes,
/// however indirectly, is fallible and not guaranteed.
pub proof fn lemma_causality_covers_paths(
    guaranteed: Map<CallNode, ()>,
    fallible: Map<CallNode, ()>,
    adj: Map<CallNode, Seq<CallNode>>,
    path: Seq<CallNode>,
    k: int,
)
    requires
        !exists|f: CallNode, j: int| causality_edge(guaranteed, fallible, adj, f, j),
        edges_close(guaranteed, fallible, adj),
        follows_edges(adj, path),
        path.len() > 0,
        fallible.contains_key(path[0]),
        1 <= k < path.len(),
    ensures
        fallible.contains_key(path[k]),
        !guaranteed.contains_key(path[k]),
    decreases k,
{
    if k > 1 {
        lemma_causality_covers_paths(guaranteed, fallible, adj, path, k - 1);
    }
    let m = path[k - 1];
    assert(adj.contains_key(m) && adj[m].contains(path[k]));
    let j = choose|j: int| 0 <= j < adj[m].len() && adj[m][j] == path[k];
    assert(!causality_edge(guaranteed, fallible, adj, m, j));
    assert(guaranteed.contains_key(adj[m][j]) || fallible.contains_key(adj[m][j]));
}

/// Where no call of an intent lacks a transcript from `c` on, each call from
/// `c` on has one.
proof fn lemma_first_empty_none(calls: Seq<ContractCall>, c: int)
    requires
        0 <= c,
        first_empty_from(calls, c) is None,
    ensures
        forall|d: int| c <= d < calls.len() ==> has_transcript(#[trigger] calls[d]),
    decreases calls.len() - c,
{
    if c < calls.len() {
        lemma_first_empty_none(calls, c + 1);
    }
}

/// Marking keeps what was marked, and marks each call with the transcript.
proof fn lemma_marked_upto(m: Map<CallNode, ()>, seg: u16, calls: Seq<ContractCall>, n: int, guaranteed: bool)
    requires
        0 <= n <= calls.len(),
    ensures
        forall|x: CallNode| m.contains_key(x) ==> #[trigger] marked_upto(m, seg, calls, n, guaranteed).contains_key(x),
        forall|c: int| 0 <= c < n && (if guaranteed { calls[c].guaranteed_transcript is Some } else { calls[c].fallible_transcript is Some })
            ==> marked_upto(m, seg, calls, n, guaranteed).contains_key(#[trigger] call_node(seg, calls, c)),
    decreases n,
{
    if n > 0 {
        lemma_marked_upto(m, seg, calls, n - 1, guaranteed);
        assert forall|x: CallNode| m.contains_key(x) implies #[trigger] marked_upto(m, seg, calls, n, guaranteed).contains_key(x) by {
            assert(marked_upto(m, seg, calls, n - 1, guaranteed).contains_key(x));
        }
    }
}

/// Each precedence edge an intent adds leads to one of its calls; the edges
/// already present are kept in front.
proof fn lemma_order_edges_targets(
    adj: Map<CallNode, Seq<CallNode>>,
    last: Map<ContractAddress, CallNode>,
    seg: u16,
    calls: Seq<ContractCall>,
    n: int,
    m: CallNode,
    j: int,
)
    requires
        0 <= n <= calls.len(),
        0 <= j < list_at(order_edges_upto(adj, last, seg, calls, n), m).len(),
    ensures
        (j < list_at(adj, m).len() && list_at(order_edges_upto(adj, last, seg, calls, n), m)[j] == list_at(adj, m)[j])
            || exists|c: int| 0 <= c < n && list_at(order_edges_upto(adj, last, seg, calls, n), m)[j] == call_node(seg, calls, c),
    decreases n,
{
    if n > 0 {
        let prev = order_edges_upto(adj, last, seg, calls, n - 1);
        let l = last_upto(last, seg, calls, n - 1);
        let addr = calls[n - 1].address;
        let cur = order_edges_upto(adj, last, seg, calls, n);
        if l.contains_key(addr) && l[addr] == m {
            assert(list_at(cur, m) == list_at(prev, m).push(call_node(seg, calls, n - 1)));
            if j < list_at(prev, m).len() {
                lemma_order_edges_targets(adj, last, seg, calls, n - 1, m, j);
                if !(j < list_at(adj, m).len() && list_at(prev, m)[j] == list_at(adj, m)[j]) {
                    let c = choose|c: int| 0 <= c < n - 1 && list_at(prev, m)[j] == call_node(seg, calls, c);
                    assert(list_at(cur, m)[j] == call_node(seg, calls, c));
                }
            } else {
                assert(list_at(cur, m)[j] == call_node(seg, calls, n - 1));
            }
        } else {
            assert(list_at(cur, m) == list_at(prev, m));
            lemma_order_edges_targets(adj, last, seg, calls, n - 1, m, j);
            if !(j < list_at(adj, m).len() && list_at(prev, m)[j] == list_at(adj, m)[j]) {
                let c = choose|c: int| 0 <= c < n - 1 && list_at(prev, m)[j] == call_node(seg, calls, c);
                assert(list_at(cur, m)[j] == call_node(seg, calls, c));
            }
        }
    }
}

/// Recording a callee after its callers adds only edges to the callee.
proof fn lemma_push_callee_targets(adj: Map<CallNode, Seq<CallNode>>, refs: Seq<CallerRef>, node: CallNode, m: CallNode, j: int)
    requires
        0 <= j < list_at(push_callee(adj, refs, node), m).len(),
    ensures
        (j < list_at(adj, m).len() && list_at(push_callee(adj, refs, node), m)[j] == list_at(adj, m)[j])
            || list_at(push_callee(adj, refs, node), m)[j] == node,
    decreases refs.len(),
{
    if refs.len() > 0 {
        let p = push_callee(adj, refs.drop_last(), node);
        let cur = push_callee(adj, refs, node);
        if refs.last().node == m {
            assert(list_at(cur, m) == list_at(p, m).push(node));
            if j < list_at(p, m).len() {
                lemma_push_callee_targets(adj, refs.drop_last(), node, m, j);
            }
        } else {
            assert(list_at(cur, m) == list_at(p, m));
            lemma_push_callee_targets(adj, refs.drop_last(), node, m, j);
        }
    }
}

/// Each caller-to-callee edge an intent adds leads to one of its calls; the
/// edges already present are kept in front.
proof fn lemma_context_edges_targets(
    adj: Map<CallNode, Seq<CallNode>>,
    seg: u16,
    calls: Seq<ContractCall>,
    callers: Map<CallKey, Seq<CallerRef>>,
    n: int,
    m: CallNode,
    j: int,
)
    requires
        0 <= n <= calls.len(),
        0 <= j < list_at(context_edges_upto(adj, seg, calls, callers, n), m).len(),
    ensures
        (j < list_at(adj, m).len() && list_at(context_edges_upto(adj, seg, calls, callers, n), m)[j] == list_at(adj, m)[j])
            || exists|c: int| 0 <= c < n && list_at(context_edges_upto(adj, seg, calls, callers, n), m)[j] == call_node(seg, calls, c),
    decreases n,
{
    if n > 0 {
        let prev = context_edges_upto(adj, seg, calls, callers, n - 1);
        let refs = list_at(callers, call_key(calls[n - 1]));
        let node = call_node(seg, calls, n - 1);
        lemma_push_callee_targets(prev, refs, node, m, j);
        let cur = context_edges_upto(adj, seg, calls, callers, n);
        if j < list_at(prev, m).len() && cur[m][j] == list_at(prev, m)[j] {
            lemma_context_edges_targets(adj, seg, calls, callers, n - 1, m, j);
            if !(j < list_at(adj, m).len() && list_at(prev, m)[j] == list_at(adj, m)[j]) {
                let c = choose|c: int| 0 <= c < n - 1 && list_at(prev, m)[j] == call_node(seg, calls, c);
                assert(list_at(cur, m)[j] == call_node(seg, calls, c));
            }
        }
    }
}

/// An intent that passes keeps every edge leading to a guaranteed or a
/// fallible call.
proof fn lemma_intent_outcome_closes(v: SequencingView, seg: u16, calls: Seq<ContractCall>)
    requires
        calls.len() <= u32::MAX,
        edges_close(v.guaranteed, v.fallible, v.adjacencies),
        intent_outcome(v, seg, calls) is Ok,
    ensures
        ({
            let w = intent_outcome(v, seg, calls)->Ok_0;
            edges_close(w.guaranteed, w.fallible, w.adjacencies)
        }),
{
    let n = calls.len() as int;
    let w = intent_outcome(v, seg, calls)->Ok_0;
    let callers = callers_upto(seg, calls, n);
    let a1 = order_edges_upto(v.adjacencies, v.last, seg, calls, n);
    lemma_first_empty_none(calls, 0);
    lemma_marked_upto(v.guaranteed, seg, calls, n, true);
    lemma_marked_upto(v.fallible, seg, calls, n, false);
    assert forall|m: CallNode, j: int| w.adjacencies.contains_key(m) && 0 <= j < w.adjacencies[m].len()
        implies w.guaranteed.contains_key(#[trigger] w.adjacencies[m][j]) || w.fallible.contains_key(w.adjacencies[m][j]) by {
        assert(list_at(w.adjacencies, m) == w.adjacencies[m]);
        lemma_context_edges_targets(a1, seg, calls, callers, n, m, j);
        let t = w.adjacencies[m][j];
        if j < list_at(a1, m).len() && t == list_at(a1, m)[j] {
            lemma_order_edges_targets(v.adjacencies, v.last, seg, calls, n, m, j);
            if j < list_at(v.adjacencies, m).len() && list_at(a1, m)[j] == list_at(v.adjacencies, m)[j] {
                assert(v.adjacencies.contains_key(m));
                assert(v.guaranteed.contains_key(v.adjacencies[m][j]) || v.fallible.contains_key(v.adjacencies[m][j]));
            } else {
                let c = choose|c: int| 0 <= c < n && list_at(a1, m)[j] == call_node(seg, calls, c);
                assert(has_transcript(calls[c]));
            }
        } else {
            let c = choose|c: int| 0 <= c < n && t == call_node(seg, calls, c);
            assert(has_transcript(calls[c]));
        }
    }
}

/// Every intent the check passes keeps every edge leading to a guaranteed or
/// a fallible call.
pub proof fn lemma_intents_outcome_closes(intents: Seq<(u16, Intent)>)
    requires
        calls_numbered(intents),
        intents_outcome(intents) is Ok,
    ensures
        ({
            let v = intents_outcome(intents)->Ok_0;
            edges_close(v.guaranteed, v.fallible, v.adjacencies)
        }),
    decreases intents.len(),
{
    if intents.len() > 0 {
        let prefix = intents.drop_last();
        assert(calls_numbered(prefix)) by {
            assert forall|k: int| 0 <= k < prefix.len() implies (#[trigger] prefix[k]).1.calls@.len() <= u32::MAX by {
                assert(prefix[k] == intents[k]);
            }
        }
        lemma_intents_outcome_closes(prefix);
        assert(intents[intents.len() - 1].1.calls@.len() <= u32::MAX);
        lemma_intent_outcome_closes(intents_outcome(prefix)->Ok_0, intents.last().0, intents.last().1.calls@);
    } else {
        let v = intents_outcome(intents)->Ok_0;
        assert(v.adjacencies == Map::<CallNode, Seq<CallNode>>::empty());
    }
}

/// When the sequencing check accepts a transaction, nothing that a fallible
/// call precedes, however indirectly, is a guaranteed call.
pub proof fn lemma_sequencing_check_no_fallible_path(tx: StandardTransaction, path: Seq<CallNode>, k: int)
    requires
        calls_numbered(tx.intents@),
        intents_outcome(tx.intents@) matches Ok(v) && !exists|f: CallNode, j: int| causality_edge(v.guaranteed, v.fallible, v.adjacencies, f, j),
        follows_edges(intents_outcome(tx.intents@)->Ok_0.adjacencies, path),
        path.len() > 0,
        intents_outcome(tx.intents@)->Ok_0.fallible.contains_key(path[0]),
        1 <= k < path.len(),
    ensures
        !intents_outcome(tx.intents@)->Ok_0.guaranteed.contains_key(path[k]),
{
    let v = intents_outcome(tx.intents@)->Ok_0;
    lemma_intents_outcome_closes(tx.intents@);
    lemma_causality_covers_paths(v.guaranteed, v.fallible, v.adjacencies, path, k);
}

} // verus!
