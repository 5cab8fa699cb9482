//! Replay protection: the intent hashes seen recently, each kept until its
//! time-to-live passes, and the time-to-live checks on intents.
use vstd::prelude::*;
use crate::hash::{KeyEq, IntentHash};
use crate::intent::{Intent, StandardTransaction};
use crate::keyed::{keys_unique, seq_to_map, lemma_seq_to_map_dom, lemma_seq_to_map_push, find_key, copy_vec};

verus! {

/// Why an intent (or an output instruction) was refused by replay protection
/// or by its time-to-live.
#[derive(Debug, Clone, Copy, PartialEq, Eq, Structural)]
pub enum TransactionApplicationError {
    /// The hash was already recorded.
    IntentAlreadyExists,
    /// The time-to-live (first) lies before the block time (second).
    IntentTtlExpired(u64, u64),
    /// The time-to-live (first) lies beyond the block time plus the global
    /// time-to-live (second).
    IntentTtlTooFarInFuture(u64, u64),
}

/// The recorded hashes with the time until which each is kept.
pub struct ReplayProtectionState {
    entries: Vec<(IntentHash, u64)>,
}

/// The entries of `m` whose time is not before `t`.
pub open spec fn spec_filter_from(m: Map<IntentHash, u64>, t: u64) -> Map<IntentHash, u64> {
    Map::new(|h: IntentHash| m.contains_key(h) && m[h] >= t, |h: IntentHash| m[h])
}

/// What applying a hash with time-to-live `ttl` at block time `tblock` gives:
/// the error, or the recorded map with the hash added.
pub open spec fn spec_apply_member(m: Map<IntentHash, u64>, hash: IntentHash, ttl: u64, tblock: u64, global_ttl: u64) -> Result<Map<IntentHash, u64>, TransactionApplicationError> {
    if m.contains_key(hash) {
        Err(TransactionApplicationError::IntentAlreadyExists)
    } else if ttl < tblock {
        Err(TransactionApplicationError::IntentTtlExpired(ttl, tblock))
    } else if ttl > tblock + global_ttl {
        Err(TransactionApplicationError::IntentTtlTooFarInFuture(ttl, (tblock + global_ttl) as u64))
    } else {
        Ok(m.insert(hash, ttl))
    }
}

/// What recording the intents in order gives, the `k`-th under the `k`-th
/// hash and with its time-to-live: the first error, or the recorded map.
pub open spec fn spec_apply_intents(
    m: Map<IntentHash, u64>,
    intents: Seq<(u16, Intent)>,
    hashes: Seq<IntentHash>,
    tblock: u64,
    global_ttl: u64,
) -> Result<Map<IntentHash, u64>, TransactionApplicationError>
    decreases intents.len(),
{
    if intents.len() == 0 {
        Ok(m)
    } else {
        match spec_apply_intents(m, intents.drop_last(), hashes, tblock, global_ttl) {
            Ok(m2) => spec_apply_member(m2, hashes[intents.len() - 1], intents.last().1.ttl, tblock, global_ttl),
            Err(e) => Err(e),
        }
    }
}

impl View for ReplayProtectionState {
    type V = Map<IntentHash, u64>;

    closed spec fn view(&self) -> Map<IntentHash, u64> {
        seq_to_map(self.entries@)
    }
}

impl ReplayProtectionState {
    /// Each hash is recorded once.
    pub closed spec fn wf(&self) -> bool {
        keys_unique(self.entries@)
    }

    /// No hash recorded.
    pub fn new() -> (r: Self)
        ensures
            r.wf(),
            r@ == Map::<IntentHash, u64>::empty(),
    {
        let r = ReplayProtectionState { entries: Vec::new() };
        proof {
            assert(r@ =~= Map::<IntentHash, u64>::empty());
        }
        r
    }

    /// A copy of this state.
    pub fn duplicate(&self) -> (r: Self)
        requires
            self.wf(),
        ensures
            r.wf(),
            r@ == self@,
    {
        ReplayProtectionState { entries: copy_vec(&self.entries) }
    }

    /// Whether `hash` is recorded.
    pub fn contains(&self, hash: &IntentHash) -> (r: bool)
        requires
            self.wf(),
        ensures
            r == self@.contains_key(*hash),
    {
        proof {
            lemma_seq_to_map_dom(self.entries@, *hash);
        }
        match find_key(&self.entries, hash) {
            Some(_) => true,
            None => false,
        }
    }

    /// Records `hash` until `ttl`, after checking that it is not recorded yet
    /// and that `ttl` lies between `tblock` and `tblock + global_ttl` (the
    /// sum is only formed where it is below `ttl`, so it never overflows).
    pub fn apply_member(&self, hash: IntentHash, ttl: u64, tblock: u64, global_ttl: u64) -> (res: Result<Self, TransactionApplicationError>)
        requires
            self.wf(),
        ensures
            match (res, spec_apply_member(self@, hash, ttl, tblock, global_ttl)) {
                (Ok(r), Ok(m)) => r.wf() && r@ == m,
                (Err(e), Err(se)) => e == se,
                _ => false,
            },
    {
        if self.contains(&hash) {
            return Err(TransactionApplicationError::IntentAlreadyExists);
        }
        if ttl < tblock {
            return Err(TransactionApplicationError::IntentTtlExpired(ttl, tblock));
        }
        if ttl - tblock > global_ttl {
            return Err(TransactionApplicationError::IntentTtlTooFarInFuture(ttl, tblock + global_ttl));
        }
        let mut entries = copy_vec(&self.entries);
        proof {
            lemma_seq_to_map_push(self.entries@, hash, ttl);
        }
        entries.push((hash, ttl));
        Ok(ReplayProtectionState { entries })
    }

    /// Drops every hash whose time-to-live lies before `tblock`.
    pub fn post_block_update(&self, tblock: u64) -> (r: Self)
        requires
            self.wf(),
        ensures
            r.wf(),
            r@ == spec_filter_from(self@, tblock),
    {
        let ghost s = self.entries@;
        let mut kept: Vec<(IntentHash, u64)> = Vec::new();
        let mut i: usize = 0;
        while i < self.entries.len()
            invariant
                0 <= i <= s.len(),
                s == self.entries@,
                keys_unique(s),
                keys_unique(kept@),
                seq_to_map(kept@) =~= spec_filter_from(seq_to_map(s.take(i as int)), tblock),
                forall|k: IntentHash| seq_to_map(kept@).contains_key(k) ==> seq_to_map(s.take(i as int)).contains_key(k),
            decreases s.len() - i,
        {
            let e = self.entries[i];
            let ghost prev = seq_to_map(s.take(i as int));
            proof {
                assert(s.take(i + 1).drop_last() =~= s.take(i as int));
                assert(s.take(i + 1).last() == s[i as int]);
                assert(seq_to_map(s.take(i + 1)) == prev.insert(e.0, e.1));
                lemma_seq_to_map_dom(s.take(i as int), e.0);
                if prev.contains_key(e.0) {
                    let j = choose|j: int| 0 <= j < s.take(i as int).len() && #[trigger] s.take(i as int)[j].0 == e.0;
                    assert(s[j].0 == s[i as int].0);
                }
            }
            if e.1 >= tblock {
                proof {
                    lemma_seq_to_map_push(kept@, e.0, e.1);
                }
                kept.push(e);
            }
            i = i + 1;
        }
        proof {
            assert(s.take(s.len() as int) =~= s);
        }
        ReplayProtectionState { entries: kept }
    }
}

/// The time-to-live of each intent, in segment order.
pub open spec fn intent_ttls(tx: StandardTransaction) -> Seq<u64> {
    tx.intents@.map_values(|si: (u16, Intent)| si.1.ttl)
}

impl StandardTransaction {
    /// Checks that every intent's time-to-live lies between `tblock` and
    /// `tblock + global_ttl`; the first intent that does not is reported.
    pub fn ttl_check_weak(&self, tblock: u64, global_ttl: u64) -> (res: Result<(), TransactionApplicationError>)
        ensures
            ({
                let ttls = intent_ttls(*self);
                &&& res is Ok <==> forall|i: int| 0 <= i < ttls.len() ==> tblock <= #[trigger] ttls[i] <= tblock + global_ttl
                &&& res matches Err(e) ==> exists|i: int| 0 <= i < ttls.len() && {
                    &&& forall|j: int| 0 <= j < i ==> tblock <= #[trigger] ttls[j] <= tblock + global_ttl
                    &&& (if ttls[i] < tblock {
                        e == TransactionApplicationError::IntentTtlExpired(ttls[i], tblock)
                    } else {
                        ttls[i] > tblock + global_ttl && e == TransactionApplicationError::IntentTtlTooFarInFuture(ttls[i], (tblock + global_ttl) as u64)
                    })
                }
            }),
    {
        let ghost ttls = intent_ttls(*self);
        let mut i: usize = 0;
        while i < self.intents.len()
            invariant
                0 <= i <= self.intents@.len(),
                ttls == intent_ttls(*self),
                forall|j: int| 0 <= j < i ==> tblock <= #[trigger] ttls[j] <= tblock + global_ttl,
            decreases self.intents@.len() - i,
        {
            let ttl = self.intents[i].1.ttl;
            assert(ttls[i as int] == ttl);
            if ttl < tblock {
                return Err(TransactionApplicationError::IntentTtlExpired(ttl, tblock));
            }
            if ttl - tblock > global_ttl {
                return Err(TransactionApplicationError::IntentTtlTooFarInFuture(ttl, tblock + global_ttl));
            }
            i = i + 1;
        }
        Ok(())
    }
}

/// A hash that was just recorded is refused when applied again, whatever its
/// time-to-live.
pub proof fn lemma_replay_refused(m: Map<IntentHash, u64>, hash: IntentHash, ttl: u64, tblock: u64, global_ttl: u64, ttl2: u64, tblock2: u64)
    requires
        spec_apply_member(m, hash, ttl, tblock, global_ttl) is Ok,
    ensures
        spec_apply_member(spec_apply_member(m, hash, ttl, tblock, global_ttl)->Ok_0, hash, ttl2, tblock2, global_ttl)
            == Err::<Map<IntentHash, u64>, TransactionApplicationError>(TransactionApplicationError::IntentAlreadyExists),
{
}

/// A hash not yet recorded, with a time-to-live from the block time to the
/// block time plus the global bound, is recorded with that time-to-live,
/// and nothing else changes; one whose time-to-live has passed is refused.
pub proof fn lemma_fresh_hash_recorded(m: Map<IntentHash, u64>, hash: IntentHash, ttl: u64, tblock: u64, global_ttl: u64)
    requires
        !m.contains_key(hash),
    ensures
        tblock <= ttl <= tblock + global_ttl ==> spec_apply_member(m, hash, ttl, tblock, global_ttl) == Ok::<
            Map<IntentHash, u64>,
            TransactionApplicationError,
        >(m.insert(hash, ttl)),
        ttl < tblock ==> spec_apply_member(m, hash, ttl, tblock, global_ttl) == Err::<Map<IntentHash, u64>, TransactionApplicationError>(
            TransactionApplicationError::IntentTtlExpired(ttl, tblock),
        ),
{
}

/// A hash stays recorded through block updates as long as its time-to-live
/// has not passed, and is dropped once it has.
pub proof fn lemma_filter_keeps_live(m: Map<IntentHash, u64>, hash: IntentHash, t: u64)
    requires
        m.contains_key(hash),
    ensures
        spec_filter_from(m, t).contains_key(hash) <==> m[hash] >= t,
{
}

impl ReplayProtectionState {
    /// Records an intent under its hash (computed independently of its
    /// segment) until its time-to-live.
    pub fn apply_intent(&self, intent: &Intent, hash: IntentHash, tblock: u64, global_ttl: u64) -> (res: Result<Self, TransactionApplicationError>)
        requires
            self.wf(),
        ensures
            match (res, spec_apply_member(self@, hash, intent.ttl, tblock, global_ttl)) {
                (Ok(r), Ok(m)) => r.wf() && r@ == m,
                (Err(e), Err(se)) => e == se,
                _ => false,
            },
    {
        self.apply_member(hash, intent.ttl, tblock, global_ttl)
    }

    /// Records the intents of a transaction in segment order, the `k`-th
    /// under `intent_hashes[k]`; the first refusal is the result.
    pub fn apply_tx(&self, tx: &StandardTransaction, intent_hashes: &Vec<IntentHash>, tblock: u64, global_ttl: u64) -> (res: Result<Self, TransactionApplicationError>)
        requires
            self.wf(),
            intent_hashes@.len() == tx.intents@.len(),
        ensures
            match (res, spec_apply_intents(self@, tx.intents@, intent_hashes@, tblock, global_ttl)) {
                (Ok(r), Ok(m)) => r.wf() && r@ == m,
                (Err(e), Err(se)) => e == se,
                _ => false,
            },
    {
        let mut st = self.duplicate();
        let mut i: usize = 0;
        proof {
            assert(tx.intents@.take(0) =~= Seq::<(u16, Intent)>::empty());
        }
        while i < tx.intents.len()
            invariant
                0 <= i <= tx.intents@.len(),
                intent_hashes@.len() == tx.intents@.len(),
                st.wf(),
                spec_apply_intents(self@, tx.intents@.take(i as int), intent_hashes@, tblock, global_ttl)
                    == Ok::<Map<IntentHash, u64>, TransactionApplicationError>(st@),
            decreases tx.intents@.len() - i,
        {
            proof {
                assert(tx.intents@.take(i as int + 1).drop_last() =~= tx.intents@.take(i as int));
                assert(tx.intents@.take(i as int + 1).last() == tx.intents@[i as int]);
            }
            match st.apply_intent(&tx.intents[i].1, intent_hashes[i], tblock, global_ttl) {
                Ok(next) => {
                    st = next;
                },
                Err(e) => {
                    proof {
                        lemma_apply_intents_err_extends(self@, tx.intents@, intent_hashes@, tblock, global_ttl, i as int + 1);
                    }
                    return Err(e);
                },
            }
            i = i + 1;
        }
        proof {
            assert(tx.intents@.take(tx.intents@.len() as int) =~= tx.intents@);
        }
        Ok(st)
    }
}

/// Once the intents up to `k` are refused, all of them are refused the same
/// way.
pub proof fn lemma_apply_intents_err_extends(
    m: Map<IntentHash, u64>,
    intents: Seq<(u16, Intent)>,
    hashes: Seq<IntentHash>,
    tblock: u64,
    global_ttl: u64,
    k: int,
)
    requires
        0 <= k <= intents.len(),
        spec_apply_intents(m, intents.take(k), hashes, tblock, global_ttl) is Err,
    ensures
        spec_apply_intents(m, intents, hashes, tblock, global_ttl) == spec_apply_intents(m, intents.take(k), hashes, tblock, global_ttl),
    decreases intents.len() - k,
{
    if k < intents.len() {
        assert(intents.take(k + 1).drop_last() =~= intents.take(k));
        lemma_apply_intents_err_extends(m, intents, hashes, tblock, global_ttl, k + 1);
    } else {
        assert(intents.take(k) =~= intents);
    }
}

/// Recording intents keeps what was recorded and records each intent's hash.
pub proof fn lemma_apply_intents_records(
    m: Map<IntentHash, u64>,
    intents: Seq<(u16, Intent)>,
    hashes: Seq<IntentHash>,
    tblock: u64,
    global_ttl: u64,
)
    requires
        spec_apply_intents(m, intents, hashes, tblock, global_ttl) is Ok,
    ensures
        forall|h: IntentHash| m.contains_key(h) ==> #[trigger] spec_apply_intents(m, intents, hashes, tblock, global_ttl)->Ok_0.contains_key(h),
        forall|k: int| 0 <= k < intents.len() ==> spec_apply_intents(m, intents, hashes, tblock, global_ttl)->Ok_0.contains_key(#[trigger] hashes[k]),
    decreases intents.len(),
{
    if intents.len() > 0 {
        lemma_apply_intents_records(m, intents.drop_last(), hashes, tblock, global_ttl);
    }
}

/// A transaction whose intents were all recorded is refused when applied
/// again, at any block time: its first intent already exists.
pub proof fn lemma_replayed_tx_refused(
    m: Map<IntentHash, u64>,
    intents: Seq<(u16, Intent)>,
    hashes: Seq<IntentHash>,
    tblock: u64,
    global_ttl: u64,
    tblock2: u64,
    global_ttl2: u64,
)
    requires
        intents.len() > 0,
        spec_apply_intents(m, intents, hashes, tblock, global_ttl) is Ok,
    ensures
        spec_apply_intents(spec_apply_intents(m, intents, hashes, tblock, global_ttl)->Ok_0, intents, hashes, tblock2, global_ttl2)
            == Err::<Map<IntentHash, u64>, TransactionApplicationError>(TransactionApplicationError::IntentAlreadyExists),
{
    let m2 = spec_apply_intents(m, intents, hashes, tblock, global_ttl)->Ok_0;
    lemma_apply_intents_records(m, intents, hashes, tblock, global_ttl);
    assert(m2.contains_key(hashes[0]));
    assert(intents.take(1).drop_last() =~= Seq::<(u16, Intent)>::empty());
    assert(spec_apply_intents(m2, intents.take(1).drop_last(), hashes, tblock2, global_ttl2) == Ok::<Map<IntentHash, u64>, TransactionApplicationError>(m2));
    assert(spec_apply_intents(m2, intents.take(1), hashes, tblock2, global_ttl2)
        == Err::<Map<IntentHash, u64>, TransactionApplicationError>(TransactionApplicationError::IntentAlreadyExists));
    lemma_apply_intents_err_extends(m2, intents, hashes, tblock2, global_ttl2, 1);
}

} // verus!
