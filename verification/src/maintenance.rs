//! Maintenance updates of a contract: a sequence of changes (a new
//! maintenance authority, verifier keys removed or inserted) signed by
//! members of the contract's committee, and the checks that make such an
//! update well-formed against the current authority.
use vstd::prelude::*;
use crate::hash::ContractAddress;
use crate::contract_state::{
    ContractMaintenanceAuthority, EntryPointBuf, ContractOperationVersion, ContractOperationVersionedVerifierKey, ContractOperation,
    ContractState, op_key, op_entry, entries_map, lemma_entries_dom, lemma_entries_update, lemma_entries_remove,
};
use crate::hash::HashOutput;
use crate::ledger::TransactionInvalid;
use crate::balance::MalformedTransaction;
use crate::transaction::WellFormedStrictness;

verus! {

/// One change that a maintenance update makes.
#[derive(Debug, Clone)]
pub enum SingleUpdate {
    /// Replaces the contract's maintenance authority; later updates in the
    /// same sequence are still carried out.
    ReplaceAuthority(ContractMaintenanceAuthority),
    /// Removes the verifier key of an entry point at a version.
    VerifierKeyRemove(EntryPointBuf, ContractOperationVersion),
    /// Inserts a verifier key for an entry point (without replacing one).
    VerifierKeyInsert(EntryPointBuf, ContractOperationVersionedVerifierKey),
}

/// A signature over an update by the committee member at the given index.
#[derive(Debug, Clone)]
pub struct SignaturesValue(pub u32, pub Vec<u8>);

/// An update of a contract's maintenance: its changes, the counter of the
/// authority it is made under, and the committee's signatures.
#[derive(Debug, Clone)]
pub struct MaintenanceUpdate {
    pub address: ContractAddress,
    pub updates: Vec<SingleUpdate>,
    pub counter: u32,
    pub signatures: Vec<SignaturesValue>,
}

/// The counter that a new authority must carry: one more than the update's,
/// saturating.
pub open spec fn next_counter(counter: u32) -> u32 {
    if counter == u32::MAX { u32::MAX } else { (counter + 1) as u32 }
}

/// The signature at `i` is by a member of lower index than the next one.
pub open spec fn signer_step_ok(sigs: Seq<SignaturesValue>, i: int) -> bool {
    sigs[i].0 < sigs[i + 1].0
}

/// The signatures are by members in strictly increasing order, so that no
/// member signs twice.
pub open spec fn signers_increasing(sigs: Seq<SignaturesValue>) -> bool {
    forall|i: int| 0 <= i < sigs.len() - 1 ==> #[trigger] signer_step_ok(sigs, i)
}

/// The update at `i` installs an authority whose counter is not the next one.
pub open spec fn bad_authority_at(updates: Seq<SingleUpdate>, counter: u32, i: int) -> bool {
    updates[i] matches SingleUpdate::ReplaceAuthority(a) && a.counter != next_counter(counter)
}

/// Some new authority carries a counter other than the next one.
pub open spec fn some_bad_authority(updates: Seq<SingleUpdate>, counter: u32) -> bool {
    exists|i: int| 0 <= i < updates.len() && #[trigger] bad_authority_at(updates, counter, i)
}

/// The signature at `k` is by no member of a committee of `committee_len`,
/// or (where signatures are verified) does not verify.
pub open spec fn signature_fails(sigs: Seq<SignaturesValue>, committee_len: nat, verify: bool, valid: Seq<bool>, k: int) -> bool {
    sigs[k].0 >= committee_len || (verify && !valid[k])
}

/// Some signature fails.
pub open spec fn some_signature_fails(sigs: Seq<SignaturesValue>, committee_len: nat, verify: bool, valid: Seq<bool>) -> bool {
    exists|k: int| 0 <= k < sigs.len() && #[trigger] signature_fails(sigs, committee_len, verify, valid, k)
}

/// The error for the failing signature at `k`: its signer is not in the
/// committee, or else its signature does not verify.
pub open spec fn signature_error(address: ContractAddress, sigs: Seq<SignaturesValue>, committee_len: nat, k: int) -> MalformedTransaction {
    if sigs[k].0 >= committee_len {
        MalformedTransaction::KeyNotInCommittee { address, key_id: sigs[k].0 as usize }
    } else {
        MalformedTransaction::InvalidCommitteeSignature { address, key_id: sigs[k].0 as usize }
    }
}

/// The checks of a maintenance update against the authority it is made
/// under, with the error each gives: signers in strictly increasing order
/// and every new authority carrying the next counter (else the update is
/// not normalized); then, signature by signature, a signer in the committee
/// whose signature verifies (`valid[k]` is whether the `k`-th does, looked
/// at only where signatures are verified); then at least the threshold of
/// signatures.
pub open spec fn maintenance_checked(
    u: MaintenanceUpdate,
    authority: ContractMaintenanceAuthority,
    verify: bool,
    valid: Seq<bool>,
    res: Result<(), MalformedTransaction>,
) -> bool {
    let sigs = u.signatures@;
    let n = authority.committee@.len();
    if !signers_increasing(sigs) || some_bad_authority(u.updates@, u.counter) {
        res matches Err(MalformedTransaction::NotNormalized)
    } else if some_signature_fails(sigs, n, verify, valid) {
        exists|k: int| 0 <= k < sigs.len() && #[trigger] signature_fails(sigs, n, verify, valid, k)
            && (forall|j: int| 0 <= j < k ==> !#[trigger] signature_fails(sigs, n, verify, valid, j))
            && res == Err::<(), MalformedTransaction>(signature_error(u.address, sigs, n, k))
    } else if sigs.len() < authority.threshold {
        res == Err::<(), MalformedTransaction>(
            MalformedTransaction::ThresholdMissed {
                address: u.address,
                signatures: sigs.len() as usize,
                threshold: authority.threshold as usize,
            },
        )
    } else {
        res is Ok
    }
}

impl MaintenanceUpdate {
    /// Checks the update against `authority`, the current maintenance
    /// authority of its contract (see `maintenance_checked`);
    /// `signatures_valid[k]` tells whether the `k`-th signature verifies
    /// against its signer's key over the update's signing data.
    pub fn well_formed(
        &self,
        authority: &ContractMaintenanceAuthority,
        strictness: WellFormedStrictness,
        signatures_valid: &Vec<bool>,
    ) -> (res: Result<(), MalformedTransaction>)
        requires
            signatures_valid@.len() == self.signatures@.len(),
        ensures
            maintenance_checked(*self, *authority, strictness.verify_signatures, signatures_valid@, res),
    {
        let sigs = &self.signatures;
        let mut i: usize = 1;
        while i < sigs.len()
            invariant
                1 <= i,
                i <= sigs@.len() || sigs@.len() == 0,
                sigs@ == self.signatures@,
                forall|k: int| 0 <= k < i - 1 ==> #[trigger] signer_step_ok(sigs@, k),
            decreases sigs@.len() - i,
        {
            if !(sigs[i - 1].0 < sigs[i].0) {
                proof {
                    assert(!signer_step_ok(sigs@, i - 1));
                }
                return Err(MalformedTransaction::NotNormalized);
            }
            i = i + 1;
        }
        let next = self.counter.saturating_add(1);
        let mut i: usize = 0;
        while i < self.updates.len()
            invariant
                0 <= i <= self.updates@.len(),
                signers_increasing(self.signatures@),
                next == next_counter(self.counter),
                forall|k: int| 0 <= k < i ==> !#[trigger] bad_authority_at(self.updates@, self.counter, k),
            decreases self.updates@.len() - i,
        {
            match &self.updates[i] {
                SingleUpdate::ReplaceAuthority(a) => {
                    if a.counter != next {
                        proof {
                            assert(bad_authority_at(self.updates@, self.counter, i as int));
                        }
                        return Err(MalformedTransaction::NotNormalized);
                    }
                },
                _ => {},
            }
            i = i + 1;
        }
        let n = authority.committee.len();
        let verify = strictness.verify_signatures;
        let mut k: usize = 0;
        while k < sigs.len()
            invariant
                0 <= k <= sigs@.len(),
                sigs@ == self.signatures@,
                signatures_valid@.len() == sigs@.len(),
                signers_increasing(self.signatures@),
                !some_bad_authority(self.updates@, self.counter),
                n == authority.committee@.len(),
                verify == strictness.verify_signatures,
                forall|j: int| 0 <= j < k ==> !#[trigger] signature_fails(sigs@, n as nat, verify, signatures_valid@, j),
            decreases sigs@.len() - k,
        {
            let idx = sigs[k].0;
            if idx as usize >= n {
                proof {
                    assert(signature_fails(sigs@, n as nat, verify, signatures_valid@, k as int));
                }
                return Err(MalformedTransaction::KeyNotInCommittee { address: self.address, key_id: idx as usize });
            }
            if verify && !signatures_valid[k] {
                proof {
                    assert(signature_fails(sigs@, n as nat, verify, signatures_valid@, k as int));
                }
                return Err(MalformedTransaction::InvalidCommitteeSignature { address: self.address, key_id: idx as usize });
            }
            k = k + 1;
        }
        if (sigs.len() as u64) < (authority.threshold as u64) {
            return Err(
                MalformedTransaction::ThresholdMissed {
                    address: self.address,
                    signatures: sigs.len(),
                    threshold: authority.threshold as usize,
                },
            );
        }
        Ok(())
    }
}

/// The key bytes that a versioned key holds.
pub open spec fn vk_bytes(vk: ContractOperationVersionedVerifierKey) -> Seq<u8> {
    match vk {
        ContractOperationVersionedVerifierKey::V3(k) => k.0@,
    }
}

/// One change applied to an authority and the keys by entry point: a new
/// authority; the removal of an entry point's operation, which must be
/// there; or a key put where there is none.
pub open spec fn spec_apply_single(
    auth: (Seq<HashOutput>, u32, u32),
    ops: Map<Seq<u8>, Option<Seq<u8>>>,
    up: SingleUpdate,
) -> Result<((Seq<HashOutput>, u32, u32), Map<Seq<u8>, Option<Seq<u8>>>), TransactionInvalid> {
    match up {
        SingleUpdate::ReplaceAuthority(a) => Ok((a.aview(), ops)),
        SingleUpdate::VerifierKeyRemove(ep, ver) => if !ops.contains_key(ep.0@) {
            Err(TransactionInvalid::VerifierKeyNotFound(ep, ver))
        } else {
            Ok((auth, ops.remove(ep.0@)))
        },
        SingleUpdate::VerifierKeyInsert(ep, vk) => if ops.contains_key(ep.0@) && ops[ep.0@] is Some {
            Err(TransactionInvalid::VerifierKeyAlreadyPresent(ep, ContractOperationVersion::V3))
        } else {
            Ok((auth, ops.insert(ep.0@, Some(vk_bytes(vk)))))
        },
    }
}

/// The first `n` changes applied in order.
pub open spec fn updates_fold(
    auth: (Seq<HashOutput>, u32, u32),
    ops: Map<Seq<u8>, Option<Seq<u8>>>,
    ups: Seq<SingleUpdate>,
    n: int,
) -> Result<((Seq<HashOutput>, u32, u32), Map<Seq<u8>, Option<Seq<u8>>>), TransactionInvalid>
    decreases n,
{
    if n <= 0 {
        Ok((auth, ops))
    } else {
        match updates_fold(auth, ops, ups, n - 1) {
            Err(e) => Err(e),
            Ok((a, m)) => spec_apply_single(a, m, ups[n - 1]),
        }
    }
}

/// A maintenance update applied to a contract whose authority is `auth`
/// and whose keys are `ops`: it must be made under the authority's
/// counter, which then moves on by one (saturating), and its changes are
/// applied in order.
pub open spec fn spec_apply_maintenance(
    address: ContractAddress,
    counter: u32,
    auth: (Seq<HashOutput>, u32, u32),
    ops: Map<Seq<u8>, Option<Seq<u8>>>,
    ups: Seq<SingleUpdate>,
) -> Result<((Seq<HashOutput>, u32, u32), Map<Seq<u8>, Option<Seq<u8>>>), TransactionInvalid> {
    if auth.2 != counter {
        Err(TransactionInvalid::ReplayCounterMismatch(address))
    } else {
        updates_fold((auth.0, auth.1, next_counter(auth.2)), ops, ups, ups.len() as int)
    }
}

/// The same failure, entry points compared by their bytes.
pub open spec fn same_failure(e: TransactionInvalid, se: TransactionInvalid) -> bool {
    match (e, se) {
        (TransactionInvalid::VerifierKeyNotFound(a, v), TransactionInvalid::VerifierKeyNotFound(b, w)) => a.0@ == b.0@ && v == w,
        (TransactionInvalid::VerifierKeyAlreadyPresent(a, v), TransactionInvalid::VerifierKeyAlreadyPresent(b, w)) => a.0@ == b.0@
            && v == w,
        (TransactionInvalid::ReplayCounterMismatch(a), TransactionInvalid::ReplayCounterMismatch(b)) => a == b,
        _ => false,
    }
}

/// Once applying the changes fails, it fails with the same error.
proof fn lemma_updates_fold_err(
    auth: (Seq<HashOutput>, u32, u32),
    ops: Map<Seq<u8>, Option<Seq<u8>>>,
    ups: Seq<SingleUpdate>,
    n: int,
    m: int,
)
    requires
        n <= m,
        updates_fold(auth, ops, ups, n) is Err,
    ensures
        updates_fold(auth, ops, ups, m) == updates_fold(auth, ops, ups, n),
    decreases m - n,
{
    if n < m {
        lemma_updates_fold_err(auth, ops, ups, n, m - 1);
    }
}

impl MaintenanceUpdate {
    /// Applies the update to the state of its contract (see
    /// `spec_apply_maintenance`).
    pub fn apply(&self, state: &ContractState) -> (res: Result<ContractState, TransactionInvalid>)
        requires
            state.wf(),
        ensures
            match (res, spec_apply_maintenance(self.address, self.counter, state.maintenance_authority.aview(), state.ops(), self.updates@)) {
                (Ok(st), Ok((a, m))) => st.wf() && st.maintenance_authority.aview() == a && st.ops() == m
                    && st.balance@ == state.balance@,
                (Err(e), Err(se)) => same_failure(e, se),
                _ => false,
            },
    {
        if state.maintenance_authority.counter != self.counter {
            return Err(TransactionInvalid::ReplayCounterMismatch(self.address));
        }
        let mut st = state.duplicate();
        st.maintenance_authority.counter = st.maintenance_authority.counter.saturating_add(1);
        let ghost auth0 = st.maintenance_authority.aview();
        let ghost ops0 = st.ops();
        let mut i: usize = 0;
        while i < self.updates.len()
            invariant
                0 <= i <= self.updates@.len(),
                st.wf(),
                state.maintenance_authority.counter == self.counter,
                auth0 == (state.maintenance_authority.committee@, state.maintenance_authority.threshold, next_counter(self.counter)),
                ops0 == state.ops(),
                st.balance@ == state.balance@,
                updates_fold(auth0, ops0, self.updates@, i as int) == Ok::<
                    ((Seq<HashOutput>, u32, u32), Map<Seq<u8>, Option<Seq<u8>>>),
                    TransactionInvalid,
                >((st.maintenance_authority.aview(), st.ops())),
            decreases self.updates@.len() - i,
        {
            match &self.updates[i] {
                SingleUpdate::ReplaceAuthority(a) => {
                    st.maintenance_authority = a.duplicate();
                },
                SingleUpdate::VerifierKeyRemove(ep, ver) => {
                    match st.find(ep) {
                        None => {
                            proof {
                                lemma_updates_fold_err(auth0, ops0, self.updates@, i + 1, self.updates@.len() as int);
                            }
                            return Err(TransactionInvalid::VerifierKeyNotFound(ep.duplicate(), *ver));
                        },
                        Some(j) => {
                            let mut op = st.operations[j].1.duplicate();
                            ver.rm_from(&mut op);
                            if op.v2.is_none() {
                                let ghost es = st.entries();
                                st.operations.remove(j);
                                proof {
                                    assert(st.entries() =~= es.remove(j as int));
                                    lemma_entries_remove(es, j as int);
                                }
                            } else {
                                let ghost es = st.entries();
                                let e = (ep.duplicate(), op);
                                st.operations.set(j, e);
                                proof {
                                    assert(st.entries() =~= es.update(j as int, (es[j as int].0, op_key(e.1))));
                                    lemma_entries_update(es, j as int, op_key(e.1));
                                }
                            }
                        },
                    }
                },
                SingleUpdate::VerifierKeyInsert(ep, vk) => {
                    let found = st.find(ep);
                    let mut op = match found {
                        Some(j) => st.operations[j].1.duplicate(),
                        None => ContractOperation::new(None),
                    };
                    if vk.as_version().has(&op) {
                        proof {
                            lemma_updates_fold_err(auth0, ops0, self.updates@, i + 1, self.updates@.len() as int);
                        }
                        return Err(TransactionInvalid::VerifierKeyAlreadyPresent(ep.duplicate(), vk.as_version()));
                    }
                    vk.insert_into(&mut op);
                    let ghost es = st.entries();
                    let e = (ep.duplicate(), op);
                    match found {
                        Some(j) => {
                            st.operations.set(j, e);
                            proof {
                                assert(st.entries() =~= es.update(j as int, (es[j as int].0, op_key(e.1))));
                                lemma_entries_update(es, j as int, op_key(e.1));
                            }
                        },
                        None => {
                            st.operations.push(e);
                            proof {
                                assert(st.entries() =~= es.push(op_entry(e)));
                                assert(st.entries().drop_last() =~= es);
                                lemma_entries_dom(es, ep.0@);
                                assert forall|a: int, b: int| 0 <= a < b < st.entries().len() implies st.entries()[a].0
                                    != st.entries()[b].0 by {
                                    if b == es.len() {
                                        assert(es[a].0 != ep.0@);
                                    }
                                }
                            }
                        },
                    }
                },
            }
            i = i + 1;
        }
        Ok(st)
    }
}

/// While every authority installed carries the counter `c`, the counter
/// stays `c` through the changes.
proof fn lemma_updates_fold_counter(
    auth: (Seq<HashOutput>, u32, u32),
    ops: Map<Seq<u8>, Option<Seq<u8>>>,
    ups: Seq<SingleUpdate>,
    counter: u32,
    n: int,
)
    requires
        auth.2 == next_counter(counter),
        !some_bad_authority(ups, counter),
        n <= ups.len(),
    ensures
        updates_fold(auth, ops, ups, n) matches Ok((a, _)) ==> a.2 == next_counter(counter),
    decreases n,
{
    if n > 0 {
        lemma_updates_fold_counter(auth, ops, ups, counter, n - 1);
        assert(!bad_authority_at(ups, counter, n - 1));
    }
}

/// A maintenance update cannot be applied twice: once applied, the
/// contract's counter has moved on, so applying it again is refused as a
/// counter mismatch. This holds where each authority the update installs
/// carries the next counter (as well-formedness demands) and the counter
/// has not reached its maximum.
pub proof fn lemma_maintenance_not_replayable(
    address: ContractAddress,
    counter: u32,
    auth: (Seq<HashOutput>, u32, u32),
    ops: Map<Seq<u8>, Option<Seq<u8>>>,
    ups: Seq<SingleUpdate>,
)
    requires
        counter < u32::MAX,
        !some_bad_authority(ups, counter),
        spec_apply_maintenance(address, counter, auth, ops, ups) is Ok,
    ensures
        ({
            let (a2, m2) = spec_apply_maintenance(address, counter, auth, ops, ups)->Ok_0;
            spec_apply_maintenance(address, counter, a2, m2, ups) == Err::<
                ((Seq<HashOutput>, u32, u32), Map<Seq<u8>, Option<Seq<u8>>>),
                TransactionInvalid,
            >(TransactionInvalid::ReplayCounterMismatch(address))
        }),
{
    lemma_updates_fold_counter((auth.0, auth.1, next_counter(auth.2)), ops, ups, counter, ups.len() as int);
}

/// An update made under the contract's counter moves the counter on by one
/// (saturating) and applies its change: a key inserted where there is none
/// is then there, a key removed where there is one is then gone, and
/// removing a key that is not there is refused; an update made under
/// another counter is refused as a counter mismatch.
pub proof fn lemma_single_key_update(
    address: ContractAddress,
    counter: u32,
    auth: (Seq<HashOutput>, u32, u32),
    ops: Map<Seq<u8>, Option<Seq<u8>>>,
    ep: EntryPointBuf,
    ver: ContractOperationVersion,
    vk: ContractOperationVersionedVerifierKey,
)
    ensures
        ({
            let next = (auth.0, auth.1, if auth.2 == u32::MAX { u32::MAX } else { (auth.2 + 1) as u32 });
            let ins = spec_apply_maintenance(address, counter, auth, ops, seq![SingleUpdate::VerifierKeyInsert(ep, vk)]);
            let rem = spec_apply_maintenance(address, counter, auth, ops, seq![SingleUpdate::VerifierKeyRemove(ep, ver)]);
            &&& (counter != auth.2 ==> ins == Err::<((Seq<HashOutput>, u32, u32), Map<Seq<u8>, Option<Seq<u8>>>), TransactionInvalid>(
                TransactionInvalid::ReplayCounterMismatch(address),
            ) && rem == Err::<((Seq<HashOutput>, u32, u32), Map<Seq<u8>, Option<Seq<u8>>>), TransactionInvalid>(
                TransactionInvalid::ReplayCounterMismatch(address),
            ))
            &&& (counter == auth.2 && !(ops.contains_key(ep.0@) && ops[ep.0@] is Some) ==> ins == Ok::<
                ((Seq<HashOutput>, u32, u32), Map<Seq<u8>, Option<Seq<u8>>>),
                TransactionInvalid,
            >((next, ops.insert(ep.0@, Some(vk_bytes(vk))))))
            &&& (counter == auth.2 && ops.contains_key(ep.0@) ==> rem == Ok::<
                ((Seq<HashOutput>, u32, u32), Map<Seq<u8>, Option<Seq<u8>>>),
                TransactionInvalid,
            >((next, ops.remove(ep.0@))))
            &&& (counter == auth.2 && !ops.contains_key(ep.0@) ==> rem == Err::<
                ((Seq<HashOutput>, u32, u32), Map<Seq<u8>, Option<Seq<u8>>>),
                TransactionInvalid,
            >(TransactionInvalid::VerifierKeyNotFound(ep, ver)))
        }),
{
    reveal_with_fuel(updates_fold, 2);
}

} // verus!
