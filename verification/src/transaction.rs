//! Transaction-level settings and helpers: how strictly well-formedness is
//! checked, the proof and binding markers, the erased outcome of applying a
//! transaction, transaction hashes, and small collection checks.
use vstd::prelude::*;
use sha2::{Digest, Sha256};
use crate::hash::{KeyEq, HashOutput, ContractAddress};
use crate::ledger::TransactionResult;

verus! {

/// The SHA-256 digest of `data`.
pub uninterp spec fn spec_sha256(data: Seq<u8>) -> Seq<u8>;

/// Hashes `data` with `sha2`'s `Sha256` (`new`, `update`, `finalize`): the
/// result is the SHA-256 digest of the data, 32 bytes, a function of the
/// data alone.
#[verifier::external_body]
fn sha256(data: &[u8]) -> (r: [u8; 32])
    ensures
        r@ == spec_sha256(data@),
{
    let mut hasher = Sha256::new();
    hasher.update(data);
    hasher.finalize().into()
}

/// The hash of a transaction.
#[derive(Debug, Clone, Copy)]
pub struct TransactionHash(pub HashOutput);

/// The hash of a transaction, given its tagged serialization: the SHA-256
/// digest of those bytes.
pub fn transaction_hash(tagged: &[u8]) -> (r: TransactionHash)
    ensures
        r.0.0@ == spec_sha256(tagged@),
{
    TransactionHash(HashOutput(sha256(tagged)))
}

/// The address of a deployed contract, given the tagged serialization of its
/// deployment: the SHA-256 digest of those bytes.
pub fn contract_address(tagged: &[u8]) -> (r: ContractAddress)
    ensures
        r.0.0@ == spec_sha256(tagged@),
{
    ContractAddress(HashOutput(sha256(tagged)))
}

/// How proofs are verified.
#[derive(Debug, Clone, Copy, PartialEq, Eq, Structural)]
pub enum ProofVerificationMode {
    Real,
}

/// Which checks well-formedness performs.
#[derive(Debug, Clone, Copy, PartialEq, Eq, Structural)]
pub struct WellFormedStrictness {
    pub enforce_balancing: bool,
    pub verify_native_proofs: bool,
    pub verify_contract_proofs: bool,
    pub verify_signatures: bool,
    pub enforce_limits: bool,
    pub proof_verification_mode: ProofVerificationMode,
}

impl Default for WellFormedStrictness {
    /// Every check on, with real proof verification.
    fn default() -> (r: Self)
        ensures
            r == (WellFormedStrictness {
                enforce_balancing: true,
                verify_native_proofs: true,
                verify_contract_proofs: true,
                verify_signatures: true,
                enforce_limits: true,
                proof_verification_mode: ProofVerificationMode::Real,
            }),
    {
        WellFormedStrictness {
            enforce_balancing: true,
            verify_native_proofs: true,
            verify_contract_proofs: true,
            verify_signatures: true,
            enforce_limits: true,
            proof_verification_mode: ProofVerificationMode::Real,
        }
    }
}

/// How a test ledger processes transactions.
#[derive(Debug, Clone, Copy, PartialEq, Eq, Structural)]
pub enum TestProcessingMode {
    Regular,
    /// Skips processing whose cost grows with locally tracked state.
    ForceConstantTime,
}

/// Marks transactions that carry proofs.
#[derive(Debug, Clone, Copy, PartialEq, Eq, Structural)]
pub struct ProofMarker;

/// Marks transactions that carry proof preimages, not yet proven.
#[derive(Debug, Clone, Copy, PartialEq, Eq, Structural)]
pub struct ProofPreimageMarker;

/// The binding commitment of a transaction: not yet randomized.
#[derive(Debug, Clone, Copy)]
pub struct Pedersen;

/// The binding commitment of a transaction: randomized, not yet sealed.
#[derive(Debug, Clone, Copy)]
pub struct PedersenRandomness;

/// The binding commitment of a transaction: sealed.
#[derive(Debug, Clone, Copy)]
pub struct PureGeneratorPedersen;

/// Checks that depend on how far a transaction's binding has progressed:
/// some checks (such as signatures) only apply once it is sealed.
pub trait BindingKind {
    /// Whether the binding is sealed.
    spec fn sealed() -> bool;

    /// Combines a check with a deferred one: the outer result is always
    /// kept; the deferred result (`inner`) only counts when sealed.
    fn when_sealed<E>(f: Result<Result<(), E>, E>) -> (r: Result<(), E>)
        ensures
            match f {
                Err(e) => r == Err::<(), E>(e),
                Ok(inner) => if Self::sealed() {
                    r == inner
                } else {
                    r is Ok
                },
            },
    ;
}

impl BindingKind for Pedersen {
    open spec fn sealed() -> bool {
        false
    }

    fn when_sealed<E>(f: Result<Result<(), E>, E>) -> (r: Result<(), E>) {
        match f {
            Err(e) => Err(e),
            Ok(_) => Ok(()),
        }
    }
}

impl BindingKind for PedersenRandomness {
    open spec fn sealed() -> bool {
        false
    }

    fn when_sealed<E>(f: Result<Result<(), E>, E>) -> (r: Result<(), E>) {
        match f {
            Err(e) => Err(e),
            Ok(_) => Ok(()),
        }
    }
}

impl BindingKind for PureGeneratorPedersen {
    open spec fn sealed() -> bool {
        true
    }

    fn when_sealed<E>(f: Result<Result<(), E>, E>) -> (r: Result<(), E>) {
        match f {
            Err(e) => Err(e),
            Ok(inner) => inner,
        }
    }
}

/// The outcome of a transaction without its details: success, success of
/// some segments (with which), or failure.
#[derive(Debug, Clone)]
pub enum ErasedTransactionResult {
    Success,
    PartialSuccess(Vec<(u16, bool)>),
    Failure,
}

impl ErasedTransactionResult {
    /// Forgets the details of an outcome.
    pub fn from_result(res: &TransactionResult) -> (r: ErasedTransactionResult)
        ensures
            res is Success ==> r is Success,
            res is Failure ==> r is Failure,
            res matches TransactionResult::PartialSuccess(segs, _) ==> (r matches ErasedTransactionResult::PartialSuccess(v) && v@.len()
                == segs@.len() && forall|i: int| 0 <= i < v@.len() ==> #[trigger] v@[i] == (segs@[i].0, segs@[i].1 is Ok)),
    {
        match res {
            TransactionResult::Success(_) => ErasedTransactionResult::Success,
            TransactionResult::Failure(_) => ErasedTransactionResult::Failure,
            TransactionResult::PartialSuccess(segs, _) => {
                let mut v: Vec<(u16, bool)> = Vec::new();
                let mut i: usize = 0;
                while i < segs.len()
                    invariant
                        0 <= i <= segs@.len(),
                        v@.len() == i,
                        forall|j: int| 0 <= j < i ==> #[trigger] v@[j] == (segs@[j].0, segs@[j].1 is Ok),
                    decreases segs@.len() - i,
                {
                    let seg = segs[i].0;
                    let ok = segs[i].1.is_ok();
                    v.push((seg, ok));
                    i = i + 1;
                }
                ErasedTransactionResult::PartialSuccess(v)
            },
        }
    }
}

/// Whether no element occurs twice.
pub fn no_duplicates<T: KeyEq>(items: &Vec<T>) -> (r: bool)
    ensures
        r == forall|i: int, j: int| 0 <= i < j < items@.len() ==> items@[i] != items@[j],
{
    let mut j: usize = 0;
    while j < items.len()
        invariant
            0 <= j <= items@.len(),
            forall|a: int, b: int| 0 <= a < b < j ==> items@[a] != items@[b],
        decreases items@.len() - j,
    {
        let mut i: usize = 0;
        while i < j
            invariant
                0 <= i <= j < items@.len(),
                forall|a: int, b: int| 0 <= a < b < j ==> items@[a] != items@[b],
                forall|a: int| 0 <= a < i ==> items@[a] != items@[j as int],
            decreases j - i,
        {
            if items[i].key_eq(&items[j]) {
                return false;
            }
            i = i + 1;
        }
        j = j + 1;
    }
    true
}

/// Numbers the items by position.
pub fn as_indexed<V: Copy>(items: &Vec<V>) -> (r: Vec<(u32, V)>)
    requires
        items@.len() <= u32::MAX + 1,
    ensures
        r@.len() == items@.len(),
        forall|i: int| 0 <= i < items@.len() ==> #[trigger] r@[i] == (i as u32, items@[i]),
{
    let mut r: Vec<(u32, V)> = Vec::new();
    let mut i: usize = 0;
    while i < items.len()
        invariant
            0 <= i <= items@.len(),
            items@.len() <= u32::MAX + 1,
            r@.len() == i,
            forall|j: int| 0 <= j < i ==> #[trigger] r@[j] == (j as u32, items@[j]),
        decreases items@.len() - i,
    {
        r.push((i as u32, items[i]));
        i = i + 1;
    }
    r
}

} // verus!
