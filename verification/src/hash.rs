//! Thirty-two byte hash outputs and the identifiers built from them, with an
//! executable equality that Verus can reason about.
use vstd::prelude::*;

verus! {

/// A 32-byte hash output.
#[derive(Debug, Clone, Copy)]
pub struct HashOutput(pub [u8; 32]);

/// Compares two byte arrays element by element.
pub fn bytes32_eq(a: &[u8; 32], b: &[u8; 32]) -> (r: bool)
    ensures
        r == (*a == *b),
{
    let mut i: usize = 0;
    while i < 32
        invariant
            0 <= i <= 32,
            forall|j: int| 0 <= j < i ==> a@[j] == b@[j],
        decreases 32 - i,
    {
        if a[i] != b[i] {
            return false;
        }
        i = i + 1;
    }
    proof {
        assert(a@ =~= b@);
        vstd::array::axiom_array_ext_equal(*a, *b);
    }
    true
}

/// The first 32-byte string orders before the second, comparing bytes from
/// position `i` on.
pub open spec fn bytes_lt_from(a: Seq<u8>, b: Seq<u8>, i: int) -> bool
    decreases 32 - i,
{
    if i < 0 || i >= 32 {
        false
    } else if a[i] != b[i] {
        a[i] < b[i]
    } else {
        bytes_lt_from(a, b, i + 1)
    }
}

/// No string orders before itself.
pub proof fn lemma_bytes_lt_irreflexive(a: Seq<u8>, i: int)
    requires
        0 <= i,
    ensures
        !bytes_lt_from(a, a, i),
    decreases 32 - i,
{
    if i < 32 {
        lemma_bytes_lt_irreflexive(a, i + 1);
    }
}

/// The byte order is transitive.
pub proof fn lemma_bytes_lt_transitive(a: Seq<u8>, b: Seq<u8>, c: Seq<u8>, i: int)
    requires
        0 <= i,
        bytes_lt_from(a, b, i),
        bytes_lt_from(b, c, i),
    ensures
        bytes_lt_from(a, c, i),
    decreases 32 - i,
{
    if i < 32 && a[i] == b[i] && b[i] == c[i] {
        lemma_bytes_lt_transitive(a, b, c, i + 1);
    }
}

/// Two strings agree from `i` on, or one orders before the other.
pub proof fn lemma_bytes_lt_total(a: Seq<u8>, b: Seq<u8>, i: int)
    requires
        0 <= i,
    ensures
        (forall|k: int| i <= k < 32 ==> a[k] == b[k]) || bytes_lt_from(a, b, i) || bytes_lt_from(b, a, i),
    decreases 32 - i,
{
    if i < 32 && a[i] == b[i] {
        lemma_bytes_lt_total(a, b, i + 1);
    }
}

/// Two hash outputs in byte order.
pub open spec fn hash_lt(a: HashOutput, b: HashOutput) -> bool {
    bytes_lt_from(a.0@, b.0@, 0)
}

/// The byte order of hash outputs is a strict total order.
pub proof fn lemma_hash_order(x: HashOutput, y: HashOutput, z: HashOutput)
    ensures
        !hash_lt(x, x),
        hash_lt(x, y) && hash_lt(y, z) ==> hash_lt(x, z),
        x != y ==> hash_lt(x, y) || hash_lt(y, x),
{
    lemma_bytes_lt_irreflexive(x.0@, 0);
    if hash_lt(x, y) && hash_lt(y, z) {
        lemma_bytes_lt_transitive(x.0@, y.0@, z.0@, 0);
    }
    if x != y {
        lemma_bytes_lt_total(x.0@, y.0@, 0);
        if forall|k: int| 0 <= k < 32 ==> x.0@[k] == y.0@[k] {
            assert(x.0@ =~= y.0@);
            vstd::array::axiom_array_ext_equal(x.0, y.0);
        }
    }
}

/// Whether `a` orders before `b` in byte order.
pub fn hash_less(a: &HashOutput, b: &HashOutput) -> (r: bool)
    ensures
        r == hash_lt(*a, *b),
{
    let mut i: usize = 0;
    while i < 32
        invariant
            0 <= i <= 32,
            bytes_lt_from(a.0@, b.0@, 0) == bytes_lt_from(a.0@, b.0@, i as int),
            forall|k: int| 0 <= k < i ==> a.0@[k] == b.0@[k],
        decreases 32 - i,
    {
        if a.0[i] != b.0[i] {
            return a.0[i] < b.0[i];
        }
        i = i + 1;
    }
    false
}

/// Equality of keys, decided in executable code and exact in specifications.
pub trait KeyEq: Sized + Copy {
    fn key_eq(&self, other: &Self) -> (r: bool)
        ensures
            r == (*self == *other),
    ;
}

impl KeyEq for u16 {
    fn key_eq(&self, other: &Self) -> (r: bool) {
        *self == *other
    }
}

impl KeyEq for u32 {
    fn key_eq(&self, other: &Self) -> (r: bool) {
        *self == *other
    }
}

impl KeyEq for u128 {
    fn key_eq(&self, other: &Self) -> (r: bool) {
        *self == *other
    }
}

impl KeyEq for bool {
    fn key_eq(&self, other: &Self) -> (r: bool) {
        *self == *other
    }
}

impl KeyEq for HashOutput {
    fn key_eq(&self, other: &Self) -> (r: bool) {
        bytes32_eq(&self.0, &other.0)
    }
}

/// The address of a user: the hash of a verifying key.
#[derive(Debug, Clone, Copy)]
pub struct UserAddress(pub HashOutput);

impl KeyEq for UserAddress {
    fn key_eq(&self, other: &Self) -> (r: bool) {
        self.0.key_eq(&other.0)
    }
}

/// The address of a contract.
#[derive(Debug, Clone, Copy)]
pub struct ContractAddress(pub HashOutput);

impl KeyEq for ContractAddress {
    fn key_eq(&self, other: &Self) -> (r: bool) {
        self.0.key_eq(&other.0)
    }
}

/// The hash that identifies an intent (or an output instruction) for replay
/// protection.
#[derive(Debug, Clone, Copy)]
pub struct IntentHash(pub HashOutput);

impl KeyEq for IntentHash {
    fn key_eq(&self, other: &Self) -> (r: bool) {
        self.0.key_eq(&other.0)
    }
}

/// The type of an unshielded token.
#[derive(Debug, Clone, Copy)]
pub struct UnshieldedTokenType(pub HashOutput);

impl KeyEq for UnshieldedTokenType {
    fn key_eq(&self, other: &Self) -> (r: bool) {
        self.0.key_eq(&other.0)
    }
}

/// The type of a shielded token.
#[derive(Debug, Clone, Copy)]
pub struct ShieldedTokenType(pub HashOutput);

impl KeyEq for ShieldedTokenType {
    fn key_eq(&self, other: &Self) -> (r: bool) {
        self.0.key_eq(&other.0)
    }
}

/// A token type: shielded, unshielded, or the fee token DUST.
#[derive(Debug, Clone, Copy)]
pub enum TokenType {
    Shielded(ShieldedTokenType),
    Unshielded(UnshieldedTokenType),
    Dust,
}

impl KeyEq for TokenType {
    fn key_eq(&self, other: &Self) -> (r: bool) {
        match (self, other) {
            (TokenType::Shielded(a), TokenType::Shielded(b)) => a.0.key_eq(&b.0),
            (TokenType::Unshielded(a), TokenType::Unshielded(b)) => a.0.key_eq(&b.0),
            (TokenType::Dust, TokenType::Dust) => true,
            _ => false,
        }
    }
}

/// The unshielded NIGHT token: the all-zero token type.
pub open spec fn spec_night() -> UnshieldedTokenType {
    UnshieldedTokenType(HashOutput(vstd::array::spec_array_fill_for_copy_type::<u8, 32>(0u8)))
}

/// Returns the unshielded NIGHT token type.
pub fn night() -> (r: UnshieldedTokenType)
    ensures
        r == spec_night(),
{
    let zero: [u8; 32] = [0u8; 32];
    UnshieldedTokenType(HashOutput(zero))
}

} // verus!
