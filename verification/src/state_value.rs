//! The shape of an on-chain state value, and its logarithmic size: the
//! exponent of the least power of two that holds its size.
use vstd::prelude::*;
use vstd::arithmetic::power2::{pow2, lemma_pow2_unfold};

verus! {

/// A state value: a cell by the serialized size of the value it holds, a
/// map by its number of entries, an array by its elements, and a bounded
/// Merkle tree by its height.
#[derive(Debug, PartialEq, Eq)]
pub enum StateValue {
    Null,
    Cell { serialized_size: usize },
    MapValue { size: u64 },
    Array(Vec<StateValue>),
    BoundedMerkleTree { height: u8 },
}

/// The least `k` with `n <= 2^k`.
pub open spec fn ceil_log2(n: nat) -> nat
    decreases n,
{
    if n <= 1 {
        0
    } else {
        1 + ceil_log2(((n + 1) / 2) as nat)
    }
}

/// `ceil_log2(n)` is the exponent of the least power of two that is at
/// least `n`.
pub proof fn lemma_ceil_log2_next_power(n: nat)
    ensures
        pow2(ceil_log2(n)) >= n,
        n >= 2 ==> pow2((ceil_log2(n) - 1) as nat) < n,
    decreases n,
{
    vstd::arithmetic::power2::lemma2_to64();
    if n >= 2 {
        let m = ((n + 1) / 2) as nat;
        lemma_ceil_log2_next_power(m);
        let k = ceil_log2(m);
        lemma_pow2_unfold(k + 1);
        assert(pow2(k + 1) == 2 * pow2(k));
        if m >= 2 {
            lemma_pow2_unfold(k);
        }
    }
}

/// Below a power of two, the exponent bounds `ceil_log2`.
pub proof fn lemma_ceil_log2_bound(n: nat, b: nat)
    requires
        n <= pow2(b),
    ensures
        ceil_log2(n) <= b,
    decreases n,
{
    vstd::arithmetic::power2::lemma2_to64();
    if n >= 2 {
        if b == 0 {
            assert(false);
        }
        lemma_pow2_unfold(b);
        lemma_ceil_log2_bound(((n + 1) / 2) as nat, (b - 1) as nat);
    }
}

/// Computes `ceil_log2(n)`.
fn ceil_log2_u64(n: u64) -> (r: usize)
    ensures
        r == ceil_log2(n as nat),
{
    proof {
        vstd::arithmetic::power2::lemma2_to64();
        lemma_ceil_log2_bound(n as nat, 64);
    }
    let mut m: u64 = n;
    let mut k: usize = 0;
    while m > 1
        invariant
            k + ceil_log2(m as nat) == ceil_log2(n as nat),
            ceil_log2(n as nat) <= 64,
        decreases m,
    {
        m = m / 2 + m % 2;
        k = k + 1;
    }
    k
}

impl StateValue {
    /// The logarithmic size of the value.
    pub open spec fn spec_log_size(&self) -> nat {
        match *self {
            StateValue::Null => 0,
            StateValue::Cell { serialized_size } => ceil_log2(serialized_size as nat),
            StateValue::MapValue { size } => ceil_log2(size as nat),
            StateValue::Array(v) => ceil_log2(v@.len()),
            StateValue::BoundedMerkleTree { height } => height as nat,
        }
    }

    /// The logarithmic size of the value: nothing for null, the height of a
    /// Merkle tree, else the exponent of the least power of two that holds
    /// the serialized size, the number of entries or the length.
    pub fn log_size(&self) -> (r: usize)
        requires
            self matches StateValue::Cell { serialized_size } ==> serialized_size <= usize::MAX / 2 + 1,
        ensures
            r == self.spec_log_size(),
    {
        match self {
            StateValue::Null => 0,
            StateValue::Cell { serialized_size } => ceil_log2_u64(*serialized_size as u64),
            StateValue::MapValue { size } => ceil_log2_u64(*size),
            StateValue::Array(v) => ceil_log2_u64(v.len() as u64),
            StateValue::BoundedMerkleTree { height } => *height as usize,
        }
    }
}

/// Why pushing onto a state value failed.
#[derive(Debug, Clone, Copy, PartialEq, Eq, Structural)]
pub enum ArrayPushError {
    /// The array already holds fifteen elements.
    TooLong,
    /// The target is not an array.
    NotAnArray,
}

impl StateValue {
    /// The name of the value's kind.
    pub fn type_(&self) -> (r: &'static str)
        ensures
            *self is Null ==> r@ == "null"@,
            *self is Cell ==> r@ == "cell"@,
            *self is MapValue ==> r@ == "map"@,
            *self is Array ==> r@ == "array"@,
            *self is BoundedMerkleTree ==> r@ == "boundedMerkleTree"@,
    {
        match self {
            StateValue::Null => "null",
            StateValue::Cell { .. } => "cell",
            StateValue::MapValue { .. } => "map",
            StateValue::Array(_) => "array",
            StateValue::BoundedMerkleTree { .. } => "boundedMerkleTree",
        }
    }

    /// Pushes `value` onto an array of fewer than fifteen elements: the
    /// result holds the array's elements followed by `value`. A full array,
    /// or a target that is not an array, is refused.
    pub fn array_push(self, value: StateValue) -> (res: Result<StateValue, ArrayPushError>)
        ensures
            match self {
                StateValue::Array(v) => if v@.len() < 15 {
                    res matches Ok(StateValue::Array(w)) && w@ == v@.push(value)
                } else {
                    res == Err::<StateValue, ArrayPushError>(ArrayPushError::TooLong)
                },
                _ => res == Err::<StateValue, ArrayPushError>(ArrayPushError::NotAnArray),
            },
    {
        match self {
            StateValue::Array(mut v) => if v.len() < 15 {
                v.push(value);
                Ok(StateValue::Array(v))
            } else {
                Err(ArrayPushError::TooLong)
            },
            _ => Err(ArrayPushError::NotAnArray),
        }
    }
}

} // verus!
