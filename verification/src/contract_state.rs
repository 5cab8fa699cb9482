//! Pieces of on-chain contract state: entry point names and how they are
//! shown, contract operations with their versioned verifier keys, and the
//! maintenance authority of a contract.
use vstd::prelude::*;
use hex::ToHex;
use crate::hash::{HashOutput, ContractAddress, TokenType};
use crate::balance::{MalformedTransaction, BalanceOperation};
use crate::ledger::TransactionInvalid;
use crate::intent::Effects;
use crate::keyed::{copy_vec, KeyMap};

verus! {

/// The lowercase hexadecimal digit for `d`, for `d < 16`.
pub open spec fn hex_digit(d: u8) -> char {
    if d < 10 {
        (('0' as u8) + d) as char
    } else {
        (('a' as u8) + d - 10) as char
    }
}

/// The lowercase hexadecimal encoding of `bytes`: two digits per byte, high
/// nibble first.
pub open spec fn spec_hex(bytes: Seq<u8>) -> Seq<char>
    decreases bytes.len(),
{
    if bytes.len() == 0 {
        Seq::empty()
    } else {
        spec_hex(bytes.drop_last()) + seq![hex_digit(bytes.last() / 16), hex_digit(bytes.last() % 16)]
    }
}

/// Encodes `bytes` as lowercase hexadecimal with `hex`'s `ToHex::encode_hex`,
/// which writes, for each byte in order, the digit of its high nibble then
/// that of its low nibble, from the table `0123456789abcdef`.
#[verifier::external_body]
fn encode_hex_lower(bytes: &[u8]) -> (r: String)
    ensures
        r@ == spec_hex(bytes@),
{
    bytes.encode_hex::<String>()
}

/// Turns bytes into a string slice with `std::str::from_utf8`. ASCII bytes
/// are valid UTF-8, each byte standing for the character of the same code,
/// so where every byte is below `0x80` the result is `Ok`, with those
/// characters; of other inputs nothing is stated.
#[verifier::external_body]
fn str_from_utf8(bytes: &[u8]) -> (r: Result<&str, std::str::Utf8Error>)
    ensures
        (forall|i: int| 0 <= i < bytes@.len() ==> bytes@[i] < 0x80) ==> (r matches Ok(s) && s@.len() == bytes@.len()
            && forall|i: int| 0 <= i < bytes@.len() ==> #[trigger] s@[i] == bytes@[i] as char),
{
    std::str::from_utf8(bytes)
}

#[verifier::external_type_specification]
#[verifier::external_body]
pub struct ExUtf8Error(std::str::Utf8Error);

/// Whether `c` may appear in an entry point shown as a string: ASCII letters
/// and digits, and `'+-_":/\?#$%^*&.`.
pub open spec fn spec_permitted(c: u8) -> bool {
    ||| (0x30 <= c <= 0x39)
    ||| (0x41 <= c <= 0x5A)
    ||| (0x61 <= c <= 0x7A)
    ||| c == 0x27 || c == 0x2B || c == 0x2D || c == 0x5F || c == 0x22 || c == 0x3A || c == 0x2F
    ||| c == 0x5C || c == 0x3F || c == 0x23 || c == 0x24 || c == 0x25 || c == 0x5E || c == 0x2A || c == 0x26 || c == 0x2E
}

/// Whether `c` may appear in an entry point shown as a string.
pub fn permitted(c: u8) -> (r: bool)
    ensures
        r == spec_permitted(c),
{
    (0x30 <= c && c <= 0x39) || (0x41 <= c && c <= 0x5A) || (0x61 <= c && c <= 0x7A) || c == 0x27 || c == 0x2B
        || c == 0x2D || c == 0x5F || c == 0x22 || c == 0x3A || c == 0x2F || c == 0x5C || c == 0x3F || c == 0x23
        || c == 0x24 || c == 0x25 || c == 0x5E || c == 0x2A || c == 0x26 || c == 0x2E
}

/// Bytes shown as a string where that reads well, as bytes otherwise.
#[derive(Debug)]
pub enum MaybeStr<'a> {
    Str(&'a str),
    Bytes(&'a [u8]),
}

/// Shows `buf` as a string when every byte is permitted (then it is ASCII,
/// hence valid UTF-8), and as bytes otherwise.
pub fn maybe_str<'a>(buf: &'a [u8]) -> (r: MaybeStr<'a>)
    ensures
        (forall|i: int| 0 <= i < buf@.len() ==> spec_permitted(#[trigger] buf@[i])) ==> (r matches MaybeStr::Str(s) && s@.len()
            == buf@.len() && forall|i: int| 0 <= i < buf@.len() ==> #[trigger] s@[i] == buf@[i] as char),
        !(forall|i: int| 0 <= i < buf@.len() ==> spec_permitted(#[trigger] buf@[i])) ==> (r matches MaybeStr::Bytes(b) && b@
            == buf@),
{
    let mut i: usize = 0;
    while i < buf.len()
        invariant
            0 <= i <= buf@.len(),
            forall|j: int| 0 <= j < i ==> spec_permitted(#[trigger] buf@[j]),
        decreases buf@.len() - i,
    {
        if !permitted(buf[i]) {
            return MaybeStr::Bytes(buf);
        }
        i = i + 1;
    }
    match str_from_utf8(buf) {
        Ok(s) => MaybeStr::Str(s),
        Err(_) => MaybeStr::Bytes(buf),
    }
}

/// The name of a contract entry point.
#[derive(Debug, Clone)]
pub struct EntryPointBuf(pub Vec<u8>);

impl EntryPointBuf {
    /// How the entry point is shown: as the string it spells where that
    /// reads well, as lowercase hexadecimal otherwise.
    pub fn debug_string(&self) -> (r: String)
        ensures
            (forall|i: int| 0 <= i < self.0@.len() ==> spec_permitted(#[trigger] self.0@[i])) ==> (r@.len() == self.0@.len()
                && forall|i: int| 0 <= i < self.0@.len() ==> #[trigger] r@[i] == self.0@[i] as char),
            !(forall|i: int| 0 <= i < self.0@.len() ==> spec_permitted(#[trigger] self.0@[i])) ==> r@ == spec_hex(self.0@),
    {
        match maybe_str(self.0.as_slice()) {
            MaybeStr::Str(s) => s.to_owned(),
            MaybeStr::Bytes(b) => encode_hex_lower(b),
        }
    }
}

/// A verifier key, by its serialized bytes.
#[derive(Debug, Clone)]
pub struct VerifierKey(pub Vec<u8>);

/// A contract operation: the verifier key of its latest version, if any.
#[derive(Debug)]
pub struct ContractOperation {
    pub v2: Option<VerifierKey>,
}

impl ContractOperation {
    /// An operation with the given key.
    pub fn new(vk: Option<VerifierKey>) -> (r: Self)
        ensures
            r.v2 == vk,
    {
        ContractOperation { v2: vk }
    }

    /// The key of the latest version.
    pub fn latest(&self) -> (r: Option<&VerifierKey>)
        ensures
            match (r, self.v2) {
                (Some(a), Some(b)) => *a == b,
                (None, None) => true,
                _ => false,
            },
    {
        match &self.v2 {
            Some(vk) => Some(vk),
            None => None,
        }
    }
}

/// The versions of contract operations.
#[derive(Debug, Clone, Copy, PartialEq, Eq, Structural)]
pub enum ContractOperationVersion {
    V3,
}

/// Why a contract operation version could not be read.
#[derive(Debug, Clone, Copy, PartialEq, Eq, Structural)]
pub enum VersionDecodeError {
    /// A discriminant of a retired version.
    InvalidOldDiscriminant(u8),
    /// A discriminant of no known version.
    UnknownDiscriminant(u8),
    /// No byte to read.
    UnexpectedEof,
}

impl ContractOperationVersion {
    /// The discriminant byte of the version.
    pub open spec fn spec_discriminant(&self) -> u8 {
        match self {
            ContractOperationVersion::V3 => 2,
        }
    }

    /// Appends the version's discriminant byte.
    pub fn serialize(&self, writer: &mut Vec<u8>)
        ensures
            final(writer)@ == old(writer)@.push(self.spec_discriminant()),
    {
        match self {
            ContractOperationVersion::V3 => writer.push(2u8),
        }
    }

    /// The size of the serialization: one byte.
    pub fn serialized_size(&self) -> (r: usize)
        ensures
            r == 1,
    {
        1
    }

    /// Reads a version from the front of `bytes`: discriminants 0 and 1 are
    /// retired, 2 is the current version, anything else is unknown.
    pub fn deserialize(bytes: &[u8]) -> (r: Result<ContractOperationVersion, VersionDecodeError>)
        ensures
            r == spec_deserialize_version(bytes@),
    {
        if bytes.len() == 0 {
            return Err(VersionDecodeError::UnexpectedEof);
        }
        let d = bytes[0];
        if d <= 1 {
            Err(VersionDecodeError::InvalidOldDiscriminant(d))
        } else if d == 2 {
            Ok(ContractOperationVersion::V3)
        } else {
            Err(VersionDecodeError::UnknownDiscriminant(d))
        }
    }

    /// Whether `co` has a key of this version.
    pub fn has(&self, co: &ContractOperation) -> (r: bool)
        ensures
            r == co.v2 is Some,
    {
        match self {
            ContractOperationVersion::V3 => co.v2.is_some(),
        }
    }

    /// Removes the key of this version from `co`.
    pub fn rm_from(&self, co: &mut ContractOperation)
        ensures
            final(co).v2 is None,
    {
        match self {
            ContractOperationVersion::V3 => co.v2 = None,
        }
    }
}

/// What reading a version from the front of `bytes` gives.
pub open spec fn spec_deserialize_version(bytes: Seq<u8>) -> Result<ContractOperationVersion, VersionDecodeError> {
    if bytes.len() == 0 {
        Err(VersionDecodeError::UnexpectedEof)
    } else if bytes[0] <= 1 {
        Err(VersionDecodeError::InvalidOldDiscriminant(bytes[0]))
    } else if bytes[0] == 2 {
        Ok(ContractOperationVersion::V3)
    } else {
        Err(VersionDecodeError::UnknownDiscriminant(bytes[0]))
    }
}

/// Reading back a serialized version gives the version, whatever follows.
pub proof fn lemma_version_roundtrip(v: ContractOperationVersion, rest: Seq<u8>)
    ensures
        spec_deserialize_version(seq![v.spec_discriminant()] + rest) == Ok::<ContractOperationVersion, VersionDecodeError>(v),
{
    match v {
        ContractOperationVersion::V3 => {
            assert((seq![v.spec_discriminant()] + rest)[0] == 2);
        },
    }
}

/// A verifier key tagged with its version.
#[derive(Debug, Clone)]
pub enum ContractOperationVersionedVerifierKey {
    V3(VerifierKey),
}

impl ContractOperationVersionedVerifierKey {
    /// The version of the key.
    pub fn as_version(&self) -> (r: ContractOperationVersion)
        ensures
            r == ContractOperationVersion::V3,
    {
        match self {
            ContractOperationVersionedVerifierKey::V3(_) => ContractOperationVersion::V3,
        }
    }

    /// Puts the key into `co` as the key of its version.
    pub fn insert_into(&self, co: &mut ContractOperation)
        ensures
            match self {
                ContractOperationVersionedVerifierKey::V3(vk) => final(co).v2 matches Some(k) && k.0@ == vk.0@,
            },
    {
        match self {
            ContractOperationVersionedVerifierKey::V3(vk) => co.v2 = Some(VerifierKey(copy_vec(&vk.0))),
        }
    }
}

/// Who may maintain a contract: a committee of verifying keys, the number
/// of signatures needed, and a counter of updates.
#[derive(Debug, Clone)]
pub struct ContractMaintenanceAuthority {
    pub committee: Vec<HashOutput>,
    pub threshold: u32,
    pub counter: u32,
}

impl ContractMaintenanceAuthority {
    /// No committee, threshold one, counter zero.
    pub fn new() -> (r: Self)
        ensures
            r.committee@.len() == 0,
            r.threshold == 1,
            r.counter == 0,
    {
        ContractMaintenanceAuthority { committee: Vec::new(), threshold: 1, counter: 0 }
    }
}

/// Whether two byte strings are equal.
pub fn bytes_equal(a: &Vec<u8>, b: &Vec<u8>) -> (r: bool)
    ensures
        r == (a@ == b@),
{
    if a.len() != b.len() {
        return false;
    }
    let mut i: usize = 0;
    while i < a.len()
        invariant
            0 <= i <= a@.len(),
            a@.len() == b@.len(),
            forall|j: int| 0 <= j < i ==> a@[j] == b@[j],
        decreases a@.len() - i,
    {
        if a[i] != b[i] {
            return false;
        }
        i = i + 1;
    }
    proof {
        assert(a@ =~= b@);
    }
    true
}

impl EntryPointBuf {
    /// A copy of the entry point.
    pub fn duplicate(&self) -> (r: EntryPointBuf)
        ensures
            r.0@ == self.0@,
    {
        EntryPointBuf(copy_vec(&self.0))
    }
}

/// The key bytes an operation holds, if any.
pub open spec fn op_key(op: ContractOperation) -> Option<Seq<u8>> {
    match op.v2 {
        Some(k) => Some(k.0@),
        None => None,
    }
}

impl ContractOperation {
    /// A copy of the operation.
    pub fn duplicate(&self) -> (r: ContractOperation)
        ensures
            op_key(r) == op_key(*self),
    {
        match &self.v2 {
            Some(k) => ContractOperation { v2: Some(VerifierKey(copy_vec(&k.0))) },
            None => ContractOperation { v2: None },
        }
    }
}

impl ContractMaintenanceAuthority {
    /// The authority as plain values: committee, threshold, counter.
    pub open spec fn aview(&self) -> (Seq<HashOutput>, u32, u32) {
        (self.committee@, self.threshold, self.counter)
    }

    /// A copy of the authority.
    pub fn duplicate(&self) -> (r: Self)
        ensures
            r.aview() == self.aview(),
    {
        ContractMaintenanceAuthority { committee: copy_vec(&self.committee), threshold: self.threshold, counter: self.counter }
    }
}

/// An operation entry as plain values: the entry point's bytes and the key
/// bytes, if any.
pub open spec fn op_entry(e: (EntryPointBuf, ContractOperation)) -> (Seq<u8>, Option<Seq<u8>>) {
    (e.0.0@, op_key(e.1))
}

/// The map from entry point to key that a list of entries gives.
pub open spec fn entries_map(es: Seq<(Seq<u8>, Option<Seq<u8>>)>) -> Map<Seq<u8>, Option<Seq<u8>>>
    decreases es.len(),
{
    if es.len() == 0 {
        Map::empty()
    } else {
        entries_map(es.drop_last()).insert(es.last().0, es.last().1)
    }
}

/// No entry point occurs twice.
pub open spec fn entries_distinct(es: Seq<(Seq<u8>, Option<Seq<u8>>)>) -> bool {
    forall|i: int, j: int| 0 <= i < j < es.len() ==> es[i].0 != es[j].0
}

/// An entry point is in the map exactly where some entry has it.
pub proof fn lemma_entries_dom(es: Seq<(Seq<u8>, Option<Seq<u8>>)>, k: Seq<u8>)
    ensures
        entries_map(es).contains_key(k) <==> exists|i: int| 0 <= i < es.len() && #[trigger] es[i].0 == k,
    decreases es.len(),
{
    if es.len() > 0 {
        lemma_entries_dom(es.drop_last(), k);
        if entries_map(es.drop_last()).contains_key(k) {
            let i = choose|i: int| 0 <= i < es.drop_last().len() && #[trigger] es.drop_last()[i].0 == k;
            assert(es[i].0 == k);
        }
        if exists|i: int| 0 <= i < es.len() && #[trigger] es[i].0 == k {
            let i = choose|i: int| 0 <= i < es.len() && #[trigger] es[i].0 == k;
            if i < es.len() - 1 {
                assert(es.drop_last()[i].0 == k);
            }
        }
    }
}

/// With distinct entry points, each entry's key is what the map holds.
pub proof fn lemma_entries_value(es: Seq<(Seq<u8>, Option<Seq<u8>>)>, i: int)
    requires
        entries_distinct(es),
        0 <= i < es.len(),
    ensures
        entries_map(es).contains_key(es[i].0),
        entries_map(es)[es[i].0] == es[i].1,
    decreases es.len(),
{
    if i < es.len() - 1 {
        lemma_entries_value(es.drop_last(), i);
    }
}

/// Replacing the key of an entry replaces it in the map.
pub proof fn lemma_entries_update(es: Seq<(Seq<u8>, Option<Seq<u8>>)>, i: int, key: Option<Seq<u8>>)
    requires
        entries_distinct(es),
        0 <= i < es.len(),
    ensures
        entries_map(es.update(i, (es[i].0, key))) == entries_map(es).insert(es[i].0, key),
    decreases es.len(),
{
    let u = es.update(i, (es[i].0, key));
    if i == es.len() - 1 {
        assert(u.drop_last() =~= es.drop_last());
        assert(entries_map(u) =~= entries_map(es).insert(es[i].0, key));
    } else {
        assert(u.drop_last() =~= es.drop_last().update(i, (es[i].0, key)));
        lemma_entries_update(es.drop_last(), i, key);
        assert(es.last().0 != es[i].0);
        assert(entries_map(u) =~= entries_map(es).insert(es[i].0, key));
    }
}

/// Removing an entry removes its entry point from the map.
pub proof fn lemma_entries_remove(es: Seq<(Seq<u8>, Option<Seq<u8>>)>, i: int)
    requires
        entries_distinct(es),
        0 <= i < es.len(),
    ensures
        entries_map(es.remove(i)) == entries_map(es).remove(es[i].0),
        entries_distinct(es.remove(i)),
    decreases es.len(),
{
    let r = es.remove(i);
    assert forall|a: int, b: int| 0 <= a < b < r.len() implies r[a].0 != r[b].0 by {
        let a0 = if a < i { a } else { a + 1 };
        let b0 = if b < i { b } else { b + 1 };
        assert(r[a] == es[a0] && r[b] == es[b0]);
    }
    if i == es.len() - 1 {
        assert(r =~= es.drop_last());
        lemma_entries_dom(es.drop_last(), es[i].0);
        if entries_map(es.drop_last()).contains_key(es[i].0) {
            let j = choose|j: int| 0 <= j < es.drop_last().len() && #[trigger] es.drop_last()[j].0 == es[i].0;
            assert(es[j].0 == es[i].0);
        }
        assert(entries_map(r) =~= entries_map(es).remove(es[i].0));
    } else {
        assert(r.drop_last() =~= es.drop_last().remove(i));
        assert(r.last() == es.last());
        lemma_entries_remove(es.drop_last(), i);
        assert(es.last().0 != es[i].0);
        assert(entries_map(r) =~= entries_map(es).remove(es[i].0));
    }
}

/// The parts of a contract's state that the ledger reads and changes
/// outside the contract's own programs: its operations by entry point (no
/// entry point twice), its maintenance authority, and its balance by token
/// type.
#[derive(Debug)]
pub struct ContractState {
    pub operations: Vec<(EntryPointBuf, ContractOperation)>,
    pub maintenance_authority: ContractMaintenanceAuthority,
    pub balance: KeyMap<TokenType, u128>,
}

impl ContractState {
    /// The operations as plain entries.
    pub open spec fn entries(&self) -> Seq<(Seq<u8>, Option<Seq<u8>>)> {
        self.operations@.map_values(|e: (EntryPointBuf, ContractOperation)| op_entry(e))
    }

    /// No entry point occurs twice, and the balance is a well-formed map.
    pub open spec fn wf(&self) -> bool {
        entries_distinct(self.entries()) && self.balance.wf()
    }

    /// The verifier key of each entry point.
    pub open spec fn ops(&self) -> Map<Seq<u8>, Option<Seq<u8>>> {
        entries_map(self.entries())
    }

    /// A state with no operations, no balance and the given authority.
    pub fn new(maintenance_authority: ContractMaintenanceAuthority) -> (r: Self)
        ensures
            r.wf(),
            r.ops() == Map::<Seq<u8>, Option<Seq<u8>>>::empty(),
            r.maintenance_authority == maintenance_authority,
            r.balance@ == Map::<TokenType, u128>::empty(),
    {
        let r = ContractState { operations: Vec::new(), maintenance_authority, balance: KeyMap::new() };
        proof {
            assert(r.entries() =~= Seq::<(Seq<u8>, Option<Seq<u8>>)>::empty());
        }
        r
    }

    /// Where the entry point `ep` stands among the operations, if anywhere.
    pub fn find(&self, ep: &EntryPointBuf) -> (r: Option<usize>)
        requires
            self.wf(),
        ensures
            r is None <==> !self.ops().contains_key(ep.0@),
            r matches Some(i) ==> i < self.operations@.len() && self.operations@[i as int].0.0@ == ep.0@
                && self.ops()[ep.0@] == op_key(self.operations@[i as int].1),
    {
        let mut i: usize = 0;
        while i < self.operations.len()
            invariant
                0 <= i <= self.operations@.len(),
                self.wf(),
                forall|j: int| 0 <= j < i ==> self.operations@[j].0.0@ != ep.0@,
            decreases self.operations@.len() - i,
        {
            if bytes_equal(&self.operations[i].0.0, &ep.0) {
                proof {
                    assert(self.entries()[i as int] == op_entry(self.operations@[i as int]));
                    lemma_entries_value(self.entries(), i as int);
                }
                return Some(i);
            }
            i = i + 1;
        }
        proof {
            lemma_entries_dom(self.entries(), ep.0@);
            if self.ops().contains_key(ep.0@) {
                let j = choose|j: int| 0 <= j < self.entries().len() && #[trigger] self.entries()[j].0 == ep.0@;
                assert(self.entries()[j] == op_entry(self.operations@[j]));
            }
        }
        None
    }

    /// The operation of entry point `ep`, if it has one.
    pub fn operation(&self, ep: &EntryPointBuf) -> (r: Option<&ContractOperation>)
        requires
            self.wf(),
        ensures
            r is None <==> !self.ops().contains_key(ep.0@),
            r matches Some(op) ==> op_key(*op) == self.ops()[ep.0@],
    {
        match self.find(ep) {
            Some(i) => Some(&self.operations[i].1),
            None => None,
        }
    }

    /// A copy of the state.
    pub fn duplicate(&self) -> (r: Self)
        requires
            self.wf(),
        ensures
            r.wf(),
            r.entries() == self.entries(),
            r.maintenance_authority.aview() == self.maintenance_authority.aview(),
            r.balance@ == self.balance@,
    {
        let mut ops: Vec<(EntryPointBuf, ContractOperation)> = Vec::new();
        let mut i: usize = 0;
        while i < self.operations.len()
            invariant
                0 <= i <= self.operations@.len(),
                ops@.len() == i,
                forall|j: int| 0 <= j < i ==> op_entry(#[trigger] ops@[j]) == op_entry(self.operations@[j]),
            decreases self.operations@.len() - i,
        {
            ops.push((self.operations[i].0.duplicate(), self.operations[i].1.duplicate()));
            i = i + 1;
        }
        let r = ContractState {
            operations: ops,
            maintenance_authority: self.maintenance_authority.duplicate(),
            balance: self.balance.duplicate(),
        };
        proof {
            assert(r.entries() =~= self.entries());
        }
        r
    }
}

impl ContractOperation {
    /// An operation is well-formed where it has a verifier key; else the
    /// error names the contract and the entry point.
    pub fn well_formed(&self, address: ContractAddress, operation: &EntryPointBuf) -> (res: Result<(), MalformedTransaction>)
        ensures
            res is Ok <==> self.v2 is Some,
            res matches Err(e) ==> (e matches MalformedTransaction::VerifierKeyNotSet { address: a, operation: ep }
                && a == address && ep.0@ == operation.0@),
    {
        match &self.v2 {
            Some(_) => Ok(()),
            None => Err(MalformedTransaction::VerifierKeyNotSet { address, operation: operation.duplicate() }),
        }
    }
}

impl ContractState {
    /// A contract state is well-formed where every operation has a verifier
    /// key (else the error names one that has none) and the maintenance
    /// counter is zero (else it is not normalized).
    pub fn well_formed(&self, address: ContractAddress) -> (res: Result<(), MalformedTransaction>)
        ensures
            res is Ok <==> (forall|i: int| 0 <= i < self.entries().len() ==> (#[trigger] self.entries()[i]).1 is Some)
                && self.maintenance_authority.counter == 0,
            res matches Err(MalformedTransaction::VerifierKeyNotSet { address: a, operation: ep }) ==> a == address
                && exists|i: int| 0 <= i < self.entries().len() && #[trigger] self.entries()[i] == (ep.0@, None::<Seq<u8>>),
            res matches Err(MalformedTransaction::NotNormalized) ==> self.maintenance_authority.counter != 0
                && forall|i: int| 0 <= i < self.entries().len() ==> (#[trigger] self.entries()[i]).1 is Some,
            res is Err ==> res matches Err(MalformedTransaction::VerifierKeyNotSet { .. }) || res matches Err(
                MalformedTransaction::NotNormalized,
            ),
    {
        let mut i: usize = 0;
        while i < self.operations.len()
            invariant
                0 <= i <= self.operations@.len(),
                forall|j: int| 0 <= j < i ==> (#[trigger] self.entries()[j]).1 is Some,
            decreases self.operations@.len() - i,
        {
            let r = self.operations[i].1.well_formed(address, &self.operations[i].0);
            proof {
                assert(self.entries()[i as int] == op_entry(self.operations@[i as int]));
            }
            match r {
                Ok(()) => {},
                Err(e) => return Err(e),
            }
            i = i + 1;
        }
        if self.maintenance_authority.counter != 0 {
            return Err(MalformedTransaction::NotNormalized);
        }
        Ok(())
    }
}

/// The balance of `t` in `m`: zero where it has none.
pub open spec fn balance_of(m: Map<TokenType, u128>, t: TokenType) -> u128 {
    if m.contains_key(t) { m[t] } else { 0 }
}

/// The first `n` amounts that a call's transcript brings in, each added to
/// the balance of its token type; an addition past `u128::MAX` fails.
pub open spec fn inputs_fold(m: Map<TokenType, u128>, ins: Seq<(TokenType, u128)>, n: int) -> Result<Map<TokenType, u128>, TransactionInvalid>
    decreases n,
{
    if n <= 0 {
        Ok(m)
    } else {
        match inputs_fold(m, ins, n - 1) {
            Err(e) => Err(e),
            Ok(m1) => {
                let (t, v) = ins[n - 1];
                let bal = balance_of(m1, t);
                if bal + v > u128::MAX {
                    Err(TransactionInvalid::BalanceCheckOutOfBounds {
                        token_type: t,
                        current_balance: bal,
                        operation_value: v,
                        operation: BalanceOperation::Addition,
                    })
                } else {
                    Ok(m1.insert(t, (bal + v) as u128))
                }
            },
        }
    }
}

/// The first `n` amounts that a call's transcript takes out, each
/// subtracted from the balance of its token type; going below zero fails.
pub open spec fn outputs_fold(m: Map<TokenType, u128>, outs: Seq<(TokenType, u128)>, n: int) -> Result<Map<TokenType, u128>, TransactionInvalid>
    decreases n,
{
    if n <= 0 {
        Ok(m)
    } else {
        match outputs_fold(m, outs, n - 1) {
            Err(e) => Err(e),
            Ok(m1) => {
                let (t, v) = outs[n - 1];
                let bal = balance_of(m1, t);
                if bal < v {
                    Err(TransactionInvalid::BalanceCheckOutOfBounds {
                        token_type: t,
                        current_balance: bal,
                        operation_value: v,
                        operation: BalanceOperation::Subtraction,
                    })
                } else {
                    Ok(m1.insert(t, (bal - v) as u128))
                }
            },
        }
    }
}

/// A contract's balance after a call: the transcript's unshielded inputs
/// added, in order, then its unshielded outputs subtracted, in order.
pub open spec fn spec_effects_balance(m: Map<TokenType, u128>, effects: Effects) -> Result<Map<TokenType, u128>, TransactionInvalid> {
    match inputs_fold(m, effects.unshielded_inputs@, effects.unshielded_inputs@.len() as int) {
        Err(e) => Err(e),
        Ok(m1) => outputs_fold(m1, effects.unshielded_outputs@, effects.unshielded_outputs@.len() as int),
    }
}

/// Once the inputs fail, they fail with the same error.
proof fn lemma_inputs_fold_err(m: Map<TokenType, u128>, ins: Seq<(TokenType, u128)>, n: int, k: int)
    requires
        n <= k,
        inputs_fold(m, ins, n) is Err,
    ensures
        inputs_fold(m, ins, k) == inputs_fold(m, ins, n),
    decreases k - n,
{
    if n < k {
        lemma_inputs_fold_err(m, ins, n, k - 1);
    }
}

/// Once the outputs fail, they fail with the same error.
proof fn lemma_outputs_fold_err(m: Map<TokenType, u128>, outs: Seq<(TokenType, u128)>, n: int, k: int)
    requires
        n <= k,
        outputs_fold(m, outs, n) is Err,
    ensures
        outputs_fold(m, outs, k) == outputs_fold(m, outs, n),
    decreases k - n,
{
    if n < k {
        lemma_outputs_fold_err(m, outs, n, k - 1);
    }
}

impl ContractState {
    /// The contract's balance after a call with `effects` (see
    /// `spec_effects_balance`).
    pub fn effects_balance(&self, effects: &Effects) -> (res: Result<KeyMap<TokenType, u128>, TransactionInvalid>)
        requires
            self.wf(),
        ensures
            match (res, spec_effects_balance(self.balance@, *effects)) {
                (Ok(b), Ok(m)) => b.wf() && b@ == m,
                (Err(e), Err(se)) => e == se,
                _ => false,
            },
    {
        let mut bal = self.balance.duplicate();
        let ins = &effects.unshielded_inputs;
        let mut i: usize = 0;
        while i < ins.len()
            invariant
                0 <= i <= ins@.len(),
                ins@ == effects.unshielded_inputs@,
                bal.wf(),
                inputs_fold(self.balance@, ins@, i as int) == Ok::<Map<TokenType, u128>, TransactionInvalid>(bal@),
            decreases ins@.len() - i,
        {
            let (t, v) = ins[i];
            let cur = match bal.get(&t) {
                Some(x) => x,
                None => 0,
            };
            match cur.checked_add(v) {
                Some(n) => {
                    bal.insert(t, n);
                },
                None => {
                    proof {
                        lemma_inputs_fold_err(self.balance@, ins@, i + 1, ins@.len() as int);
                    }
                    return Err(
                        TransactionInvalid::BalanceCheckOutOfBounds {
                            token_type: t,
                            current_balance: cur,
                            operation_value: v,
                            operation: BalanceOperation::Addition,
                        },
                    );
                },
            }
            i = i + 1;
        }
        let ghost mid = bal@;
        let outs = &effects.unshielded_outputs;
        let mut i: usize = 0;
        while i < outs.len()
            invariant
                0 <= i <= outs@.len(),
                outs@ == effects.unshielded_outputs@,
                bal.wf(),
                inputs_fold(self.balance@, effects.unshielded_inputs@, effects.unshielded_inputs@.len() as int) == Ok::<
                    Map<TokenType, u128>,
                    TransactionInvalid,
                >(mid),
                outputs_fold(mid, outs@, i as int) == Ok::<Map<TokenType, u128>, TransactionInvalid>(bal@),
            decreases outs@.len() - i,
        {
            let (t, v) = outs[i];
            let cur = match bal.get(&t) {
                Some(x) => x,
                None => 0,
            };
            match cur.checked_sub(v) {
                Some(n) => {
                    bal.insert(t, n);
                },
                None => {
                    proof {
                        lemma_outputs_fold_err(mid, outs@, i + 1, outs@.len() as int);
                    }
                    return Err(
                        TransactionInvalid::BalanceCheckOutOfBounds {
                            token_type: t,
                            current_balance: cur,
                            operation_value: v,
                            operation: BalanceOperation::Subtraction,
                        },
                    );
                },
            }
            i = i + 1;
        }
        Ok(bal)
    }
}

/// The total of the amounts of token type `t` among the first `n` pairs.
pub open spec fn amount_of(ps: Seq<(TokenType, u128)>, t: TokenType, n: int) -> int
    decreases n,
{
    if n <= 0 {
        0
    } else {
        amount_of(ps, t, n - 1) + if ps[n - 1].0 == t { ps[n - 1].1 as int } else { 0 }
    }
}

proof fn lemma_inputs_fold_adds(m: Map<TokenType, u128>, ins: Seq<(TokenType, u128)>, n: int, t: TokenType)
    requires
        0 <= n <= ins.len(),
        inputs_fold(m, ins, n) is Ok,
    ensures
        balance_of(inputs_fold(m, ins, n)->Ok_0, t) == balance_of(m, t) + amount_of(ins, t, n),
    decreases n,
{
    if n > 0 {
        lemma_inputs_fold_adds(m, ins, n - 1, t);
    }
}

proof fn lemma_outputs_fold_subtracts(m: Map<TokenType, u128>, outs: Seq<(TokenType, u128)>, n: int, t: TokenType)
    requires
        0 <= n <= outs.len(),
        outputs_fold(m, outs, n) is Ok,
    ensures
        balance_of(outputs_fold(m, outs, n)->Ok_0, t) == balance_of(m, t) - amount_of(outs, t, n),
    decreases n,
{
    if n > 0 {
        lemma_outputs_fold_subtracts(m, outs, n - 1, t);
    }
}

/// A call's effects move the contract's balance of each token type by what
/// its transcript brings in less what it pays out: on success, the balance
/// of `t` becomes the old balance plus the inputs of `t` less the outputs
/// of `t`.
pub proof fn lemma_effects_move_balance(m: Map<TokenType, u128>, effects: Effects, t: TokenType)
    requires
        spec_effects_balance(m, effects) is Ok,
    ensures
        balance_of(spec_effects_balance(m, effects)->Ok_0, t) == balance_of(m, t) + amount_of(
            effects.unshielded_inputs@,
            t,
            effects.unshielded_inputs@.len() as int,
        ) - amount_of(effects.unshielded_outputs@, t, effects.unshielded_outputs@.len() as int),
{
    let ins = effects.unshielded_inputs@;
    let outs = effects.unshielded_outputs@;
    lemma_inputs_fold_adds(m, ins, ins.len() as int, t);
    let m1 = inputs_fold(m, ins, ins.len() as int)->Ok_0;
    lemma_outputs_fold_subtracts(m1, outs, outs.len() as int, t);
}

} // verus!
