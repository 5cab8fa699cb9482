//! The on-chain virtual machine: a stack of state values that a program
//! transforms one instruction at a time.
//!
//! Each stack entry remembers where in the initial stack it was read from,
//! and the machine records which parts of the initial stack have been read:
//! a cached read or write must reach a part that was read before.
//!
//! A cell holds a value as a sequence of atoms, each a byte string. An
//! integer is one atom of at most eight little-endian bytes with no trailing
//! zero byte (so zero is the empty atom), and a boolean is the integer 0 or
//! 1. What only the serialization and Merkle tree libraries compute (the
//! serialized sizes of the topmost values and the root of a tree) is handed
//! to each step by the caller.
use vstd::prelude::*;

verus! {

/// The most entries the stack may hold after an instruction.
pub const MAX_STACK_HEIGHT: usize = 65536;

/// The largest bound that `concat` accepts.
pub const CELL_BOUND: u32 = 32768;

/// The largest serialized size of a logged value.
pub const MAX_LOG_SIZE: u64 = 524288;

/// Whether a stack entry may be written back to storage.
#[derive(Debug, Clone, Copy, PartialEq, Eq, Structural)]
pub enum ValueStrength {
    Weak,
    Strong,
}

/// The strength of a value built from two others: strong only when both are.
pub open spec fn strength_and(a: ValueStrength, b: ValueStrength) -> ValueStrength {
    if a == ValueStrength::Strong && b == ValueStrength::Strong {
        ValueStrength::Strong
    } else {
        ValueStrength::Weak
    }
}

/// A state value as mathematics sees it.
#[verifier::ext_equal]
pub enum Val {
    Null,
    Cell(Seq<Seq<u8>>),
    Mapping(Seq<(Seq<Seq<u8>>, Val)>),
    Array(Seq<Val>),
    Tree(u8, Seq<(u64, Seq<u8>)>),
}

/// A state value: nothing, a cell of atoms, a map from cell keys to values
/// (each key once), an array, or a bounded Merkle tree by its height and the
/// leaves that have been set.
#[derive(Debug, PartialEq, Eq)]
pub enum StackValue {
    Null,
    Cell(Vec<Vec<u8>>),
    Mapping(Vec<(Vec<Vec<u8>>, StackValue)>),
    Array(Vec<StackValue>),
    MerkleTree(u8, Vec<(u64, Vec<u8>)>),
}

pub open spec fn atoms_view(a: Vec<Vec<u8>>) -> Seq<Seq<u8>> {
    Seq::new(a@.len(), |i: int| a@[i]@)
}

pub open spec fn leaves_view(l: Vec<(u64, Vec<u8>)>) -> Seq<(u64, Seq<u8>)> {
    Seq::new(l@.len(), |i: int| (l@[i].0, l@[i].1@))
}

/// The mathematical value of a state value.
pub open spec fn val_of(v: StackValue) -> Val
    decreases v,
{
    match v {
        StackValue::Null => Val::Null,
        StackValue::Cell(a) => Val::Cell(atoms_view(a)),
        StackValue::Mapping(m) => Val::Mapping(
            Seq::new(
                m@.len(),
                |i: int|
                    if 0 <= i < m@.len() {
                        (atoms_view(m@[i].0), val_of(m@[i].1))
                    } else {
                        (Seq::empty(), Val::Null)
                    },
            ),
        ),
        StackValue::Array(a) => Val::Array(
            Seq::new(a@.len(), |i: int| if 0 <= i < a@.len() { val_of(a@[i]) } else { Val::Null }),
        ),
        StackValue::MerkleTree(h, l) => Val::Tree(h, leaves_view(l)),
    }
}

/// The little-endian value of a byte string.
pub open spec fn le_value(b: Seq<u8>) -> nat
    decreases b.len(),
{
    if b.len() == 0 {
        0
    } else {
        (b[0] + 256 * le_value(b.drop_first())) as nat
    }
}

/// The shortest little-endian bytes of `x`.
pub open spec fn le_bytes(x: nat) -> Seq<u8>
    decreases x,
{
    if x == 0 {
        Seq::empty()
    } else {
        seq![(x % 256) as u8] + le_bytes(x / 256)
    }
}

/// `256` to the power `k`.
pub open spec fn pow256(k: nat) -> nat
    decreases k,
{
    if k == 0 {
        1
    } else {
        256 * pow256((k - 1) as nat)
    }
}

/// The integer a cell holds, if it holds one: a single atom of at most
/// eight bytes whose last byte is not zero.
pub open spec fn decode_u64(a: Seq<Seq<u8>>) -> Option<u64> {
    if a.len() == 1 && a[0].len() <= 8 && (a[0].len() == 0 || a[0].last() != 0) {
        Some(le_value(a[0]) as u64)
    } else {
        None
    }
}

/// The byte a cell holds, if it holds an integer below 256.
pub open spec fn decode_u8(a: Seq<Seq<u8>>) -> Option<u8> {
    match decode_u64(a) {
        Some(x) => if x < 256 { Some(x as u8) } else { None },
        None => None,
    }
}

/// The boolean a cell holds, if it holds 0 or 1.
pub open spec fn decode_bool(a: Seq<Seq<u8>>) -> Option<bool> {
    match decode_u64(a) {
        Some(x) => if x == 0 { Some(false) } else if x == 1 { Some(true) } else { None },
        None => None,
    }
}

/// The cell of an integer.
pub open spec fn encode_u64(x: nat) -> Seq<Seq<u8>> {
    seq![le_bytes(x)]
}

/// The cell of a boolean.
pub open spec fn encode_bool(b: bool) -> Seq<Seq<u8>> {
    encode_u64(if b { 1 } else { 0 })
}

proof fn lemma_le_value_bound(b: Seq<u8>)
    ensures
        le_value(b) < pow256(b.len()),
    decreases b.len(),
{
    if b.len() > 0 {
        lemma_le_value_bound(b.drop_first());
    }
}

proof fn lemma_le_value_step(b: Seq<u8>, i: int)
    requires
        0 <= i < b.len(),
    ensures
        le_value(b.subrange(i, b.len() as int)) == b[i] + 256 * le_value(b.subrange(i + 1, b.len() as int)),
{
    assert(b.subrange(i, b.len() as int).drop_first() =~= b.subrange(i + 1, b.len() as int));
}

fn copy_bytes(b: &Vec<u8>) -> (r: Vec<u8>)
    ensures
        r@ == b@,
{
    let mut r: Vec<u8> = Vec::new();
    let mut i: usize = 0;
    while i < b.len()
        invariant
            i <= b.len(),
            r@ == b@.subrange(0, i as int),
        decreases b.len() - i,
    {
        r.push(b[i]);
        i = i + 1;
        assert(r@ =~= b@.subrange(0, i as int));
    }
    assert(r@ =~= b@);
    r
}

fn copy_atoms(a: &Vec<Vec<u8>>) -> (r: Vec<Vec<u8>>)
    ensures
        atoms_view(r) == atoms_view(*a),
{
    let mut r: Vec<Vec<u8>> = Vec::new();
    let mut i: usize = 0;
    while i < a.len()
        invariant
            i <= a.len(),
            r@.len() == i,
            forall|j: int| 0 <= j < i ==> #[trigger] r@[j]@ == a@[j]@,
        decreases a.len() - i,
    {
        let b = copy_bytes(&a[i]);
        r.push(b);
        i = i + 1;
    }
    assert(atoms_view(r) =~= atoms_view(*a));
    r
}

fn bytes_eq(a: &Vec<u8>, b: &Vec<u8>) -> (r: bool)
    ensures
        r == (a@ == b@),
{
    if a.len() != b.len() {
        return false;
    }
    let mut i: usize = 0;
    while i < a.len()
        invariant
            i <= a.len(),
            a.len() == b.len(),
            forall|j: int| 0 <= j < i ==> a@[j] == b@[j],
        decreases a.len() - i,
    {
        if a[i] != b[i] {
            return false;
        }
        i = i + 1;
    }
    assert(a@ =~= b@);
    true
}

fn atoms_eq(a: &Vec<Vec<u8>>, b: &Vec<Vec<u8>>) -> (r: bool)
    ensures
        r == (atoms_view(*a) == atoms_view(*b)),
{
    if a.len() != b.len() {
        assert(atoms_view(*a).len() != atoms_view(*b).len());
        return false;
    }
    let mut i: usize = 0;
    while i < a.len()
        invariant
            i <= a.len(),
            a.len() == b.len(),
            forall|j: int| 0 <= j < i ==> a@[j]@ == b@[j]@,
        decreases a.len() - i,
    {
        if !bytes_eq(&a[i], &b[i]) {
            assert(atoms_view(*a)[i as int] != atoms_view(*b)[i as int]);
            return false;
        }
        i = i + 1;
    }
    assert(atoms_view(*a) =~= atoms_view(*b));
    true
}

fn exec_decode_u64(a: &Vec<Vec<u8>>) -> (r: Option<u64>)
    ensures
        r == decode_u64(atoms_view(*a)),
{
    if a.len() != 1 {
        return None;
    }
    let b = &a[0];
    let n = b.len();
    if n > 8 || (n > 0 && b[n - 1] == 0) {
        return None;
    }
    proof {
        reveal_with_fuel(pow256, 9);
        lemma_le_value_bound(b@);
    }
    let mut acc: u64 = 0;
    let mut i: usize = n;
    assert(b@.subrange(n as int, n as int) =~= Seq::<u8>::empty());
    while i > 0
        invariant
            i <= n,
            n == b@.len(),
            n <= 8,
            acc == le_value(b@.subrange(i as int, n as int)),
        decreases i,
    {
        proof {
            lemma_le_value_step(b@, i - 1);
            lemma_le_value_bound(b@.subrange(i - 1, n as int));
            reveal_with_fuel(pow256, 9);
            assert(pow256((n - (i - 1)) as nat) <= pow256(8)) by {
                lemma_pow256_mono((n - (i - 1)) as nat, 8);
            }
        }
        acc = b[i - 1] as u64 + 256 * acc;
        i = i - 1;
    }
    assert(b@.subrange(0, n as int) =~= b@);
    assert(atoms_view(*a)[0] == b@);
    Some(acc)
}

proof fn lemma_pow256_mono(j: nat, k: nat)
    requires
        j <= k,
    ensures
        pow256(j) <= pow256(k),
    decreases k,
{
    if j < k {
        lemma_pow256_mono(j, (k - 1) as nat);
    }
}

fn exec_encode_u64(x: u64) -> (r: Vec<Vec<u8>>)
    ensures
        atoms_view(r) == encode_u64(x as nat),
{
    let mut out: Vec<u8> = Vec::new();
    let mut y: u64 = x;
    while y > 0
        invariant
            out@ + le_bytes(y as nat) == le_bytes(x as nat),
        decreases y,
    {
        assert(out@ + le_bytes(y as nat) == out@.push((y % 256) as u8) + le_bytes((y / 256) as nat)) by {
            assert(le_bytes(y as nat) == seq![((y as nat) % 256) as u8] + le_bytes((y as nat) / 256));
            assert(out@ + (seq![(y % 256) as u8] + le_bytes((y / 256) as nat)) =~= out@.push((y % 256) as u8) + le_bytes((y / 256) as nat));
        }
        out.push((y % 256) as u8);
        y = y / 256;
    }
    assert(out@ + le_bytes(0) =~= out@);
    let mut r: Vec<Vec<u8>> = Vec::new();
    r.push(out);
    assert(atoms_view(r) =~= encode_u64(x as nat));
    r
}

fn exec_encode_bool(b: bool) -> (r: Vec<Vec<u8>>)
    ensures
        atoms_view(r) == encode_bool(b),
{
    exec_encode_u64(if b { 1 } else { 0 })
}

/// A stack entry: a state value with its strength.
#[derive(Debug, PartialEq, Eq)]
pub struct VmValue {
    pub strength: ValueStrength,
    pub value: StackValue,
}

/// A cache key as mathematics sees it.
pub type KeyV = Option<(nat, Seq<Seq<Seq<u8>>>)>;

/// What has been read of an initial entry, as mathematics sees it.
pub type RootV = (bool, Seq<Seq<Seq<Seq<u8>>>>);

/// Where a stack entry was read from: the position of an entry of the
/// initial stack, and the keys followed into it.
#[derive(Debug, PartialEq, Eq)]
pub struct CacheKey {
    pub root: usize,
    pub path: Vec<Vec<Vec<u8>>>,
}

/// What has been read of one entry of the initial stack: all of it (a weak
/// entry), or the paths visited so far.
#[derive(Debug, PartialEq, Eq)]
pub struct CacheRoot {
    pub full: bool,
    pub visited: Vec<Vec<Vec<Vec<u8>>>>,
}

pub open spec fn path_view(p: Vec<Vec<Vec<u8>>>) -> Seq<Seq<Seq<u8>>> {
    Seq::new(p@.len(), |i: int| atoms_view(p@[i]))
}

pub open spec fn key_view(k: Option<CacheKey>) -> Option<(nat, Seq<Seq<Seq<u8>>>)> {
    match k {
        Some(c) => Some((c.root as nat, path_view(c.path))),
        None => None,
    }
}

pub open spec fn root_view(r: CacheRoot) -> (bool, Seq<Seq<Seq<Seq<u8>>>>) {
    (r.full, Seq::new(r.visited@.len(), |i: int| path_view(r.visited@[i])))
}

pub open spec fn keys_view(s: Seq<Option<CacheKey>>) -> Seq<Option<(nat, Seq<Seq<Seq<u8>>>)>> {
    Seq::new(s.len(), |i: int| key_view(s[i]))
}

pub open spec fn cache_view(s: Seq<CacheRoot>) -> Seq<(bool, Seq<Seq<Seq<Seq<u8>>>>)> {
    Seq::new(s.len(), |i: int| root_view(s[i]))
}

/// The key of the value reached from a key's value by `k`.
pub open spec fn push_key(key: Option<(nat, Seq<Seq<Seq<u8>>>)>, k: Seq<Seq<u8>>) -> Option<(nat, Seq<Seq<Seq<u8>>>)> {
    match key {
        Some((n, p)) => Some((n, p.push(k))),
        None => None,
    }
}

/// Every nonempty prefix of `path` has been visited.
pub open spec fn prefixes_visited(visited: Seq<Seq<Seq<Seq<u8>>>>, path: Seq<Seq<Seq<u8>>>) -> bool {
    forall|i: int| 1 <= i <= path.len() ==> #[trigger] visited.contains(path.subrange(0, i))
}

/// The visited paths with every nonempty prefix of `path` added.
pub open spec fn add_prefixes(visited: Seq<Seq<Seq<Seq<u8>>>>, path: Seq<Seq<Seq<u8>>>) -> Seq<Seq<Seq<Seq<u8>>>> {
    visited + Seq::new(path.len(), |i: int| path.subrange(0, i + 1))
}

/// Visiting `key`: whether it was already read (a value of no initial
/// entry always is, and so is all of a weak entry), with the cache that
/// records it.
pub open spec fn visit(
    cache: Seq<(bool, Seq<Seq<Seq<Seq<u8>>>>)>,
    key: Option<(nat, Seq<Seq<Seq<u8>>>)>,
) -> (bool, Seq<(bool, Seq<Seq<Seq<Seq<u8>>>>)>) {
    match key {
        None => (true, cache),
        Some((n, path)) => if n >= cache.len() {
            (false, cache)
        } else if cache[n as int].0 {
            (true, cache)
        } else {
            (prefixes_visited(cache[n as int].1, path), cache.update(n as int, (false, add_prefixes(cache[n as int].1, path))))
        },
    }
}

/// A key of an `idx` path: taken from the stack, or given in the program.
#[derive(Debug, PartialEq, Eq)]
pub enum Key {
    Stack,
    Value(Vec<Vec<u8>>),
}

/// An instruction of the virtual machine.
#[derive(Debug, PartialEq, Eq)]
pub enum Op {
    Noop { n: u32 },
    Branch { skip: u32 },
    Jmp { skip: u32 },
    Ckpt,
    Lt,
    Eq,
    Type,
    Size,
    New,
    And,
    Or,
    Neg,
    Log,
    Root,
    Pop,
    Popeq,
    Addi { immediate: u32 },
    Subi { immediate: u32 },
    Push { storage: bool, value: StackValue },
    Add,
    Sub,
    Concat { n: u32 },
    Member,
    Rem { cached: bool },
    Dup { n: u8 },
    Swap { n: u8 },
    Idx { cached: bool, push_path: bool, path: Vec<Key> },
    Ins { cached: bool, n: u8 },
}

/// Why a step failed.
#[derive(Debug, Clone, Copy, PartialEq, Eq, Structural)]
pub enum VmError {
    /// The stack holds fewer entries than the instruction takes.
    RanOffStack,
    /// A value has the wrong kind for the instruction.
    TypeError,
    /// A cell does not hold a value of the type the instruction reads.
    InvalidDecode,
    ArithmeticOverflow,
    /// Both compared cells are too long to compare.
    TooLongForEqual,
    /// A concatenation exceeds its bound.
    BoundsExceeded,
    /// The bound of a concatenation exceeds the cell bound.
    CellBoundExceeded,
    /// `new` was given an unknown tag or an array of more than sixteen.
    InvalidArgs,
    /// An index lies outside a Merkle tree.
    MissingKey,
    /// A logged value is too large.
    LogBoundExceeded,
    /// A Merkle tree refused an update.
    MerkleTreeError,
    /// A jump or branch leaves the program.
    RanPastProgramEnd,
    StackOverflow,
    /// No instruction is left to run.
    ProgramEnded,
    /// A cached read or write reaches a part of the initial stack that has
    /// not been read yet.
    CacheMiss,
}

/// What the serialization and Merkle tree libraries give for the values at
/// the top of the stack: the serialized sizes of the topmost and the second
/// entry, and the root of the topmost tree.
pub struct Outside {
    pub top_size: u64,
    pub second_size: u64,
    pub root: Vec<u8>,
}

/// The virtual machine's state: its stack, the values it has logged or
/// read, and the position of the next instruction.
pub struct VmState {
    pub stack: Vec<VmValue>,
    /// Where each stack entry was read from, if from the initial stack.
    pub keys: Vec<Option<CacheKey>>,
    /// What has been read of each entry of the initial stack.
    pub cache: Vec<CacheRoot>,
    pub events: Vec<StackValue>,
    pub pc: usize,
}

/// The state as mathematics sees it.
pub struct VmView {
    pub stack: Seq<(ValueStrength, Val)>,
    pub keys: Seq<KeyV>,
    pub cache: Seq<RootV>,
    pub events: Seq<Val>,
    pub pc: int,
}

impl VmView {
    /// Each stack entry has its cache key.
    pub open spec fn wf(self) -> bool {
        self.keys.len() == self.stack.len()
    }
}

pub open spec fn entry_view(e: VmValue) -> (ValueStrength, Val) {
    (e.strength, val_of(e.value))
}

/// The entries of a stack, as mathematics sees them.
pub open spec fn stack_view(s: Seq<VmValue>) -> Seq<(ValueStrength, Val)> {
    Seq::new(s.len(), |i: int| entry_view(s[i]))
}

/// Logged and read values, as mathematics sees them.
pub open spec fn events_view(s: Seq<StackValue>) -> Seq<Val> {
    Seq::new(s.len(), |i: int| val_of(s[i]))
}

pub broadcast proof fn lemma_stack_view_push(s: Seq<VmValue>, e: VmValue)
    ensures
        #[trigger] stack_view(s.push(e)) == stack_view(s).push(entry_view(e)),
{
    assert(stack_view(s.push(e)) =~= stack_view(s).push(entry_view(e)));
}

pub broadcast proof fn lemma_stack_view_subrange(s: Seq<VmValue>, i: int, j: int)
    requires
        0 <= i <= j <= s.len(),
    ensures
        #[trigger] stack_view(s.subrange(i, j)) == stack_view(s).subrange(i, j),
{
    assert(stack_view(s.subrange(i, j)) =~= stack_view(s).subrange(i, j));
}

pub broadcast proof fn lemma_stack_view_drop_last(s: Seq<VmValue>)
    requires
        s.len() > 0,
    ensures
        #[trigger] stack_view(s.drop_last()) == stack_view(s).drop_last(),
{
    assert(stack_view(s.drop_last()) =~= stack_view(s).drop_last());
}

pub broadcast proof fn lemma_events_view_push(s: Seq<StackValue>, e: StackValue)
    ensures
        #[trigger] events_view(s.push(e)) == events_view(s).push(val_of(e)),
{
    assert(events_view(s.push(e)) =~= events_view(s).push(val_of(e)));
}

pub broadcast proof fn lemma_keys_view_push(s: Seq<Option<CacheKey>>, e: Option<CacheKey>)
    ensures
        #[trigger] keys_view(s.push(e)) == keys_view(s).push(key_view(e)),
{
    assert(keys_view(s.push(e)) =~= keys_view(s).push(key_view(e)));
}

pub broadcast proof fn lemma_keys_view_subrange(s: Seq<Option<CacheKey>>, i: int, j: int)
    requires
        0 <= i <= j <= s.len(),
    ensures
        #[trigger] keys_view(s.subrange(i, j)) == keys_view(s).subrange(i, j),
{
    assert(keys_view(s.subrange(i, j)) =~= keys_view(s).subrange(i, j));
}

pub broadcast proof fn lemma_keys_view_drop_last(s: Seq<Option<CacheKey>>)
    requires
        s.len() > 0,
    ensures
        #[trigger] keys_view(s.drop_last()) == keys_view(s).drop_last(),
{
    assert(keys_view(s.drop_last()) =~= keys_view(s).drop_last());
}

pub broadcast group group_vm_views {
    lemma_keys_view_push,
    lemma_keys_view_subrange,
    lemma_keys_view_drop_last,
    lemma_stack_view_push,
    lemma_stack_view_subrange,
    lemma_stack_view_drop_last,
    lemma_events_view_push,
}

impl View for VmState {
    type V = VmView;

    open spec fn view(&self) -> VmView {
        VmView {
            stack: stack_view(self.stack@),
            keys: keys_view(self.keys@),
            cache: cache_view(self.cache@),
            events: events_view(self.events@),
            pc: self.pc as int,
        }
    }
}

pub open spec fn view_result(r: Result<VmState, VmError>) -> Result<VmView, VmError> {
    match r {
        Ok(s) => Ok(s@),
        Err(e) => Err(e),
    }
}

/// The number of stack keys in a path.
pub open spec fn stack_keys(path: Seq<Key>) -> nat
    decreases path.len(),
{
    if path.len() == 0 {
        0
    } else {
        stack_keys(path.drop_last()) + if path.last() is Stack { 1nat } else { 0nat }
    }
}

/// How many entries an instruction takes from the stack.
pub open spec fn stack_req(op: Op) -> nat {
    match op {
        Op::Noop { .. } | Op::Push { .. } | Op::Jmp { .. } | Op::Ckpt => 0,
        Op::Type | Op::Size | Op::New | Op::Neg | Op::Log | Op::Root | Op::Pop | Op::Popeq
        | Op::Addi { .. } | Op::Subi { .. } | Op::Branch { .. } => 1,
        Op::Lt | Op::Eq | Op::And | Op::Or | Op::Add | Op::Sub | Op::Concat { .. } | Op::Member
        | Op::Rem { .. } => 2,
        Op::Dup { n } => n as nat + 1,
        Op::Swap { n } => n as nat + 2,
        Op::Idx { path, .. } => stack_keys(path@) + 1,
        Op::Ins { n, .. } => 2 * (n as nat) + 1,
    }
}

/// The position of `k` among a map's keys, or -1.
pub open spec fn map_find(m: Seq<(Seq<Seq<u8>>, Val)>, k: Seq<Seq<u8>>) -> int
    decreases m.len(),
{
    if m.len() == 0 {
        -1
    } else if m.last().0 == k {
        m.len() - 1
    } else {
        map_find(m.drop_last(), k)
    }
}

/// The value a map holds at `k`, null where it holds none.
pub open spec fn map_get(m: Seq<(Seq<Seq<u8>>, Val)>, k: Seq<Seq<u8>>) -> Val {
    let i = map_find(m, k);
    if i >= 0 { m[i].1 } else { Val::Null }
}

pub open spec fn map_insert(m: Seq<(Seq<Seq<u8>>, Val)>, k: Seq<Seq<u8>>, v: Val) -> Seq<(Seq<Seq<u8>>, Val)> {
    let i = map_find(m, k);
    if i >= 0 { m.update(i, (k, v)) } else { m.push((k, v)) }
}

pub open spec fn map_remove(m: Seq<(Seq<Seq<u8>>, Val)>, k: Seq<Seq<u8>>) -> Seq<(Seq<Seq<u8>>, Val)> {
    let i = map_find(m, k);
    if i >= 0 { m.remove(i) } else { m }
}

/// The position of leaf `k` among a tree's set leaves, or -1.
pub open spec fn leaf_find(l: Seq<(u64, Seq<u8>)>, k: u64) -> int
    decreases l.len(),
{
    if l.len() == 0 {
        -1
    } else if l.last().0 == k {
        l.len() - 1
    } else {
        leaf_find(l.drop_last(), k)
    }
}

pub open spec fn leaf_set(l: Seq<(u64, Seq<u8>)>, k: u64, h: Seq<u8>) -> Seq<(u64, Seq<u8>)> {
    let i = leaf_find(l, k);
    if i >= 0 { l.update(i, (k, h)) } else { l.push((k, h)) }
}

/// `2^h`.
pub open spec fn tree_capacity(h: u8) -> nat {
    vstd::arithmetic::power2::pow2(h as nat)
}

/// One step of an `idx` path: the value at `key` in `curr`; `miss` says
/// that the read is cached and reaches what was not read yet.
pub open spec fn idx_one(curr: (ValueStrength, Val), key: Seq<Seq<u8>>, miss: bool) -> Result<(ValueStrength, Val), VmError> {
    match curr.1 {
        Val::Array(a) => match decode_u8(key) {
            None => Err(VmError::InvalidDecode),
            Some(i) => if i >= a.len() {
                Err(VmError::TypeError)
            } else if miss {
                Err(VmError::CacheMiss)
            } else {
                Ok((curr.0, a[i as int]))
            },
        },
        Val::Mapping(m) => if miss { Err(VmError::CacheMiss) } else { Ok((curr.0, map_get(m, key))) },
        Val::Tree(h, l) => match decode_u64(key) {
            None => Err(VmError::InvalidDecode),
            Some(i) => if i >= tree_capacity(h) {
                Err(VmError::MissingKey)
            } else {
                let j = leaf_find(l, i);
                if j >= 0 { Ok((curr.0, Val::Cell(seq![l[j].1]))) } else { Ok((curr.0, Val::Null)) }
            },
        },
        _ => Err(VmError::TypeError),
    }
}

/// The rest of an `idx` walk from path position `i`, with the stack keys
/// not yet used; the stack carries its cache keys, and the walk reads
/// through the cache.
pub open spec fn idx_walk(
    stack: Seq<(ValueStrength, Val)>,
    skeys: Seq<KeyV>,
    cache: Seq<RootV>,
    curr: (ValueStrength, Val),
    ckey: KeyV,
    keys: Seq<(ValueStrength, Val)>,
    path: Seq<Key>,
    i: int,
    push_path: bool,
    cached: bool,
) -> Result<(Seq<(ValueStrength, Val)>, Seq<KeyV>, Seq<RootV>, (ValueStrength, Val), KeyV), VmError>
    decreases path.len() - i,
{
    if i < 0 || i >= path.len() {
        Ok((stack, skeys, cache, curr, ckey))
    } else {
        let (k, rest) = match path[i] {
            Key::Stack => (keys[0], keys.drop_first()),
            Key::Value(v) => ((ValueStrength::Weak, Val::Cell(atoms_view(v))), keys),
        };
        let stack2 = if push_path { stack.push(curr).push(k) } else { stack };
        let skeys2 = if push_path { skeys.push(ckey).push(None) } else { skeys };
        match k.1 {
            Val::Cell(kc) => {
                let nk = push_key(ckey, kc);
                let (hit, cache2) = visit(cache, nk);
                match idx_one(curr, kc, cached && !hit) {
                    Ok(c2) => idx_walk(stack2, skeys2, cache2, c2, nk, rest, path, i + 1, push_path, cached),
                    Err(e) => Err(e),
                }
            },
            _ => Err(VmError::TypeError),
        }
    }
}

/// `value` written into `container` at `key`.
pub open spec fn ins_one(container: Val, key: Seq<Seq<u8>>, value: Val) -> Result<Val, VmError> {
    match container {
        Val::Array(a) => match decode_u8(key) {
            None => Err(VmError::InvalidDecode),
            Some(i) => if i >= a.len() { Err(VmError::TypeError) } else { Ok(Val::Array(a.update(i as int, value))) },
        },
        Val::Mapping(m) => Ok(Val::Mapping(map_insert(m, key, value))),
        Val::Tree(h, l) => match decode_u64(key) {
            None => Err(VmError::InvalidDecode),
            Some(i) => if i >= tree_capacity(h) {
                Err(VmError::BoundsExceeded)
            } else {
                match value {
                    Val::Cell(c) => if c.len() == 1 {
                        Ok(Val::Tree(h, leaf_set(l, i, c[0])))
                    } else {
                        Err(VmError::TypeError)
                    },
                    _ => Err(VmError::TypeError),
                }
            },
        },
        _ => Err(VmError::TypeError),
    }
}

/// The rest of an `ins` walk with `n` levels left; the stack carries its
/// cache keys, and a cached write into a map or tree must reach what was
/// read.
pub open spec fn ins_walk(
    stack: Seq<(ValueStrength, Val)>,
    skeys: Seq<KeyV>,
    cache: Seq<RootV>,
    curr: (ValueStrength, Val),
    ckey: KeyV,
    n: nat,
    cached: bool,
) -> Result<(Seq<(ValueStrength, Val)>, Seq<KeyV>, Seq<RootV>, (ValueStrength, Val), KeyV), VmError>
    decreases n,
{
    if n == 0 || stack.len() < 2 || skeys.len() != stack.len() {
        Ok((stack, skeys, cache, curr, ckey))
    } else {
        let key = stack.last();
        let container = stack[stack.len() - 2];
        let ck = skeys[stack.len() - 2];
        let rest = stack.subrange(0, stack.len() - 2);
        let rest_keys = skeys.subrange(0, stack.len() - 2);
        match key.1 {
            Val::Cell(kc) => {
                let (hit, cache2) = visit(cache, push_key(ck, kc));
                if cached && !hit && !(container.1 is Array) {
                    Err(VmError::CacheMiss)
                } else {
                    match ins_one(container.1, kc, curr.1) {
                        Ok(next) => ins_walk(rest, rest_keys, cache2, (strength_and(curr.0, container.0), next), ck, (n - 1) as nat, cached),
                        Err(e) => Err(e),
                    }
                }
            },
            _ => Err(VmError::TypeError),
        }
    }
}

/// The type tag of a value.
pub open spec fn type_tag(v: Val) -> nat {
    match v {
        Val::Cell(_) => 0,
        Val::Null => 1,
        Val::Mapping(_) => 2,
        Val::Array(a) => ((3 + 8 * (a.len() % 256)) % 256) as nat,
        Val::Tree(h, _) => ((4 + 8 * (if h == 0 { 0 } else { h - 1 })) % 256) as nat,
    }
}

/// The value `new` builds from its tag, if the tag is valid.
pub open spec fn new_value(t: u8) -> Option<Val> {
    let tag = t % 8;
    let size = t / 8;
    if tag == 0 {
        Some(Val::Cell(Seq::empty()))
    } else if tag == 1 {
        Some(Val::Null)
    } else if tag == 2 {
        Some(Val::Mapping(Seq::empty()))
    } else if tag == 3 {
        if size > 16 { None } else { Some(Val::Array(Seq::new(size as nat, |i: int| Val::Null))) }
    } else if tag == 4 {
        Some(Val::Tree((size + 1) as u8, Seq::empty()))
    } else {
        None
    }
}

/// A strong cell.
pub open spec fn strong_cell(c: Seq<Seq<u8>>) -> (ValueStrength, Val) {
    (ValueStrength::Strong, Val::Cell(c))
}

/// The `m` stack keys of an `idx`, the topmost first.
pub open spec fn idx_keys(st: Seq<(ValueStrength, Val)>, m: int) -> Seq<(ValueStrength, Val)> {
    Seq::new(m as nat, |j: int| st[st.len() - 1 - j])
}

/// The effect of an instruction other than `idx`, `ins` and `rem` (which
/// read through the cache, see `spec_op_full`) on the stack and events,
/// with the number of further instructions it skips.
pub open spec fn spec_op(st: Seq<(ValueStrength, Val)>, ev: Seq<Val>, op: Op, out: Outside) -> Result<(Seq<(ValueStrength, Val)>, Seq<Val>, nat), VmError> {
    let n = st.len();
    let a = st.last();
    let b = if n >= 2 { st[n - 2] } else { a };
    let rest1 = st.drop_last();
    let rest2 = st.subrange(0, n - 2);
    match op {
        Op::Noop { .. } | Op::Ckpt => Ok((st, ev, 0)),
        Op::Jmp { skip } => Ok((st, ev, skip as nat)),
        Op::Branch { skip } => match a.1 {
            Val::Cell(c) => Ok((rest1, ev, if c.len() == 1 && c[0].len() == 0 { 0 } else { skip as nat })),
            _ => Err(VmError::TypeError),
        },
        Op::Lt => match (a.1, b.1) {
            (Val::Cell(cb), Val::Cell(ca)) => match (decode_u64(ca), decode_u64(cb)) {
                (Some(x), Some(y)) => Ok((rest2.push(strong_cell(encode_bool(x < y))), ev, 0)),
                _ => Err(VmError::InvalidDecode),
            },
            _ => Err(VmError::TypeError),
        },
        Op::Eq => match (a.1, b.1) {
            (Val::Cell(ca), Val::Cell(cb)) => {
                let va = out.top_size <= 64;
                let vb = out.second_size <= 64;
                if !va && !vb {
                    Err(VmError::TooLongForEqual)
                } else {
                    Ok((rest2.push(strong_cell(encode_bool(va && vb && ca == cb))), ev, 0))
                }
            },
            _ => Err(VmError::TypeError),
        },
        Op::Type => Ok((rest1.push(strong_cell(encode_u64(type_tag(a.1)))), ev, 0)),
        Op::Size => match a.1 {
            Val::Mapping(m) => Ok((rest1.push(strong_cell(encode_u64(m.len()))), ev, 0)),
            Val::Tree(h, _) => Ok((rest1.push(strong_cell(encode_u64(h as nat))), ev, 0)),
            Val::Array(x) => Ok((rest1.push(strong_cell(encode_u64(x.len()))), ev, 0)),
            _ => Err(VmError::TypeError),
        },
        Op::New => match a.1 {
            Val::Cell(c) => match decode_u8(c) {
                None => Err(VmError::InvalidDecode),
                Some(t) => match new_value(t) {
                    Some(v) => Ok((rest1.push((ValueStrength::Strong, v)), ev, 0)),
                    None => Err(VmError::InvalidArgs),
                },
            },
            _ => Err(VmError::TypeError),
        },
        Op::And | Op::Or => match a.1 {
            Val::Cell(ca) => match decode_bool(ca) {
                None => Err(VmError::InvalidDecode),
                Some(x) => match b.1 {
                    Val::Cell(cb) => match decode_bool(cb) {
                        None => Err(VmError::InvalidDecode),
                        Some(y) => Ok((rest2.push(strong_cell(encode_bool(if op is And { x && y } else { x || y }))), ev, 0)),
                    },
                    _ => Err(VmError::TypeError),
                },
            },
            _ => Err(VmError::TypeError),
        },
        Op::Neg => match a.1 {
            Val::Cell(ca) => match decode_bool(ca) {
                None => Err(VmError::InvalidDecode),
                Some(x) => Ok((rest1.push(strong_cell(encode_bool(!x))), ev, 0)),
            },
            _ => Err(VmError::TypeError),
        },
        Op::Log => if out.top_size > MAX_LOG_SIZE {
            Err(VmError::LogBoundExceeded)
        } else {
            Ok((rest1, ev.push(a.1), 0))
        },
        Op::Root => match a.1 {
            Val::Tree(..) => Ok((rest1.push(strong_cell(seq![out.root@])), ev, 0)),
            _ => Err(VmError::TypeError),
        },
        Op::Pop => Ok((rest1, ev, 0)),
        Op::Popeq => match a.1 {
            Val::Cell(_) => Ok((rest1, ev.push(a.1), 0)),
            _ => Err(VmError::TypeError),
        },
        Op::Addi { immediate } | Op::Subi { immediate } => match a.1 {
            Val::Cell(c) => match decode_u64(c) {
                None => Err(VmError::InvalidDecode),
                Some(x) => {
                    let r: int = if op is Addi { x + immediate } else { x - immediate };
                    if r < 0 || r > u64::MAX {
                        Err(VmError::ArithmeticOverflow)
                    } else {
                        Ok((rest1.push(strong_cell(encode_u64(r as nat))), ev, 0))
                    }
                },
            },
            _ => Err(VmError::TypeError),
        },
        Op::Push { storage, value } => Ok((
            st.push((if storage { ValueStrength::Strong } else { ValueStrength::Weak }, val_of(value))),
            ev,
            0,
        )),
        Op::Add | Op::Sub => match (a.1, b.1) {
            (Val::Cell(ca), Val::Cell(cb)) => {
                let (first, second) = if op is Add { (ca, cb) } else { (cb, ca) };
                match decode_u64(first) {
                    None => Err(VmError::InvalidDecode),
                    Some(x) => match decode_u64(second) {
                        None => Err(VmError::InvalidDecode),
                        Some(y) => {
                            let r: int = if op is Add { x + y } else { x - y };
                            if r < 0 || r > u64::MAX {
                                Err(VmError::ArithmeticOverflow)
                            } else {
                                Ok((rest2.push(strong_cell(encode_u64(r as nat))), ev, 0))
                            }
                        },
                    },
                }
            },
            _ => Err(VmError::TypeError),
        },
        Op::Concat { n: bound } => if bound > CELL_BOUND {
            Err(VmError::CellBoundExceeded)
        } else {
            match (a.1, b.1) {
                (Val::Cell(ca), Val::Cell(cb)) => if out.top_size + out.second_size <= bound {
                    Ok((rest2.push(strong_cell(cb + ca)), ev, 0))
                } else {
                    Err(VmError::BoundsExceeded)
                },
                _ => Err(VmError::TypeError),
            }
        },
        Op::Member => match a.1 {
            Val::Cell(k) => match b.1 {
                Val::Mapping(m) => Ok((rest2.push(strong_cell(encode_bool(map_find(m, k) >= 0))), ev, 0)),
                _ => Err(VmError::TypeError),
            },
            _ => Err(VmError::TypeError),
        },
        Op::Dup { n: k } => Ok((st.push(st[n - 1 - k]), ev, 0)),
        Op::Swap { n: k } => {
            let j = n - 2 - k;
            Ok((st.update(n - 1, st[j]).update(j, st[n - 1]), ev, 0))
        },
        // These read through the cache: see `spec_op_full`.
        Op::Idx { .. } | Op::Ins { .. } | Op::Rem { .. } => Ok((st, ev, 0)),
    }
}

/// The cache keys after an instruction other than `idx`, `ins` and `rem`:
/// what it takes leaves with its entries, what it pushes comes from no
/// initial entry, and `dup` and `swap` copy and exchange keys with their
/// entries.
pub open spec fn plain_keys(k: Seq<KeyV>, op: Op) -> Seq<KeyV> {
    let n = k.len();
    match op {
        Op::Noop { .. } | Op::Ckpt | Op::Jmp { .. } => k,
        Op::Branch { .. } | Op::Log | Op::Pop | Op::Popeq => k.drop_last(),
        Op::Type | Op::Size | Op::New | Op::Neg | Op::Root | Op::Addi { .. } | Op::Subi { .. } => k.drop_last().push(None),
        Op::Lt | Op::Eq | Op::And | Op::Or | Op::Add | Op::Sub | Op::Concat { .. } | Op::Member => k.subrange(0, n - 2).push(None),
        Op::Push { .. } => k.push(None),
        Op::Dup { n: d } => k.push(k[n - 1 - d]),
        Op::Swap { n: d } => {
            let j = n - 2 - d;
            k.update(n - 1, k[j]).update(j, k[n - 1])
        },
        // These carry keys of their own: see `spec_op_full`.
        Op::Idx { .. } | Op::Ins { .. } | Op::Rem { .. } => k,
    }
}

/// `rem`: the key on top is removed from the container below it, through
/// the cache.
pub open spec fn spec_rem(
    st: Seq<(ValueStrength, Val)>,
    keys: Seq<KeyV>,
    cache: Seq<RootV>,
    cached: bool,
) -> Result<(Seq<(ValueStrength, Val)>, Seq<KeyV>, Seq<RootV>), VmError> {
    let n = st.len();
    let a = st.last();
    let b = st[n - 2];
    let bk = keys[n - 2];
    let rest2 = st.subrange(0, n - 2);
    let rest_keys = keys.subrange(0, n - 2);
    match a.1 {
        Val::Cell(k) => {
            let (hit, cache2) = visit(cache, push_key(bk, k));
            if cached && !hit {
                Err(VmError::CacheMiss)
            } else {
                match b.1 {
                    Val::Mapping(m) => Ok((rest2.push((b.0, Val::Mapping(map_remove(m, k)))), rest_keys.push(bk), cache2)),
                    Val::Tree(h, l) => match decode_u64(k) {
                        None => Err(VmError::InvalidDecode),
                        Some(i) => if i >= tree_capacity(h) {
                            Err(VmError::MerkleTreeError)
                        } else {
                            Ok((rest2.push((b.0, Val::Tree(h, leaf_set(l, i, Seq::empty())))), rest_keys.push(bk), cache2))
                        },
                    },
                    _ => Err(VmError::TypeError),
                }
            }
        },
        _ => Err(VmError::TypeError),
    }
}

/// The end of an `idx` or `ins` walk: the value reached is pushed with its
/// cache key.
pub open spec fn walk_end(
    w: Result<(Seq<(ValueStrength, Val)>, Seq<KeyV>, Seq<RootV>, (ValueStrength, Val), KeyV), VmError>,
    ev: Seq<Val>,
) -> Result<(Seq<(ValueStrength, Val)>, Seq<KeyV>, Seq<RootV>, Seq<Val>, nat), VmError> {
    match w {
        Ok((s2, k2, c2, cur, ck)) => Ok((s2.push(cur), k2.push(ck), c2, ev, 0)),
        Err(e) => Err(e),
    }
}

/// The effect of one instruction on the stack, its cache keys, the cache
/// and the events, with the number of further instructions it skips.
pub open spec fn spec_op_full(s: VmView, op: Op, out: Outside) -> Result<(Seq<(ValueStrength, Val)>, Seq<KeyV>, Seq<RootV>, Seq<Val>, nat), VmError> {
    let st = s.stack;
    let n = st.len() as int;
    match op {
        Op::Idx { cached, push_path, path } => {
            let m = stack_keys(path@) as int;
            walk_end(
                idx_walk(
                    st.subrange(0, n - 1 - m),
                    s.keys.subrange(0, n - 1 - m),
                    s.cache,
                    st[n - 1 - m],
                    s.keys[n - 1 - m],
                    idx_keys(st, m),
                    path@,
                    0,
                    push_path,
                    cached,
                ),
                s.events,
            )
        },
        Op::Ins { cached, n: k } => walk_end(ins_walk(st.drop_last(), s.keys.drop_last(), s.cache, st.last(), s.keys.last(), k as nat, cached), s.events),
        Op::Rem { cached } => match spec_rem(st, s.keys, s.cache, cached) {
            Ok((st2, k2, c2)) => Ok((st2, k2, c2, s.events, 0)),
            Err(e) => Err(e),
        },
        _ => match spec_op(st, s.events, op, out) {
            Ok((st2, ev2, x)) => Ok((st2, plain_keys(s.keys, op), s.cache, ev2, x)),
            Err(e) => Err(e),
        },
    }
}

/// One step of the machine: the instruction at `pc` runs, then control
/// moves past it and past the instructions it skips.
pub open spec fn spec_step(s: VmView, program: Seq<Op>, out: Outside) -> Result<VmView, VmError> {
    if s.pc < 0 || s.pc >= program.len() {
        Err(VmError::ProgramEnded)
    } else {
        let op = program[s.pc];
        if s.stack.len() < stack_req(op) {
            Err(VmError::RanOffStack)
        } else {
            match spec_op_full(s, op, out) {
                Err(e) => Err(e),
                Ok((st, keys, cache, ev, extra)) => {
                    let skip = 1 + extra;
                    if skip > program.len() - s.pc {
                        Err(VmError::RanPastProgramEnd)
                    } else if st.len() > MAX_STACK_HEIGHT {
                        Err(VmError::StackOverflow)
                    } else {
                        Ok(VmView { stack: st, keys, cache, events: ev, pc: s.pc + skip })
                    }
                },
            }
        }
    }
}

/// The entries of a map, as mathematics sees them.
pub open spec fn entries_view(m: Vec<(Vec<Vec<u8>>, StackValue)>) -> Seq<(Seq<Seq<u8>>, Val)> {
    Seq::new(
        m@.len(),
        |i: int|
            if 0 <= i < m@.len() {
                (atoms_view(m@[i].0), val_of(m@[i].1))
            } else {
                (Seq::empty(), Val::Null)
            },
    )
}

/// The elements of an array, as mathematics sees them.
pub open spec fn elems_view(a: Vec<StackValue>) -> Seq<Val> {
    Seq::new(a@.len(), |i: int| if 0 <= i < a@.len() { val_of(a@[i]) } else { Val::Null })
}

proof fn lemma_val_of_containers(v: StackValue)
    ensures
        v matches StackValue::Mapping(m) ==> val_of(v) == Val::Mapping(entries_view(m)),
        v matches StackValue::Array(a) ==> val_of(v) == Val::Array(elems_view(a)),
{
    reveal_with_fuel(val_of, 2);
    match v {
        StackValue::Mapping(m) => {
            assert(val_of(v) is Mapping);
            let x = val_of(v)->Mapping_0;
            assert(x.len() == entries_view(m).len());
            assert forall|i: int| 0 <= i < x.len() implies x[i] == entries_view(m)[i] by {}
            assert(x =~= entries_view(m));
        },
        StackValue::Array(a) => {
            assert(val_of(v) is Array);
            let x = val_of(v)->Array_0;
            assert(x.len() == elems_view(a).len());
            assert forall|i: int| 0 <= i < x.len() implies x[i] == elems_view(a)[i] by {}
            assert(x =~= elems_view(a));
        },
        _ => {},
    }
}

/// A copy of a value.
pub fn copy_value(v: &StackValue) -> (r: StackValue)
    ensures
        val_of(r) == val_of(*v),
    decreases v,
{
    match v {
        StackValue::Null => StackValue::Null,
        StackValue::Cell(a) => StackValue::Cell(copy_atoms(a)),
        StackValue::Mapping(m) => {
            let mut out: Vec<(Vec<Vec<u8>>, StackValue)> = Vec::new();
            let mut i: usize = 0;
            while i < m.len()
                invariant
                    i <= m.len(),
                    *v == StackValue::Mapping(*m),
                    out@.len() == i,
                    forall|j: int|
                        0 <= j < i ==> atoms_view(#[trigger] out@[j].0) == atoms_view(m@[j].0)
                            && val_of(out@[j].1) == val_of(m@[j].1),
                decreases m.len() - i,
            {
                proof {
                    assert(decreases_to!(*v => (*v)->Mapping_0));
                    assert(decreases_to!(*m => m[i as int]));
                    assert(decreases_to!(m[i as int] => m[i as int].1));
                }
                let k = copy_atoms(&m[i].0);
                let x = copy_value(&m[i].1);
                out.push((k, x));
                i = i + 1;
            }
            let r = StackValue::Mapping(out);
            proof {
                assert(entries_view(out) =~= entries_view(*m));
                lemma_val_of_containers(r);
                lemma_val_of_containers(*v);
            }
            r
        },
        StackValue::Array(a) => {
            let mut out: Vec<StackValue> = Vec::new();
            let mut i: usize = 0;
            while i < a.len()
                invariant
                    i <= a.len(),
                    *v == StackValue::Array(*a),
                    out@.len() == i,
                    forall|j: int| 0 <= j < i ==> val_of(#[trigger] out@[j]) == val_of(a@[j]),
                decreases a.len() - i,
            {
                proof {
                    assert(decreases_to!(*v => (*v)->Array_0));
                    assert(decreases_to!(*a => a[i as int]));
                }
                let x = copy_value(&a[i]);
                out.push(x);
                i = i + 1;
            }
            let r = StackValue::Array(out);
            proof {
                assert(elems_view(out) =~= elems_view(*a));
                lemma_val_of_containers(r);
                lemma_val_of_containers(*v);
            }
            r
        },
        StackValue::MerkleTree(h, l) => {
            let mut out: Vec<(u64, Vec<u8>)> = Vec::new();
            let mut i: usize = 0;
            while i < l.len()
                invariant
                    i <= l.len(),
                    out@.len() == i,
                    forall|j: int| 0 <= j < i ==> (#[trigger] out@[j]).0 == l@[j].0 && out@[j].1@ == l@[j].1@,
                decreases l.len() - i,
            {
                let b = copy_bytes(&l[i].1);
                out.push((l[i].0, b));
                i = i + 1;
            }
            assert(leaves_view(out) =~= leaves_view(*l));
            StackValue::MerkleTree(*h, out)
        },
    }
}

fn copy_entry(e: &VmValue) -> (r: VmValue)
    ensures
        entry_view(r) == entry_view(*e),
{
    VmValue { strength: e.strength, value: copy_value(&e.value) }
}

pub open spec fn entry_result(r: Result<VmValue, VmError>) -> Result<(ValueStrength, Val), VmError> {
    match r {
        Ok(e) => Ok(entry_view(e)),
        Err(e) => Err(e),
    }
}

pub open spec fn val_result(r: Result<StackValue, VmError>) -> Result<Val, VmError> {
    match r {
        Ok(v) => Ok(val_of(v)),
        Err(e) => Err(e),
    }
}

proof fn lemma_map_find_prefix(s: Seq<(Seq<Seq<u8>>, Val)>, k: Seq<Seq<u8>>, i: int)
    requires
        0 < i <= s.len(),
    ensures
        map_find(s.subrange(0, i), k) == if s[i - 1].0 == k { i - 1 } else { map_find(s.subrange(0, i - 1), k) },
{
    assert(s.subrange(0, i).drop_last() =~= s.subrange(0, i - 1));
}

proof fn lemma_leaf_find_prefix(s: Seq<(u64, Seq<u8>)>, k: u64, i: int)
    requires
        0 < i <= s.len(),
    ensures
        leaf_find(s.subrange(0, i), k) == if s[i - 1].0 == k { i - 1 } else { leaf_find(s.subrange(0, i - 1), k) },
{
    assert(s.subrange(0, i).drop_last() =~= s.subrange(0, i - 1));
}

proof fn lemma_map_find_range(s: Seq<(Seq<Seq<u8>>, Val)>, k: Seq<Seq<u8>>)
    ensures
        -1 <= map_find(s, k) < s.len(),
        map_find(s, k) >= 0 ==> s[map_find(s, k)].0 == k,
    decreases s.len(),
{
    if s.len() > 0 {
        lemma_map_find_range(s.drop_last(), k);
    }
}

proof fn lemma_leaf_find_range(s: Seq<(u64, Seq<u8>)>, k: u64)
    ensures
        -1 <= leaf_find(s, k) < s.len(),
    decreases s.len(),
{
    if s.len() > 0 {
        lemma_leaf_find_range(s.drop_last(), k);
    }
}

fn find_key(m: &Vec<(Vec<Vec<u8>>, StackValue)>, k: &Vec<Vec<u8>>) -> (r: Option<usize>)
    ensures
        match r {
            Some(i) => i < m.len() && map_find(entries_view(*m), atoms_view(*k)) == i,
            None => map_find(entries_view(*m), atoms_view(*k)) == -1,
        },
{
    let ghost ev = entries_view(*m);
    let ghost kv = atoms_view(*k);
    assert(ev.subrange(0, m.len() as int) =~= ev);
    let mut i: usize = m.len();
    while i > 0
        invariant
            i <= m.len(),
            ev == entries_view(*m),
            kv == atoms_view(*k),
            map_find(ev, kv) == map_find(ev.subrange(0, i as int), kv),
        decreases i,
    {
        proof {
            lemma_map_find_prefix(ev, kv, i as int);
        }
        if atoms_eq(&m[i - 1].0, k) {
            return Some(i - 1);
        }
        i = i - 1;
    }
    None
}

fn find_leaf(l: &Vec<(u64, Vec<u8>)>, k: u64) -> (r: Option<usize>)
    ensures
        match r {
            Some(i) => i < l.len() && leaf_find(leaves_view(*l), k) == i,
            None => leaf_find(leaves_view(*l), k) == -1,
        },
{
    let ghost lv = leaves_view(*l);
    assert(lv.subrange(0, l.len() as int) =~= lv);
    let mut i: usize = l.len();
    while i > 0
        invariant
            i <= l.len(),
            lv == leaves_view(*l),
            leaf_find(lv, k) == leaf_find(lv.subrange(0, i as int), k),
        decreases i,
    {
        proof {
            lemma_leaf_find_prefix(lv, k, i as int);
        }
        if l[i - 1].0 == k {
            return Some(i - 1);
        }
        i = i - 1;
    }
    None
}

fn below_capacity(k: u64, h: u8) -> (r: bool)
    ensures
        r == (k < tree_capacity(h)),
{
    proof {
        vstd::arithmetic::power2::lemma2_to64();
        vstd::arithmetic::power2::lemma2_to64_rest();
    }
    if h >= 64 {
        proof {
            if h > 64 {
                vstd::arithmetic::power2::lemma_pow2_strictly_increases(64, h as nat);
            }
        }
        return true;
    }
    let mut cap: u128 = 1;
    let mut i: u8 = 0;
    while i < h
        invariant
            i <= h,
            h < 64,
            cap == vstd::arithmetic::power2::pow2(i as nat),
            vstd::arithmetic::power2::pow2(64) == 0x1_0000_0000_0000_0000,
        decreases h - i,
    {
        proof {
            vstd::arithmetic::power2::lemma_pow2_unfold((i + 1) as nat);
            if i + 1 < 64 {
                vstd::arithmetic::power2::lemma_pow2_strictly_increases((i + 1) as nat, 64);
            }
        }
        cap = cap * 2;
        i = i + 1;
    }
    (k as u128) < cap
}

fn exec_decode_u8(a: &Vec<Vec<u8>>) -> (r: Option<u8>)
    ensures
        r == decode_u8(atoms_view(*a)),
{
    match exec_decode_u64(a) {
        Some(x) => if x < 256 { Some(x as u8) } else { None },
        None => None,
    }
}

fn exec_decode_bool(a: &Vec<Vec<u8>>) -> (r: Option<bool>)
    ensures
        r == decode_bool(atoms_view(*a)),
{
    match exec_decode_u64(a) {
        Some(x) => if x == 0 { Some(false) } else if x == 1 { Some(true) } else { None },
        None => None,
    }
}

fn single_atom(b: Vec<u8>) -> (r: Vec<Vec<u8>>)
    ensures
        atoms_view(r) == seq![b@],
{
    let mut r: Vec<Vec<u8>> = Vec::new();
    r.push(b);
    assert(atoms_view(r) =~= seq![b@]);
    r
}

fn exec_idx_one(curr: &VmValue, key: &Vec<Vec<u8>>, miss: bool) -> (r: Result<VmValue, VmError>)
    ensures
        entry_result(r) == idx_one(entry_view(*curr), atoms_view(*key), miss),
{
    proof {
        lemma_val_of_containers(curr.value);
    }
    match &curr.value {
        StackValue::Array(a) => match exec_decode_u8(key) {
            None => Err(VmError::InvalidDecode),
            Some(i) => if i as usize >= a.len() {
                Err(VmError::TypeError)
            } else if miss {
                Err(VmError::CacheMiss)
            } else {
                Ok(VmValue { strength: curr.strength, value: copy_value(&a[i as usize]) })
            },
        },
        StackValue::Mapping(m) => if miss {
            Err(VmError::CacheMiss)
        } else {
            match find_key(m, key) {
                Some(j) => Ok(VmValue { strength: curr.strength, value: copy_value(&m[j].1) }),
                None => Ok(VmValue { strength: curr.strength, value: StackValue::Null }),
            }
        },
        StackValue::MerkleTree(h, l) => match exec_decode_u64(key) {
            None => Err(VmError::InvalidDecode),
            Some(i) => if !below_capacity(i, *h) {
                Err(VmError::MissingKey)
            } else {
                match find_leaf(l, i) {
                    Some(j) => {
                        let c = single_atom(copy_bytes(&l[j].1));
                        Ok(VmValue { strength: curr.strength, value: StackValue::Cell(c) })
                    },
                    None => Ok(VmValue { strength: curr.strength, value: StackValue::Null }),
                }
            },
        },
        _ => Err(VmError::TypeError),
    }
}

fn exec_ins_one(container: StackValue, key: &Vec<Vec<u8>>, value: StackValue) -> (r: Result<StackValue, VmError>)
    ensures
        val_result(r) == ins_one(val_of(container), atoms_view(*key), val_of(value)),
{
    proof {
        lemma_val_of_containers(container);
    }
    match container {
        StackValue::Array(mut a) => match exec_decode_u8(key) {
            None => Err(VmError::InvalidDecode),
            Some(i) => if i as usize >= a.len() {
                Err(VmError::TypeError)
            } else {
                let ghost old_a = a;
                a.set(i as usize, value);
                let r = StackValue::Array(a);
                proof {
                    lemma_val_of_containers(r);
                    assert(elems_view(a) =~= elems_view(old_a).update(i as int, val_of(value)));
                }
                Ok(r)
            },
        },
        StackValue::Mapping(mut m) => {
            let ghost old_m = m;
            let k = copy_atoms(key);
            match find_key(&m, key) {
                Some(j) => {
                    m.set(j, (k, value));
                },
                None => {
                    m.push((k, value));
                },
            }
            let r = StackValue::Mapping(m);
            proof {
                lemma_val_of_containers(r);
                assert(entries_view(m) =~= map_insert(entries_view(old_m), atoms_view(*key), val_of(value)));
            }
            Ok(r)
        },
        StackValue::MerkleTree(h, mut l) => match exec_decode_u64(key) {
            None => Err(VmError::InvalidDecode),
            Some(i) => if !below_capacity(i, h) {
                Err(VmError::BoundsExceeded)
            } else {
                match value {
                    StackValue::Cell(c) => if c.len() == 1 {
                        let ghost old_l = l;
                        let b = copy_bytes(&c[0]);
                        match find_leaf(&l, i) {
                            Some(j) => {
                                l.set(j, (i, b));
                            },
                            None => {
                                l.push((i, b));
                            },
                        }
                        proof {
                            assert(atoms_view(c)[0] == c@[0]@);
                            assert(leaves_view(l) =~= leaf_set(leaves_view(old_l), i, atoms_view(c)[0]));
                        }
                        Ok(StackValue::MerkleTree(h, l))
                    } else {
                        Err(VmError::TypeError)
                    },
                    _ => Err(VmError::TypeError),
                }
            },
        },
        _ => Err(VmError::TypeError),
    }
}

/// What one instruction did to the stack and the events, against `spec_op`.
pub open spec fn op_outcome(
    st: Seq<VmValue>,
    ev: Seq<StackValue>,
    op: Op,
    out: Outside,
    r: Result<usize, VmError>,
    st2: Seq<VmValue>,
    ev2: Seq<StackValue>,
) -> bool {
    match spec_op(stack_view(st), events_view(ev), op, out) {
        Ok((s, e, x)) => r == Ok::<usize, VmError>(x as usize) && stack_view(st2) == s && events_view(ev2) == e,
        Err(e) => r == Err::<usize, VmError>(e),
    }
}

proof fn lemma_kind(v: StackValue)
    ensures
        v is Null <==> val_of(v) is Null,
        v is Cell <==> val_of(v) is Cell,
        v is Mapping <==> val_of(v) is Mapping,
        v is Array <==> val_of(v) is Array,
        v is MerkleTree <==> val_of(v) is Tree,
        v matches StackValue::Cell(c) ==> val_of(v) == Val::Cell(atoms_view(c)),
        v matches StackValue::MerkleTree(h, l) ==> val_of(v) == Val::Tree(h, leaves_view(l)),
        v matches StackValue::Mapping(m) ==> val_of(v) == Val::Mapping(entries_view(m)),
        v matches StackValue::Array(a) ==> val_of(v) == Val::Array(elems_view(a)),
{
    lemma_val_of_containers(v);
}

fn and_strength(a: ValueStrength, b: ValueStrength) -> (r: ValueStrength)
    ensures
        r == strength_and(a, b),
{
    match (a, b) {
        (ValueStrength::Strong, ValueStrength::Strong) => ValueStrength::Strong,
        _ => ValueStrength::Weak,
    }
}

fn pop_entry(stack: &mut Vec<VmValue>) -> (e: VmValue)
    requires
        old(stack).len() >= 1,
    ensures
        final(stack)@ == old(stack)@.drop_last(),
        e == old(stack)@.last(),
{
    stack.pop().unwrap()
}

fn pop2(stack: &mut Vec<VmValue>) -> (r: (VmValue, VmValue))
    requires
        old(stack).len() >= 2,
    ensures
        final(stack)@ == old(stack)@.subrange(0, old(stack).len() - 2),
        r.0 == old(stack)@.last(),
        r.1 == old(stack)@[old(stack).len() - 2],
{
    let a = stack.pop().unwrap();
    let b = stack.pop().unwrap();
    assert(stack@ =~= old(stack)@.subrange(0, old(stack).len() - 2));
    (a, b)
}

fn strong_cell_value(c: Vec<Vec<u8>>) -> (r: VmValue)
    ensures
        entry_view(r) == strong_cell(atoms_view(c)),
{
    VmValue { strength: ValueStrength::Strong, value: StackValue::Cell(c) }
}

fn concat_atoms(x: &Vec<Vec<u8>>, y: &Vec<Vec<u8>>) -> (r: Vec<Vec<u8>>)
    ensures
        atoms_view(r) == atoms_view(*x) + atoms_view(*y),
{
    let mut r = copy_atoms(x);
    let mut i: usize = 0;
    while i < y.len()
        invariant
            i <= y.len(),
            atoms_view(r) == atoms_view(*x) + atoms_view(*y).subrange(0, i as int),
        decreases y.len() - i,
    {
        let b = copy_bytes(&y[i]);
        let ghost before = r;
        r.push(b);
        proof {
            assert(atoms_view(r) =~= atoms_view(before).push(y@[i as int]@));
            assert(atoms_view(*y).subrange(0, i + 1) =~= atoms_view(*y).subrange(0, i as int).push(y@[i as int]@));
            assert(atoms_view(r) =~= atoms_view(*x) + atoms_view(*y).subrange(0, i + 1));
        }
        i = i + 1;
    }
    assert(atoms_view(*y).subrange(0, y.len() as int) =~= atoms_view(*y));
    r
}

/// The instructions that take two entries.
fn run_binary(stack: &mut Vec<VmValue>, events: &mut Vec<StackValue>, op: &Op, out: &Outside) -> (r: Result<usize, VmError>)
    requires
        old(stack).len() >= 2,
        *op is Lt || *op is Eq || *op is And || *op is Or || *op is Add || *op is Sub || *op is Concat
            || *op is Member,
    ensures
        op_outcome(old(stack)@, old(events)@, *op, *out, r, final(stack)@, final(events)@),
        r is Ok ==> final(stack)@.len() + 1 == old(stack)@.len(),
{
    broadcast use group_vm_views;
    let ghost st0 = stack@;
    let ghost n = st0.len();
    if let Op::Concat { n: bound } = op {
        if *bound > CELL_BOUND {
            return Err(VmError::CellBoundExceeded);
        }
    }
    let (a, b) = pop2(stack);
    proof {
        lemma_kind(a.value);
        lemma_kind(b.value);
        assert(stack_view(st0).last() == entry_view(a));
        assert(stack_view(st0)[n - 2] == entry_view(b));
    }
    match op {
        Op::Lt => {
            let ca = match &a.value {
                StackValue::Cell(c) => c,
                _ => { return Err(VmError::TypeError); },
            };
            let cb = match &b.value {
                StackValue::Cell(c) => c,
                _ => { return Err(VmError::TypeError); },
            };
            match (exec_decode_u64(cb), exec_decode_u64(ca)) {
                (Some(x), Some(y)) => {
                    stack.push(strong_cell_value(exec_encode_bool(x < y)));
                    Ok(0)
                },
                _ => Err(VmError::InvalidDecode),
            }
        },
        Op::Eq => {
            let ca = match &a.value {
                StackValue::Cell(c) => c,
                _ => { return Err(VmError::TypeError); },
            };
            let cb = match &b.value {
                StackValue::Cell(c) => c,
                _ => { return Err(VmError::TypeError); },
            };
            let va = out.top_size <= 64;
            let vb = out.second_size <= 64;
            if !va && !vb {
                return Err(VmError::TooLongForEqual);
            }
            let same = va && vb && atoms_eq(ca, cb);
            stack.push(strong_cell_value(exec_encode_bool(same)));
            Ok(0)
        },
        Op::And | Op::Or => {
            let ca = match &a.value {
                StackValue::Cell(c) => c,
                _ => { return Err(VmError::TypeError); },
            };
            let x = match exec_decode_bool(ca) {
                Some(x) => x,
                None => { return Err(VmError::InvalidDecode); },
            };
            let cb = match &b.value {
                StackValue::Cell(c) => c,
                _ => { return Err(VmError::TypeError); },
            };
            let y = match exec_decode_bool(cb) {
                Some(y) => y,
                None => { return Err(VmError::InvalidDecode); },
            };
            let v = if let Op::And = op { x && y } else { x || y };
            stack.push(strong_cell_value(exec_encode_bool(v)));
            Ok(0)
        },
        Op::Add | Op::Sub => {
            let ca = match &a.value {
                StackValue::Cell(c) => c,
                _ => { return Err(VmError::TypeError); },
            };
            let cb = match &b.value {
                StackValue::Cell(c) => c,
                _ => { return Err(VmError::TypeError); },
            };
            let is_add = if let Op::Add = op { true } else { false };
            let (first, second) = if is_add { (ca, cb) } else { (cb, ca) };
            let x = match exec_decode_u64(first) {
                Some(x) => x,
                None => { return Err(VmError::InvalidDecode); },
            };
            let y = match exec_decode_u64(second) {
                Some(y) => y,
                None => { return Err(VmError::InvalidDecode); },
            };
            let res = if is_add { x.checked_add(y) } else { x.checked_sub(y) };
            match res {
                Some(z) => {
                    stack.push(strong_cell_value(exec_encode_u64(z)));
                    Ok(0)
                },
                None => Err(VmError::ArithmeticOverflow),
            }
        },
        Op::Concat { n: bound } => {
            let ca = match &a.value {
                StackValue::Cell(c) => c,
                _ => { return Err(VmError::TypeError); },
            };
            let cb = match &b.value {
                StackValue::Cell(c) => c,
                _ => { return Err(VmError::TypeError); },
            };
            if (out.top_size as u128) + (out.second_size as u128) <= (*bound as u128) {
                stack.push(strong_cell_value(concat_atoms(cb, ca)));
                Ok(0)
            } else {
                Err(VmError::BoundsExceeded)
            }
        },
        _ => {
            let k = match &a.value {
                StackValue::Cell(c) => c,
                _ => { return Err(VmError::TypeError); },
            };
            match &b.value {
                StackValue::Mapping(m) => {
                    let found = find_key(m, k);
                    stack.push(strong_cell_value(exec_encode_bool(found.is_some())));
                    Ok(0)
                },
                _ => Err(VmError::TypeError),
            }
        },

    }
}

fn exec_type_tag(v: &StackValue) -> (r: u64)
    ensures
        r == type_tag(val_of(*v)),
{
    proof {
        lemma_kind(*v);
    }
    match v {
        StackValue::Cell(_) => 0,
        StackValue::Null => 1,
        StackValue::Mapping(_) => 2,
        StackValue::Array(a) => ((3 + 8 * ((a.len() % 256) as u64)) % 256),
        StackValue::MerkleTree(h, _) => ((4 + 8 * (if *h == 0 { 0 } else { *h as u64 - 1 })) % 256),
    }
}

fn exec_new_value(t: u8) -> (r: Option<StackValue>)
    ensures
        match r {
            Some(v) => new_value(t) == Some(val_of(v)),
            None => new_value(t) is None,
        },
{
    let tag = t % 8;
    let size = t / 8;
    if tag == 0 {
        let c: Vec<Vec<u8>> = Vec::new();
        assert(atoms_view(c) =~= Seq::empty());
        Some(StackValue::Cell(c))
    } else if tag == 1 {
        Some(StackValue::Null)
    } else if tag == 2 {
        let m: Vec<(Vec<Vec<u8>>, StackValue)> = Vec::new();
        let v = StackValue::Mapping(m);
        proof {
            lemma_kind(v);
            assert(entries_view(m) =~= Seq::empty());
        }
        Some(v)
    } else if tag == 3 {
        if size > 16 {
            None
        } else {
            let mut a: Vec<StackValue> = Vec::new();
            let mut i: u8 = 0;
            while i < size
                invariant
                    i <= size,
                    a@.len() == i,
                    forall|j: int| 0 <= j < i ==> #[trigger] a@[j] == StackValue::Null,
                decreases size - i,
            {
                a.push(StackValue::Null);
                i = i + 1;
            }
            let v = StackValue::Array(a);
            proof {
                lemma_kind(v);
                assert(elems_view(a) =~= Seq::new(size as nat, |i: int| Val::Null));
            }
            Some(v)
        }
    } else if tag == 4 {
        let l: Vec<(u64, Vec<u8>)> = Vec::new();
        assert(leaves_view(l) =~= Seq::empty());
        Some(StackValue::MerkleTree(size + 1, l))
    } else {
        None
    }
}

/// The instructions that take one entry.
fn run_unary(stack: &mut Vec<VmValue>, events: &mut Vec<StackValue>, op: &Op, out: &Outside) -> (r: Result<usize, VmError>)
    requires
        old(stack).len() >= 1,
        *op is Branch || *op is Type || *op is Size || *op is New || *op is Neg || *op is Log || *op is Root
            || *op is Pop || *op is Popeq || *op is Addi || *op is Subi,
    ensures
        op_outcome(old(stack)@, old(events)@, *op, *out, r, final(stack)@, final(events)@),
        r is Ok ==> final(stack)@.len() + (if *op is Branch || *op is Log || *op is Pop || *op is Popeq { 1int } else { 0int })
            == old(stack)@.len(),
{
    broadcast use group_vm_views;
    let ghost st0 = stack@;
    if let Op::Log = op {
        if out.top_size > MAX_LOG_SIZE {
            return Err(VmError::LogBoundExceeded);
        }
    }
    let a = pop_entry(stack);
    proof {
        lemma_kind(a.value);
        assert(stack_view(st0).last() == entry_view(a));
    }
    match op {
        Op::Branch { skip } => match &a.value {
            StackValue::Cell(c) => {
                if c.len() == 1 && c[0].len() == 0 {
                    Ok(0)
                } else {
                    Ok(*skip as usize)
                }
            },
            _ => Err(VmError::TypeError),
        },
        Op::Type => {
            let t = exec_type_tag(&a.value);
            stack.push(strong_cell_value(exec_encode_u64(t)));
            Ok(0)
        },
        Op::Size => {
            let size: u64 = match &a.value {
                StackValue::Mapping(m) => m.len() as u64,
                StackValue::MerkleTree(h, _) => *h as u64,
                StackValue::Array(x) => x.len() as u64,
                _ => { return Err(VmError::TypeError); },
            };
            stack.push(strong_cell_value(exec_encode_u64(size)));
            Ok(0)
        },
        Op::New => {
            let c = match &a.value {
                StackValue::Cell(c) => c,
                _ => { return Err(VmError::TypeError); },
            };
            let t = match exec_decode_u8(c) {
                Some(t) => t,
                None => { return Err(VmError::InvalidDecode); },
            };
            match exec_new_value(t) {
                Some(v) => {
                    stack.push(VmValue { strength: ValueStrength::Strong, value: v });
                    Ok(0)
                },
                None => Err(VmError::InvalidArgs),
            }
        },
        Op::Neg => {
            let c = match &a.value {
                StackValue::Cell(c) => c,
                _ => { return Err(VmError::TypeError); },
            };
            match exec_decode_bool(c) {
                Some(x) => {
                    stack.push(strong_cell_value(exec_encode_bool(!x)));
                    Ok(0)
                },
                None => Err(VmError::InvalidDecode),
            }
        },
        Op::Log => {
            events.push(a.value);
            Ok(0)
        },
        Op::Root => match &a.value {
            StackValue::MerkleTree(..) => {
                let c = single_atom(copy_bytes(&out.root));
                stack.push(strong_cell_value(c));
                Ok(0)
            },
            _ => Err(VmError::TypeError),
        },
        Op::Pop => Ok(0),
        Op::Popeq => match &a.value {
            StackValue::Cell(_) => {
                events.push(a.value);
                Ok(0)
            },
            _ => Err(VmError::TypeError),
        },
        Op::Addi { immediate } => {
            let c = match &a.value {
                StackValue::Cell(c) => c,
                _ => { return Err(VmError::TypeError); },
            };
            match exec_decode_u64(c) {
                Some(x) => match x.checked_add(*immediate as u64) {
                    Some(z) => {
                        stack.push(strong_cell_value(exec_encode_u64(z)));
                        Ok(0)
                    },
                    None => Err(VmError::ArithmeticOverflow),
                },
                None => Err(VmError::InvalidDecode),
            }
        },
        _ => {
            let immediate = match op {
                Op::Subi { immediate } => *immediate,
                _ => 0,
            };
            let c = match &a.value {
                StackValue::Cell(c) => c,
                _ => { return Err(VmError::TypeError); },
            };
            match exec_decode_u64(c) {
                Some(x) => match x.checked_sub(immediate as u64) {
                    Some(z) => {
                        stack.push(strong_cell_value(exec_encode_u64(z)));
                        Ok(0)
                    },
                    None => Err(VmError::ArithmeticOverflow),
                },
                None => Err(VmError::InvalidDecode),
            }
        },
    }
}

/// The instructions that take no entry, or copy and reorder entries.
fn run_other(stack: &mut Vec<VmValue>, events: &mut Vec<StackValue>, op: &Op, out: &Outside) -> (r: Result<usize, VmError>)
    requires
        old(stack).len() >= stack_req(*op),
        *op is Noop || *op is Ckpt || *op is Jmp || *op is Push || *op is Dup || *op is Swap,
    ensures
        op_outcome(old(stack)@, old(events)@, *op, *out, r, final(stack)@, final(events)@),
        r is Ok ==> final(stack)@.len() == old(stack)@.len() + (if *op is Push || *op is Dup { 1int } else { 0int }),
{
    broadcast use group_vm_views;
    let ghost st0 = stack@;
    match op {
        Op::Noop { .. } | Op::Ckpt => Ok(0),
        Op::Jmp { skip } => Ok(*skip as usize),
        Op::Push { storage, value } => {
            let strength = if *storage { ValueStrength::Strong } else { ValueStrength::Weak };
            stack.push(VmValue { strength, value: copy_value(value) });
            Ok(0)
        },
        Op::Dup { n } => {
            let len = stack.len();
            let e = copy_entry(&stack[len - 1 - *n as usize]);
            stack.push(e);
            Ok(0)
        },
        _ => {
            let k = match op {
                Op::Swap { n } => *n as usize,
                _ => 0,
            };
            let len = stack.len();
            let j = len - 2 - k;
            let top = pop_entry(stack);
            let other = stack.remove(j);
            stack.insert(j, top);
            stack.push(other);
            proof {
                assert(stack@ =~= st0.update(len - 1, st0[j as int]).update(j as int, st0[len - 1]));
                assert(stack_view(stack@) =~= stack_view(st0).update(len - 1, stack_view(st0)[j as int]).update(j as int, stack_view(st0)[len - 1]));
            }
            Ok(0)
        },
    }
}

proof fn lemma_stack_keys_prefix(path: Seq<Key>, i: int)
    requires
        0 <= i < path.len(),
    ensures
        stack_keys(path.subrange(0, i + 1)) == stack_keys(path.subrange(0, i)) + if path[i] is Stack { 1nat } else { 0nat },
{
    assert(path.subrange(0, i + 1).drop_last() =~= path.subrange(0, i));
}

proof fn lemma_stack_keys_mono(path: Seq<Key>, i: int)
    requires
        0 <= i <= path.len(),
    ensures
        stack_keys(path.subrange(0, i)) <= stack_keys(path),
        stack_keys(path) <= path.len(),
    decreases path.len() - i,
{
    if i < path.len() {
        lemma_stack_keys_prefix(path, i);
        lemma_stack_keys_mono(path, i + 1);
    } else {
        assert(path.subrange(0, i) =~= path);
        lemma_stack_keys_len(path);
    }
}

proof fn lemma_stack_keys_len(path: Seq<Key>)
    ensures
        stack_keys(path) <= path.len(),
    decreases path.len(),
{
    if path.len() > 0 {
        lemma_stack_keys_len(path.drop_last());
    }
}

fn count_stack_keys(path: &Vec<Key>) -> (r: usize)
    ensures
        r == stack_keys(path@),
{
    let mut c: usize = 0;
    let mut i: usize = 0;
    while i < path.len()
        invariant
            i <= path.len(),
            c == stack_keys(path@.subrange(0, i as int)),
            c <= i,
        decreases path.len() - i,
    {
        proof {
            lemma_stack_keys_prefix(path@, i as int);
        }
        if let Key::Stack = &path[i] {
            c = c + 1;
        }
        i = i + 1;
    }
    assert(path@.subrange(0, path.len() as int) =~= path@);
    c
}

fn stack_holds(op: &Op, len: usize) -> (r: bool)
    ensures
        r == (len >= stack_req(*op)),
{
    match op {
        Op::Noop { .. } | Op::Push { .. } | Op::Jmp { .. } | Op::Ckpt => true,
        Op::Type | Op::Size | Op::New | Op::Neg | Op::Log | Op::Root | Op::Pop | Op::Popeq
        | Op::Addi { .. } | Op::Subi { .. } | Op::Branch { .. } => len >= 1,
        Op::Lt | Op::Eq | Op::And | Op::Or | Op::Add | Op::Sub | Op::Concat { .. } | Op::Member
        | Op::Rem { .. } => len >= 2,
        Op::Dup { n } => len > *n as usize,
        Op::Swap { n } => len >= 2 && len - 2 >= *n as usize,
        Op::Idx { path, .. } => len >= 1 && len - 1 >= count_stack_keys(path),
        Op::Ins { n, .. } => len >= 2 * (*n as usize) + 1,
    }
}

/// What an instruction did to the stack, its cache keys, the cache and the
/// events, against `spec_op_full`.
pub open spec fn full_outcome(
    st: Seq<VmValue>,
    ks: Seq<Option<CacheKey>>,
    cs: Seq<CacheRoot>,
    ev: Seq<StackValue>,
    op: Op,
    out: Outside,
    r: Result<usize, VmError>,
    st2: Seq<VmValue>,
    ks2: Seq<Option<CacheKey>>,
    cs2: Seq<CacheRoot>,
    ev2: Seq<StackValue>,
) -> bool {
    let v = VmView { stack: stack_view(st), keys: keys_view(ks), cache: cache_view(cs), events: events_view(ev), pc: 0 };
    match spec_op_full(v, op, out) {
        Ok((s, k, c, e, x)) => r == Ok::<usize, VmError>(x as usize) && stack_view(st2) == s && keys_view(ks2) == k
            && cache_view(cs2) == c && events_view(ev2) == e && st2.len() == ks2.len(),
        Err(e) => r == Err::<usize, VmError>(e),
    }
}

fn pop_key(keys: &mut Vec<Option<CacheKey>>) -> (k: Option<CacheKey>)
    requires
        old(keys).len() >= 1,
    ensures
        final(keys)@ == old(keys)@.drop_last(),
        k == old(keys)@.last(),
{
    keys.pop().unwrap()
}

fn run_rem(
    stack: &mut Vec<VmValue>,
    keys: &mut Vec<Option<CacheKey>>,
    cache: &mut Vec<CacheRoot>,
    events: &mut Vec<StackValue>,
    op: &Op,
    out: &Outside,
) -> (r: Result<usize, VmError>)
    requires
        old(stack).len() >= 2,
        old(keys).len() == old(stack).len(),
        *op is Rem,
    ensures
        full_outcome(old(stack)@, old(keys)@, old(cache)@, old(events)@, *op, *out, r, final(stack)@, final(keys)@, final(cache)@, final(events)@),
{
    broadcast use group_vm_views;
    let ghost st0 = stack@;
    let ghost k0 = keys@;
    let ghost n = st0.len();
    let cached = match op {
        Op::Rem { cached } => *cached,
        _ => false,
    };
    let (a, b) = pop2(stack);
    let _ak = pop_key(keys);
    let bk = pop_key(keys);
    proof {
        lemma_kind(a.value);
        lemma_kind(b.value);
        assert(stack_view(st0).last() == entry_view(a));
        assert(stack_view(st0)[n - 2] == entry_view(b));
        assert(keys_view(k0)[n - 2] == key_view(bk));
        assert(keys@ =~= k0.subrange(0, n - 2));
    }
    let k = match &a.value {
        StackValue::Cell(c) => c,
        _ => { return Err(VmError::TypeError); },
    };
    let nk = exec_push_key(&bk, k);
    let hit = exec_visit(cache, &nk);
    if cached && !hit {
        return Err(VmError::CacheMiss);
    }
    let bs = b.strength;
    match b.value {
        StackValue::Mapping(mut m) => {
            let ghost old_m = m;
            match find_key(&m, k) {
                Some(j) => {
                    m.remove(j);
                },
                None => {},
            }
            let nv = StackValue::Mapping(m);
            proof {
                lemma_kind(nv);
                assert(entries_view(m) =~= map_remove(entries_view(old_m), atoms_view(*k)));
            }
            stack.push(VmValue { strength: bs, value: nv });
            keys.push(bk);
            Ok(0)
        },
        StackValue::MerkleTree(h, mut l) => match exec_decode_u64(k) {
            None => Err(VmError::InvalidDecode),
            Some(i) => if !below_capacity(i, h) {
                Err(VmError::MerkleTreeError)
            } else {
                let ghost old_l = l;
                match find_leaf(&l, i) {
                    Some(j) => {
                        l.set(j, (i, Vec::new()));
                    },
                    None => {
                        l.push((i, Vec::new()));
                    },
                }
                proof {
                    assert(leaves_view(l) =~= leaf_set(leaves_view(old_l), i, Seq::empty()));
                }
                stack.push(VmValue { strength: bs, value: StackValue::MerkleTree(h, l) });
                keys.push(bk);
                Ok(0)
            },
        },
        _ => Err(VmError::TypeError),
    }
}

fn run_idx(
    stack: &mut Vec<VmValue>,
    keys: &mut Vec<Option<CacheKey>>,
    cache: &mut Vec<CacheRoot>,
    events: &mut Vec<StackValue>,
    op: &Op,
    out: &Outside,
) -> (r: Result<usize, VmError>)
    requires
        old(stack).len() >= stack_req(*op),
        old(keys).len() == old(stack).len(),
        *op is Idx,
    ensures
        full_outcome(old(stack)@, old(keys)@, old(cache)@, old(events)@, *op, *out, r, final(stack)@, final(keys)@, final(cache)@, final(events)@),
{
    broadcast use group_vm_views;
    let ghost st0 = stack@;
    let ghost k0 = keys@;
    let ghost c0 = cache@;
    let ghost ev0 = events@;
    let ghost n = st0.len() as int;
    let (cached, push_path, path) = match op {
        Op::Idx { cached, push_path, path } => (*cached, *push_path, path),
        _ => { return Ok(0); },
    };
    let m = count_stack_keys(path);
    let mut kvals: Vec<VmValue> = Vec::new();
    let mut j: usize = 0;
    while j < m
        invariant
            j <= m,
            n == st0.len(),
            n >= m + 1,
            k0.len() == n,
            kvals@.len() == j,
            stack@ == st0.subrange(0, n - j),
            keys@ == k0.subrange(0, n - j),
            forall|t: int| 0 <= t < j ==> #[trigger] kvals@[t] == st0[n - 1 - t],
        decreases m - j,
    {
        let e = pop_entry(stack);
        let _ = pop_key(keys);
        kvals.push(e);
        j = j + 1;
        assert(stack@ =~= st0.subrange(0, n - j));
        assert(keys@ =~= k0.subrange(0, n - j));
    }
    let mut curr = pop_entry(stack);
    let mut ckey = pop_key(keys);
    assert(stack@ =~= st0.subrange(0, n - 1 - m));
    assert(keys@ =~= k0.subrange(0, n - 1 - m));
    let ghost target = idx_walk(
        stack_view(st0).subrange(0, n - 1 - m),
        keys_view(k0).subrange(0, n - 1 - m),
        cache_view(c0),
        stack_view(st0)[n - 1 - m],
        keys_view(k0)[n - 1 - m],
        idx_keys(stack_view(st0), m as int),
        path@,
        0,
        push_path,
        cached,
    );
    proof {
        assert(stack_view(kvals@).subrange(0, m as int) =~= idx_keys(stack_view(st0), m as int));
    }
    let mut i: usize = 0;
    let mut ki: usize = 0;
    while i < path.len()
        invariant
            i <= path.len(),
            ki <= m,
            m == stack_keys(path@),
            kvals@.len() == m,
            ki == stack_keys(path@.subrange(0, i as int)),
            events@ == ev0,
            st0 == old(stack)@,
            k0 == old(keys)@,
            c0 == old(cache)@,
            ev0 == old(events)@,
            stack@.len() == keys@.len(),
            spec_op_full(VmView { stack: stack_view(st0), keys: keys_view(k0), cache: cache_view(c0), events: events_view(ev0), pc: 0 }, *op, *out)
                == walk_end(target, events_view(ev0)),
            target == idx_walk(
                stack_view(stack@),
                keys_view(keys@),
                cache_view(cache@),
                entry_view(curr),
                key_view(ckey),
                stack_view(kvals@).subrange(ki as int, m as int),
                path@,
                i as int,
                push_path,
                cached,
            ),
        decreases path.len() - i,
    {
        proof {
            lemma_stack_keys_prefix(path@, i as int);
            lemma_stack_keys_mono(path@, i + 1);
        }
        let ghost rest0 = stack_view(kvals@).subrange(ki as int, m as int);
        let k = match &path[i] {
            Key::Stack => {
                let e = copy_entry(&kvals[ki]);
                ki = ki + 1;
                proof {
                    assert(rest0[0] == entry_view(kvals@[ki - 1]));
                    assert(rest0.drop_first() =~= stack_view(kvals@).subrange(ki as int, m as int));
                }
                e
            },
            Key::Value(v) => VmValue { strength: ValueStrength::Weak, value: StackValue::Cell(copy_atoms(v)) },
        };
        proof {
            lemma_kind(k.value);
        }
        let ghost sv0 = stack_view(stack@);
        let ghost kv0 = keys_view(keys@);
        let ghost cv0 = entry_view(curr);
        let ghost ck0 = key_view(ckey);
        let ghost cc0 = cache_view(cache@);
        let ghost rest1 = stack_view(kvals@).subrange(ki as int, m as int);
        proof {
            match path@[i as int] {
                Key::Stack => {
                    assert(entry_view(k) == rest0[0]);
                    assert(rest1 == rest0.drop_first());
                },
                Key::Value(v) => {
                    assert(entry_view(k) == (ValueStrength::Weak, Val::Cell(atoms_view(v))));
                    assert(rest1 == rest0);
                },
            }
        }
        if push_path {
            let c = copy_entry(&curr);
            stack.push(c);
            keys.push(copy_key(&ckey));
            let k2 = copy_entry(&k);
            stack.push(k2);
            keys.push(None);
        }
        match &k.value {
            StackValue::Cell(kc) => {
                let nk = exec_push_key(&ckey, kc);
                let hit = exec_visit(cache, &nk);
                match exec_idx_one(&curr, kc, cached && !hit) {
                    Ok(c2) => {
                        curr = c2;
                        ckey = nk;
                        proof {
                            let sv2 = if push_path { sv0.push(cv0).push(entry_view(k)) } else { sv0 };
                            let kv2 = if push_path { kv0.push(ck0).push(None) } else { kv0 };
                            assert(stack_view(stack@) == sv2);
                            assert(keys_view(keys@) == kv2);
                            assert(idx_walk(sv0, kv0, cc0, cv0, ck0, rest0, path@, i as int, push_path, cached)
                                == idx_walk(sv2, kv2, cache_view(cache@), entry_view(curr), key_view(ckey), rest1, path@, i + 1, push_path, cached));
                        }
                    },
                    Err(e) => {
                        return Err(e);
                    },
                }
            },
            _ => {
                return Err(VmError::TypeError);
            },
        }
        i = i + 1;
    }
    stack.push(curr);
    keys.push(ckey);
    Ok(0)
}

fn run_ins(
    stack: &mut Vec<VmValue>,
    keys: &mut Vec<Option<CacheKey>>,
    cache: &mut Vec<CacheRoot>,
    events: &mut Vec<StackValue>,
    op: &Op,
    out: &Outside,
) -> (r: Result<usize, VmError>)
    requires
        old(stack).len() >= stack_req(*op),
        old(keys).len() == old(stack).len(),
        *op is Ins,
    ensures
        full_outcome(old(stack)@, old(keys)@, old(cache)@, old(events)@, *op, *out, r, final(stack)@, final(keys)@, final(cache)@, final(events)@),
{
    broadcast use group_vm_views;
    let ghost st0 = stack@;
    let ghost k0 = keys@;
    let ghost c0 = cache@;
    let ghost ev0 = events@;
    let (cached, n) = match op {
        Op::Ins { cached, n } => (*cached, *n),
        _ => (false, 0),
    };
    let mut curr = pop_entry(stack);
    let mut ckey = pop_key(keys);
    let ghost target = ins_walk(stack_view(st0).drop_last(), keys_view(k0).drop_last(), cache_view(c0), stack_view(st0).last(), keys_view(k0).last(), n as nat, cached);
    let mut j: u8 = 0;
    while j < n
        invariant
            j <= n,
            stack@.len() >= 2 * (n - j),
            stack@.len() == keys@.len(),
            events@ == ev0,
            st0 == old(stack)@,
            k0 == old(keys)@,
            c0 == old(cache)@,
            ev0 == old(events)@,
            spec_op_full(VmView { stack: stack_view(st0), keys: keys_view(k0), cache: cache_view(c0), events: events_view(ev0), pc: 0 }, *op, *out)
                == walk_end(target, events_view(ev0)),
            target == ins_walk(stack_view(stack@), keys_view(keys@), cache_view(cache@), entry_view(curr), key_view(ckey), (n - j) as nat, cached),
        decreases n - j,
    {
        let ghost sv = stack_view(stack@);
        let ghost kv = keys_view(keys@);
        let key = pop_entry(stack);
        let _ = pop_key(keys);
        let container = pop_entry(stack);
        let ck = pop_key(keys);
        proof {
            lemma_kind(key.value);
            lemma_kind(container.value);
            assert(sv.last() == entry_view(key));
            assert(sv[sv.len() - 2] == entry_view(container));
            assert(kv[sv.len() - 2] == key_view(ck));
            assert(stack_view(stack@) =~= sv.subrange(0, sv.len() - 2));
            assert(keys_view(keys@) =~= kv.subrange(0, sv.len() - 2));
        }
        let cs = curr.strength;
        let ks = container.strength;
        match &key.value {
            StackValue::Cell(kc) => {
                let nk = exec_push_key(&ck, kc);
                let hit = exec_visit(cache, &nk);
                let is_array = match &container.value {
                    StackValue::Array(_) => true,
                    _ => false,
                };
                if cached && !hit && !is_array {
                    return Err(VmError::CacheMiss);
                }
                match exec_ins_one(container.value, kc, curr.value) {
                    Ok(next) => {
                        curr = VmValue { strength: and_strength(cs, ks), value: next };
                        ckey = ck;
                    },
                    Err(e) => {
                        return Err(e);
                    },
                }
            },
            _ => {
                return Err(VmError::TypeError);
            },
        }
        j = j + 1;
    }
    stack.push(curr);
    keys.push(ckey);
    Ok(0)
}

/// The cache keys after an instruction other than `idx`, `ins` and `rem`
/// (see `plain_keys`).
fn apply_plain_keys(keys: &mut Vec<Option<CacheKey>>, op: &Op)
    requires
        old(keys).len() >= stack_req(*op),
        !(*op is Idx || *op is Ins || *op is Rem),
    ensures
        keys_view(final(keys)@) == plain_keys(keys_view(old(keys)@), *op),
        final(keys)@.len() == old(keys)@.len() + (if *op is Push || *op is Dup { 1int } else if *op is Noop || *op is Ckpt
            || *op is Jmp || *op is Swap { 0int } else if *op is Branch || *op is Log || *op is Pop || *op is Popeq {
            -1int
        } else if *op is Type || *op is Size || *op is New || *op is Neg || *op is Root || *op is Addi || *op is Subi {
            0int
        } else {
            -1int
        }),
{
    broadcast use group_vm_views;
    let ghost k0 = keys@;
    let len = keys.len();
    match op {
        Op::Noop { .. } | Op::Ckpt | Op::Jmp { .. } => {},
        Op::Branch { .. } | Op::Log | Op::Pop | Op::Popeq => {
            let _ = pop_key(keys);
        },
        Op::Type | Op::Size | Op::New | Op::Neg | Op::Root | Op::Addi { .. } | Op::Subi { .. } => {
            let _ = pop_key(keys);
            keys.push(None);
        },
        Op::Push { .. } => {
            keys.push(None);
        },
        Op::Dup { n } => {
            let k = copy_key(&keys[len - 1 - *n as usize]);
            keys.push(k);
        },
        Op::Swap { n } => {
            let j = len - 2 - *n as usize;
            let top = pop_key(keys);
            let other = keys.remove(j);
            keys.insert(j, top);
            keys.push(other);
            proof {
                assert(keys@ =~= k0.update(len - 1, k0[j as int]).update(j as int, k0[len - 1]));
                assert(keys_view(keys@) =~= keys_view(k0).update(len - 1, keys_view(k0)[j as int]).update(j as int, keys_view(k0)[len - 1]));
            }
        },
        _ => {
            let _ = pop_key(keys);
            let _ = pop_key(keys);
            keys.push(None);
            assert(keys@ =~= k0.subrange(0, len - 2).push(None));
        },
    }
}

/// Runs the instruction at `pc`: the stack, its cache keys, the cache and
/// the events change as the instruction says, and control moves past it
/// and past the instructions it skips. Where the serialized size of a
/// topmost value or the root of a topmost tree matters, `outside` gives it.
pub fn step(state: VmState, program: &Vec<Op>, outside: &Outside) -> (r: Result<VmState, VmError>)
    requires
        state@.wf(),
    ensures
        view_result(r) == spec_step(state@, program@, *outside),
        r matches Ok(s) ==> s@.wf(),
{
    let VmState { mut stack, mut keys, mut cache, mut events, pc } = state;
    if pc >= program.len() {
        return Err(VmError::ProgramEnded);
    }
    let op = &program[pc];
    if !stack_holds(op, stack.len()) {
        return Err(VmError::RanOffStack);
    }
    let res = match op {
        Op::Idx { .. } => run_idx(&mut stack, &mut keys, &mut cache, &mut events, op, outside),
        Op::Ins { .. } => run_ins(&mut stack, &mut keys, &mut cache, &mut events, op, outside),
        Op::Rem { .. } => run_rem(&mut stack, &mut keys, &mut cache, &mut events, op, outside),
        Op::Lt | Op::Eq | Op::And | Op::Or | Op::Add | Op::Sub | Op::Concat { .. } | Op::Member => {
            let r = run_binary(&mut stack, &mut events, op, outside);
            if r.is_ok() {
                apply_plain_keys(&mut keys, op);
            }
            r
        },
        Op::Branch { .. } | Op::Type | Op::Size | Op::New | Op::Neg | Op::Log | Op::Root | Op::Pop
        | Op::Popeq | Op::Addi { .. } | Op::Subi { .. } => {
            let r = run_unary(&mut stack, &mut events, op, outside);
            if r.is_ok() {
                apply_plain_keys(&mut keys, op);
            }
            r
        },
        _ => {
            let r = run_other(&mut stack, &mut events, op, outside);
            if r.is_ok() {
                apply_plain_keys(&mut keys, op);
            }
            r
        },
    };
    match res {
        Err(e) => Err(e),
        Ok(extra) => {
            if extra >= program.len() - pc {
                Err(VmError::RanPastProgramEnd)
            } else if stack.len() > MAX_STACK_HEIGHT {
                Err(VmError::StackOverflow)
            } else {
                Ok(VmState { stack, keys, cache, events, pc: pc + 1 + extra })
            }
        },
    }
}

/// At most `limit` steps from `s`, each with the next of `outs`, stopping
/// early when the program ends or `outs` runs out.
pub open spec fn spec_run(s: VmView, program: Seq<Op>, outs: Seq<Outside>, limit: nat) -> Result<VmView, VmError>
    decreases limit,
{
    if s.pc < 0 || s.pc >= program.len() || limit == 0 || outs.len() == 0 {
        Ok(s)
    } else {
        match spec_step(s, program, outs[0]) {
            Ok(s2) => spec_run(s2, program, outs.drop_first(), (limit - 1) as nat),
            Err(e) => Err(e),
        }
    }
}

/// What a run leaves: the stack, and the values logged or read in order.
pub struct VmResults {
    pub stack: Vec<VmValue>,
    pub events: Vec<StackValue>,
}

/// A run's results against its mathematical outcome.
pub open spec fn results_match(r: Result<VmResults, VmError>, s: Result<VmView, VmError>) -> bool {
    match s {
        Ok(v) => r matches Ok(res) && stack_view(res.stack@) == v.stack && events_view(res.events@) == v.events,
        Err(e) => r == Err::<VmResults, VmError>(e),
    }
}

/// The state a run starts from: the initial stack, each entry read from
/// its own position, nothing read yet but all of each weak entry, no
/// events, the first instruction.
pub open spec fn initial_view(initial: Seq<VmValue>) -> VmView {
    VmView {
        stack: stack_view(initial),
        keys: Seq::new(initial.len(), |i: int| Some((i as nat, Seq::<Seq<Seq<u8>>>::empty()))),
        cache: Seq::new(initial.len(), |i: int| (initial[i].strength == ValueStrength::Weak, Seq::<Seq<Seq<Seq<u8>>>>::empty())),
        events: Seq::empty(),
        pc: 0,
    }
}

/// Runs `program` on the stack `initial`, the topmost entry last, for at
/// most `step_limit` instructions (and at most one per element of
/// `outside`, which gives each step what the outside libraries compute).
pub fn run_program_step_limited(
    initial: Vec<VmValue>,
    program: &Vec<Op>,
    step_limit: Option<usize>,
    outside: &Vec<Outside>,
) -> (r: Result<VmResults, VmError>)
    ensures
        results_match(
            r,
            spec_run(
                initial_view(initial@),
                program@,
                outside@,
                match step_limit {
                    Some(l) => l as nat,
                    None => outside@.len(),
                },
            ),
        ),
{
    let limit: usize = match step_limit {
        Some(l) => l,
        None => outside.len(),
    };
    let ghost target = spec_run(initial_view(initial@), program@, outside@, limit as nat);
    let events: Vec<StackValue> = Vec::new();
    let mut keys: Vec<Option<CacheKey>> = Vec::new();
    let mut cache: Vec<CacheRoot> = Vec::new();
    let mut i: usize = 0;
    while i < initial.len()
        invariant
            i <= initial.len(),
            keys@.len() == i,
            cache@.len() == i,
            forall|t: int| 0 <= t < i ==> key_view(#[trigger] keys@[t]) == Some((t as nat, Seq::<Seq<Seq<u8>>>::empty())),
            forall|t: int| 0 <= t < i ==> root_view(#[trigger] cache@[t]) == (initial@[t].strength == ValueStrength::Weak, Seq::<Seq<Seq<Seq<u8>>>>::empty()),
        decreases initial.len() - i,
    {
        let p: Vec<Vec<Vec<u8>>> = Vec::new();
        assert(path_view(p) =~= Seq::<Seq<Seq<u8>>>::empty());
        keys.push(Some(CacheKey { root: i, path: p }));
        let weak = match initial[i].strength {
            ValueStrength::Weak => true,
            ValueStrength::Strong => false,
        };
        let visited: Vec<Vec<Vec<Vec<u8>>>> = Vec::new();
        let root = CacheRoot { full: weak, visited };
        assert(root_view(root).1 =~= Seq::<Seq<Seq<Seq<u8>>>>::empty());
        cache.push(root);
        i = i + 1;
    }
    let mut state = VmState { stack: initial, keys, cache, events, pc: 0 };
    assert(state@.events =~= Seq::<Val>::empty());
    assert(state@.keys =~= initial_view(initial@).keys);
    assert(state@.cache =~= initial_view(initial@).cache);
    assert(outside@.subrange(0, outside@.len() as int) =~= outside@);
    let mut k: usize = 0;
    while state.pc < program.len() && k < limit && k < outside.len()
        invariant
            k <= limit,
            k <= outside.len(),
            limit == match step_limit {
                Some(l) => l,
                None => outside.len(),
            },
            target == spec_run(initial_view(initial@), program@, outside@, limit as nat),
            state@.wf(),
            target == spec_run(state@, program@, outside@.subrange(k as int, outside@.len() as int), (limit - k) as nat),
        decreases limit - k,
    {
        let ghost outs = outside@.subrange(k as int, outside@.len() as int);
        proof {
            assert(outs[0] == outside@[k as int]);
            assert(outs.drop_first() =~= outside@.subrange(k + 1, outside@.len() as int));
        }
        match step(state, program, &outside[k]) {
            Ok(s2) => {
                state = s2;
            },
            Err(e) => {
                return Err(e);
            },
        }
        k = k + 1;
    }
    Ok(VmResults { stack: state.stack, events: state.events })
}

/// Runs `program` on the stack `initial` until it ends, one step for each
/// element of `outside`.
pub fn run_program(initial: Vec<VmValue>, program: &Vec<Op>, outside: &Vec<Outside>) -> (r: Result<VmResults, VmError>)
    ensures
        results_match(r, spec_run(initial_view(initial@), program@, outside@, outside@.len())),
{
    run_program_step_limited(initial, program, None, outside)
}

/// Control only moves forward: a step that succeeds leaves the next
/// instruction after the one it ran and within the program (or at its
/// end), and the stack within its bound. So a program runs at most one step
/// per instruction.
pub proof fn lemma_step_moves_forward(s: VmView, program: Seq<Op>, out: Outside)
    requires
        spec_step(s, program, out) is Ok,
    ensures
        s.pc < spec_step(s, program, out)->Ok_0.pc <= program.len(),
        spec_step(s, program, out)->Ok_0.stack.len() <= MAX_STACK_HEIGHT,
{
}

fn copy_path(p: &Vec<Vec<Vec<u8>>>) -> (r: Vec<Vec<Vec<u8>>>)
    ensures
        path_view(r) == path_view(*p),
{
    let mut r: Vec<Vec<Vec<u8>>> = Vec::new();
    let mut i: usize = 0;
    while i < p.len()
        invariant
            i <= p.len(),
            r@.len() == i,
            forall|j: int| 0 <= j < i ==> atoms_view(#[trigger] r@[j]) == atoms_view(p@[j]),
        decreases p.len() - i,
    {
        r.push(copy_atoms(&p[i]));
        i = i + 1;
    }
    assert(path_view(r) =~= path_view(*p));
    r
}

fn copy_key(k: &Option<CacheKey>) -> (r: Option<CacheKey>)
    ensures
        key_view(r) == key_view(*k),
{
    match k {
        Some(c) => Some(CacheKey { root: c.root, path: copy_path(&c.path) }),
        None => None,
    }
}

fn exec_push_key(key: &Option<CacheKey>, k: &Vec<Vec<u8>>) -> (r: Option<CacheKey>)
    ensures
        key_view(r) == push_key(key_view(*key), atoms_view(*k)),
{
    match key {
        Some(c) => {
            let mut p = copy_path(&c.path);
            let ghost before = p;
            p.push(copy_atoms(k));
            assert(path_view(p) =~= path_view(before).push(atoms_view(*k)));
            Some(CacheKey { root: c.root, path: p })
        },
        None => None,
    }
}

/// Whether `p` is the prefix of `q` of length `n`.
fn is_prefix_of(p: &Vec<Vec<Vec<u8>>>, q: &Vec<Vec<Vec<u8>>>, n: usize) -> (r: bool)
    requires
        n <= q.len(),
    ensures
        r == (path_view(*p) == path_view(*q).subrange(0, n as int)),
{
    if p.len() != n {
        assert(path_view(*p).len() != path_view(*q).subrange(0, n as int).len());
        return false;
    }
    let mut i: usize = 0;
    while i < n
        invariant
            i <= n,
            n <= q.len(),
            p.len() == n,
            forall|j: int| 0 <= j < i ==> atoms_view(p@[j]) == atoms_view(q@[j]),
        decreases n - i,
    {
        if !atoms_eq(&p[i], &q[i]) {
            assert(path_view(*p)[i as int] != path_view(*q).subrange(0, n as int)[i as int]);
            return false;
        }
        i = i + 1;
    }
    assert(path_view(*p) =~= path_view(*q).subrange(0, n as int));
    true
}

/// Whether the prefix of `q` of length `n` is among the visited paths.
fn visited_contains(visited: &Vec<Vec<Vec<Vec<u8>>>>, q: &Vec<Vec<Vec<u8>>>, n: usize) -> (r: bool)
    requires
        n <= q.len(),
    ensures
        r == root_view(CacheRoot { full: false, visited: *visited }).1.contains(path_view(*q).subrange(0, n as int)),
{
    let ghost vs = root_view(CacheRoot { full: false, visited: *visited }).1;
    let mut j: usize = 0;
    while j < visited.len()
        invariant
            j <= visited.len(),
            n <= q.len(),
            vs == root_view(CacheRoot { full: false, visited: *visited }).1,
            forall|t: int| 0 <= t < j ==> vs[t] != path_view(*q).subrange(0, n as int),
        decreases visited.len() - j,
    {
        if is_prefix_of(&visited[j], q, n) {
            assert(vs[j as int] == path_view(*q).subrange(0, n as int));
            return true;
        }
        j = j + 1;
    }
    false
}

/// Visits `key` in `cache` (see `visit`).
fn exec_visit(cache: &mut Vec<CacheRoot>, key: &Option<CacheKey>) -> (r: bool)
    ensures
        (r, cache_view(final(cache)@)) == visit(cache_view(old(cache)@), key_view(*key)),
{
    match key {
        None => true,
        Some(c) => {
            let n = c.root;
            if n >= cache.len() {
                return false;
            }
            if cache[n].full {
                return true;
            }
            let ghost cv = cache_view(cache@);
            let ghost pv = path_view(c.path);
            let mut hit = true;
            let mut i: usize = 0;
            while i < c.path.len()
                invariant
                    i <= c.path.len(),
                    n < cache.len(),
                    cv == cache_view(cache@),
                    pv == path_view(c.path),
                    hit == (forall|t: int| 1 <= t <= i ==> #[trigger] cv[n as int].1.contains(pv.subrange(0, t))),
                decreases c.path.len() - i,
            {
                let found = visited_contains(&cache[n].visited, &c.path, i + 1);
                proof {
                    assert(root_view(CacheRoot { full: false, visited: cache@[n as int].visited }).1 == cv[n as int].1);
                    if !found {
                        assert(!cv[n as int].1.contains(pv.subrange(0, i + 1)));
                    }
                }
                hit = hit && found;
                i = i + 1;
            }
            let mut visited = Vec::new();
            let mut j: usize = 0;
            while j < cache[n].visited.len()
                invariant
                    n < cache.len(),
                    j <= cache@[n as int].visited@.len(),
                    visited@.len() == j,
                    forall|t: int| 0 <= t < j ==> path_view(#[trigger] visited@[t]) == path_view(cache@[n as int].visited@[t]),
                decreases cache@[n as int].visited@.len() - j,
            {
                visited.push(copy_path(&cache[n].visited[j]));
                j = j + 1;
            }
            let ghost base_len = visited@.len();
            let mut k: usize = 0;
            while k < c.path.len()
                invariant
                    k <= c.path.len(),
                    n < cache.len(),
                    visited@.len() == base_len + k,
                    base_len == cache@[n as int].visited@.len(),
                    forall|t: int| 0 <= t < base_len ==> path_view(#[trigger] visited@[t]) == path_view(cache@[n as int].visited@[t]),
                    forall|t: int| base_len <= t < visited@.len() ==> path_view(#[trigger] visited@[t]) == path_view(c.path).subrange(0, t - base_len + 1),
                decreases c.path.len() - k,
            {
                let mut pre: Vec<Vec<Vec<u8>>> = Vec::new();
                let mut q: usize = 0;
                while q <= k
                    invariant
                        q <= k + 1,
                        k < c.path.len(),
                        pre@.len() == q,
                        forall|t: int| 0 <= t < q ==> atoms_view(#[trigger] pre@[t]) == atoms_view(c.path@[t]),
                    decreases k + 1 - q,
                {
                    pre.push(copy_atoms(&c.path[q]));
                    q = q + 1;
                }
                assert(path_view(pre) =~= path_view(c.path).subrange(0, k + 1));
                visited.push(pre);
                k = k + 1;
            }
            let ghost old_cache = cache@;
            cache.set(n, CacheRoot { full: false, visited });
            proof {
                let nv = root_view(CacheRoot { full: false, visited }).1;
                assert(nv =~= add_prefixes(cv[n as int].1, pv));
                assert(cache_view(cache@) =~= cv.update(n as int, (false, add_prefixes(cv[n as int].1, pv))));
                assert(hit == prefixes_visited(cv[n as int].1, pv));
            }
            hit
        },
    }
}

/// What has been read once counts as read: visiting a key of an entry of
/// the initial stack a second time hits.
pub proof fn lemma_visit_records(cache: Seq<RootV>, key: KeyV)
    requires
        key matches Some((n, _)) ==> n < cache.len(),
    ensures
        visit(visit(cache, key).1, key).0,
{
    match key {
        None => {},
        Some((n, path)) => {
            if !cache[n as int].0 {
                let c2 = visit(cache, key).1;
                let v2 = add_prefixes(cache[n as int].1, path);
                assert(c2[n as int] == (false, v2));
                assert forall|i: int| 1 <= i <= path.len() implies #[trigger] v2.contains(path.subrange(0, i)) by {
                    assert(v2[cache[n as int].1.len() + i - 1] == path.subrange(0, i));
                }
            }
        },
    }
}

proof fn lemma_bool_cells(b: bool)
    ensures
        encode_bool(b) == seq![if b { seq![1u8] } else { Seq::<u8>::empty() }],
        decode_bool(seq![if b { seq![1u8] } else { Seq::<u8>::empty() }]) == Some(b),
{
    reveal_with_fuel(le_bytes, 3);
    reveal_with_fuel(le_value, 3);
    let one = seq![1u8];
    assert(one.drop_first() =~= Seq::<u8>::empty());
    assert(le_value(one) == 1);
    assert(le_bytes(1) =~= seq![1u8] + le_bytes(0));
    assert(seq![1u8] + Seq::<u8>::empty() =~= seq![1u8]);
}

/// `or` replaces the two booleans on top of the stack by their
/// disjunction: true exactly when at least one of them is true.
pub proof fn lemma_or_is_disjunction(s: VmView, program: Seq<Op>, out: Outside, x: bool, y: bool)
    requires
        0 <= s.pc < program.len(),
        program[s.pc] == Op::Or,
        2 <= s.stack.len() <= MAX_STACK_HEIGHT,
        s.stack[s.stack.len() - 2].1 == Val::Cell(seq![if x { seq![1u8] } else { Seq::<u8>::empty() }]),
        s.stack.last().1 == Val::Cell(seq![if y { seq![1u8] } else { Seq::<u8>::empty() }]),
    ensures
        spec_step(s, program, out) matches Ok(t) && t.pc == s.pc + 1 && t.events == s.events && t.stack == s.stack.subrange(
            0,
            s.stack.len() - 2,
        ).push((ValueStrength::Strong, Val::Cell(seq![if x || y { seq![1u8] } else { Seq::<u8>::empty() }]))),
{
    lemma_bool_cells(x);
    lemma_bool_cells(y);
    lemma_bool_cells(x || y);
}

/// `and` replaces the two booleans on top of the stack by their
/// conjunction: true exactly when both are true.
pub proof fn lemma_and_is_conjunction(s: VmView, program: Seq<Op>, out: Outside, x: bool, y: bool)
    requires
        0 <= s.pc < program.len(),
        program[s.pc] == Op::And,
        2 <= s.stack.len() <= MAX_STACK_HEIGHT,
        s.stack[s.stack.len() - 2].1 == Val::Cell(seq![if x { seq![1u8] } else { Seq::<u8>::empty() }]),
        s.stack.last().1 == Val::Cell(seq![if y { seq![1u8] } else { Seq::<u8>::empty() }]),
    ensures
        spec_step(s, program, out) matches Ok(t) && t.pc == s.pc + 1 && t.events == s.events && t.stack == s.stack.subrange(
            0,
            s.stack.len() - 2,
        ).push((ValueStrength::Strong, Val::Cell(seq![if x && y { seq![1u8] } else { Seq::<u8>::empty() }]))),
{
    lemma_bool_cells(x);
    lemma_bool_cells(y);
    lemma_bool_cells(x && y);
}

proof fn lemma_le_bytes(x: nat, n: nat)
    requires
        x < pow256(n),
    ensures
        le_value(le_bytes(x)) == x,
        le_bytes(x).len() <= n,
        x > 0 ==> le_bytes(x).last() != 0,
    decreases x,
{
    if x > 0 {
        let q = x / 256;
        assert(x == 256 * q + x % 256);
        assert(n >= 1) by {
            if n == 0 {
                assert(pow256(0) == 1);
            }
        }
        assert(q < pow256((n - 1) as nat));
        lemma_le_bytes(q, (n - 1) as nat);
        let b = le_bytes(x);
        assert(b == seq![(x % 256) as u8] + le_bytes(q));
        assert(b.drop_first() =~= le_bytes(q));
        if q > 0 {
            assert(b.last() == le_bytes(q).last());
        } else {
            assert(le_bytes(q) =~= Seq::<u8>::empty());
            assert(b.last() == (x % 256) as u8);
        }
    }
}

/// The integer a cell of an integer holds is that integer.
pub proof fn lemma_u64_cell(x: u64)
    ensures
        decode_u64(encode_u64(x as nat)) == Some(x),
{
    reveal_with_fuel(pow256, 9);
    assert(pow256(8) == 0x1_0000_0000_0000_0000);
    lemma_le_bytes(x as nat, 8);
}

/// `add` replaces the two integers on top of the stack by their sum, and
/// fails where the sum leaves the range of `u64`.
pub proof fn lemma_add_sums(s: VmView, program: Seq<Op>, out: Outside, x: u64, y: u64)
    requires
        0 <= s.pc < program.len(),
        program[s.pc] == Op::Add,
        2 <= s.stack.len() <= MAX_STACK_HEIGHT,
        s.stack[s.stack.len() - 2].1 == Val::Cell(encode_u64(x as nat)),
        s.stack.last().1 == Val::Cell(encode_u64(y as nat)),
    ensures
        x + y <= u64::MAX ==> (spec_step(s, program, out) matches Ok(t) && t.pc == s.pc + 1 && t.stack == s.stack.subrange(
            0,
            s.stack.len() - 2,
        ).push((ValueStrength::Strong, Val::Cell(encode_u64((x + y) as nat))))),
        x + y > u64::MAX ==> spec_step(s, program, out) == Err::<VmView, VmError>(VmError::ArithmeticOverflow),
{
    lemma_u64_cell(x);
    lemma_u64_cell(y);
}

/// `sub` replaces the integer on top of the stack and the one below it by
/// the lower one less the top one, and fails where that is negative.
pub proof fn lemma_sub_subtracts(s: VmView, program: Seq<Op>, out: Outside, x: u64, y: u64)
    requires
        0 <= s.pc < program.len(),
        program[s.pc] == Op::Sub,
        2 <= s.stack.len() <= MAX_STACK_HEIGHT,
        s.stack[s.stack.len() - 2].1 == Val::Cell(encode_u64(x as nat)),
        s.stack.last().1 == Val::Cell(encode_u64(y as nat)),
    ensures
        y <= x ==> (spec_step(s, program, out) matches Ok(t) && t.pc == s.pc + 1 && t.stack == s.stack.subrange(
            0,
            s.stack.len() - 2,
        ).push((ValueStrength::Strong, Val::Cell(encode_u64((x - y) as nat))))),
        y > x ==> spec_step(s, program, out) == Err::<VmView, VmError>(VmError::ArithmeticOverflow),
{
    lemma_u64_cell(x);
    lemma_u64_cell(y);
}

/// `lt` replaces the integer on top of the stack and the one below it by
/// whether the lower one is less than the top one.
pub proof fn lemma_lt_compares(s: VmView, program: Seq<Op>, out: Outside, x: u64, y: u64)
    requires
        0 <= s.pc < program.len(),
        program[s.pc] == Op::Lt,
        2 <= s.stack.len() <= MAX_STACK_HEIGHT,
        s.stack[s.stack.len() - 2].1 == Val::Cell(encode_u64(x as nat)),
        s.stack.last().1 == Val::Cell(encode_u64(y as nat)),
    ensures
        spec_step(s, program, out) matches Ok(t) && t.pc == s.pc + 1 && t.stack == s.stack.subrange(0, s.stack.len() - 2).push(
            (ValueStrength::Strong, Val::Cell(seq![if x < y { seq![1u8] } else { Seq::<u8>::empty() }])),
        ),
{
    lemma_u64_cell(x);
    lemma_u64_cell(y);
    lemma_bool_cells(x < y);
}

/// `neg` replaces the boolean on top of the stack by its negation.
pub proof fn lemma_neg_negates(s: VmView, program: Seq<Op>, out: Outside, x: bool)
    requires
        0 <= s.pc < program.len(),
        program[s.pc] == Op::Neg,
        1 <= s.stack.len() <= MAX_STACK_HEIGHT,
        s.stack.last().1 == Val::Cell(seq![if x { seq![1u8] } else { Seq::<u8>::empty() }]),
    ensures
        spec_step(s, program, out) matches Ok(t) && t.pc == s.pc + 1 && t.stack == s.stack.drop_last().push(
            (ValueStrength::Strong, Val::Cell(seq![if !x { seq![1u8] } else { Seq::<u8>::empty() }])),
        ),
{
    lemma_bool_cells(x);
    lemma_bool_cells(!x);
}

/// `dup n` copies the entry `n` places below the top onto the top, with its
/// cache key; `swap n` exchanges the top with the entry `n + 1` places
/// below it; `pop` drops the top. None of them changes the events.
pub proof fn lemma_stack_shuffles(s: VmView, program: Seq<Op>, out: Outside, n: u8)
    requires
        0 <= s.pc < program.len(),
        s.stack.len() < MAX_STACK_HEIGHT,
        s.keys.len() == s.stack.len(),
    ensures
        program[s.pc] == (Op::Dup { n }) && n < s.stack.len() ==> (spec_step(s, program, out) matches Ok(t) && t.pc == s.pc + 1
            && t.events == s.events && t.stack == s.stack.push(s.stack[s.stack.len() - 1 - n]) && t.keys == s.keys.push(
            s.keys[s.keys.len() - 1 - n],
        )),
        program[s.pc] == (Op::Swap { n }) && n + 2 <= s.stack.len() ==> (spec_step(s, program, out) matches Ok(t) && t.pc == s.pc
            + 1 && t.events == s.events && t.stack.len() == s.stack.len() && t.stack.last() == s.stack[s.stack.len() - 2 - n]
            && t.stack[s.stack.len() - 2 - n] == s.stack.last() && (forall|i: int|
            0 <= i < s.stack.len() && i != s.stack.len() - 1 && i != s.stack.len() - 2 - n ==> t.stack[i] == s.stack[i])),
        program[s.pc] == Op::Pop && 1 <= s.stack.len() ==> (spec_step(s, program, out) matches Ok(t) && t.pc == s.pc + 1
            && t.events == s.events && t.stack == s.stack.drop_last()),
{
}

/// `jmp skip` moves past the `skip` instructions after it, when they are
/// there, and changes nothing else; `branch skip` pops a boolean and skips
/// only when it is true.
pub proof fn lemma_jumps(s: VmView, program: Seq<Op>, out: Outside, skip: u32, b: bool)
    requires
        0 <= s.pc < program.len(),
        s.stack.len() <= MAX_STACK_HEIGHT,
    ensures
        program[s.pc] == (Op::Jmp { skip }) ==> (if s.pc + 1 + skip <= program.len() {
            spec_step(s, program, out) matches Ok(t) && t.pc == s.pc + 1 + skip && t.stack == s.stack && t.events == s.events
        } else {
            spec_step(s, program, out) == Err::<VmView, VmError>(VmError::RanPastProgramEnd)
        }),
        program[s.pc] == (Op::Branch { skip }) && 1 <= s.stack.len() && s.stack.last().1 == Val::Cell(
            seq![if b { seq![1u8] } else { Seq::<u8>::empty() }],
        ) && s.pc + 1 + skip <= program.len() ==> (spec_step(s, program, out) matches Ok(t) && t.pc == s.pc + 1 + (if b {
            skip as int
        } else {
            0
        }) && t.stack == s.stack.drop_last()),
{
}

proof fn lemma_map_find_char(m: Seq<(Seq<Seq<u8>>, Val)>, k: Seq<Seq<u8>>)
    ensures
        map_find(m, k) == -1 ==> forall|j: int| 0 <= j < m.len() ==> m[j].0 != k,
        map_find(m, k) >= 0 ==> map_find(m, k) < m.len() && m[map_find(m, k)].0 == k && forall|j: int|
            map_find(m, k) < j < m.len() ==> m[j].0 != k,
    decreases m.len(),
{
    if m.len() > 0 {
        lemma_map_find_char(m.drop_last(), k);
        assert forall|j: int| 0 <= j < m.len() - 1 implies m.drop_last()[j] == m[j] by {}
    }
}

proof fn lemma_map_find_is(m: Seq<(Seq<Seq<u8>>, Val)>, k: Seq<Seq<u8>>, i: int)
    requires
        0 <= i < m.len(),
        m[i].0 == k,
        forall|j: int| i < j < m.len() ==> m[j].0 != k,
    ensures
        map_find(m, k) == i,
    decreases m.len(),
{
    if i < m.len() - 1 {
        lemma_map_find_is(m.drop_last(), k, i);
    }
}

/// A map read at a key gives what was last written there.
pub proof fn lemma_map_read_after_write(m: Seq<(Seq<Seq<u8>>, Val)>, k: Seq<Seq<u8>>, v: Val)
    ensures
        map_get(map_insert(m, k, v), k) == v,
{
    lemma_map_find_char(m, k);
    let i = map_find(m, k);
    let m2 = map_insert(m, k, v);
    if i >= 0 {
        lemma_map_find_is(m2, k, i);
    } else {
        lemma_map_find_is(m2, k, m.len() as int);
    }
}

/// Writing a value into a map with `ins` and reading the same key back
/// with `idx` gives the value written, with the strength of both.
pub proof fn lemma_ins_then_idx(s: VmView, program: Seq<Op>, out1: Outside, out2: Outside, key: Vec<Vec<u8>>)
    requires
        0 <= s.pc,
        s.pc + 1 < program.len(),
        program[s.pc] == (Op::Ins { cached: false, n: 1 }),
        program[s.pc + 1] matches Op::Idx { cached, push_path, path } && !cached && !push_path && path@ == seq![Key::Value(key)],
        3 <= s.stack.len() <= MAX_STACK_HEIGHT,
        s.keys.len() == s.stack.len(),
        s.stack[s.stack.len() - 3].1 is Mapping,
        s.stack[s.stack.len() - 2].1 == Val::Cell(atoms_view(key)),
    ensures
        ({
            let n = s.stack.len();
            let written = (strength_and(s.stack[n - 1].0, s.stack[n - 3].0), s.stack[n - 1].1);
            spec_step(s, program, out1) matches Ok(t1) && t1.pc == s.pc + 1 && (spec_step(t1, program, out2) matches Ok(t2)
                && t2.pc == s.pc + 2 && t2.stack == s.stack.subrange(0, n - 3).push(written))
        }),
{
    let n = s.stack.len();
    let m = s.stack[n - 3].1->Mapping_0;
    let kv = atoms_view(key);
    let v = s.stack[n - 1].1;
    lemma_map_read_after_write(m, kv, v);
    let st1 = s.stack.drop_last();
    let ks1 = s.keys.drop_last();
    assert(st1.last() == s.stack[n - 2]);
    assert(st1[st1.len() - 2] == s.stack[n - 3]);
    assert(st1.subrange(0, st1.len() - 2) =~= s.stack.subrange(0, n - 3));
    assert(ks1.subrange(0, ks1.len() - 2) =~= s.keys.subrange(0, n - 3));
    reveal_with_fuel(ins_walk, 2);
    reveal_with_fuel(idx_walk, 2);
    let t1 = spec_step(s, program, out1)->Ok_0;
    assert(t1.stack =~= s.stack.subrange(0, n - 3).push((strength_and(s.stack[n - 1].0, s.stack[n - 3].0), Val::Mapping(map_insert(m, kv, v)))));
    match program[s.pc + 1] {
        Op::Idx { cached, push_path, path } => {
            assert(path@.drop_last() =~= Seq::<Key>::empty());
            reveal_with_fuel(stack_keys, 2);
            assert(stack_keys(path@) == 0);
            let n1 = t1.stack.len() as int;
            assert(t1.stack.subrange(0, n1 - 1) =~= s.stack.subrange(0, n - 3));
        },
        _ => {},
    }
}

/// `push` puts its value on top of the stack, strong where it is to be
/// stored and weak otherwise, and changes nothing else.
pub proof fn lemma_push_pushes(s: VmView, program: Seq<Op>, out: Outside, storage: bool, value: StackValue)
    requires
        0 <= s.pc < program.len(),
        program[s.pc] == (Op::Push { storage, value }),
        s.stack.len() < MAX_STACK_HEIGHT,
    ensures
        spec_step(s, program, out) matches Ok(t) && t.pc == s.pc + 1 && t.events == s.events && t.stack == s.stack.push(
            (if storage { ValueStrength::Strong } else { ValueStrength::Weak }, val_of(value)),
        ),
{
}

/// `eq` on two cells no longer than the bound replaces them by whether they
/// are equal.
pub proof fn lemma_eq_compares(s: VmView, program: Seq<Op>, out: Outside, x: Seq<Seq<u8>>, y: Seq<Seq<u8>>)
    requires
        0 <= s.pc < program.len(),
        program[s.pc] == Op::Eq,
        2 <= s.stack.len() <= MAX_STACK_HEIGHT,
        s.stack[s.stack.len() - 2].1 == Val::Cell(x),
        s.stack.last().1 == Val::Cell(y),
        out.top_size <= 64,
        out.second_size <= 64,
    ensures
        spec_step(s, program, out) matches Ok(t) && t.pc == s.pc + 1 && t.events == s.events && t.stack == s.stack.subrange(
            0,
            s.stack.len() - 2,
        ).push((ValueStrength::Strong, Val::Cell(seq![if x == y { seq![1u8] } else { Seq::<u8>::empty() }]))),
{
    lemma_bool_cells(x == y);
}

/// `log` takes the top of the stack and records it as an event, after
/// the events before it; so does `popeq` for a cell.
pub proof fn lemma_log_records(s: VmView, program: Seq<Op>, out: Outside)
    requires
        0 <= s.pc < program.len(),
        1 <= s.stack.len() <= MAX_STACK_HEIGHT,
    ensures
        program[s.pc] == Op::Log && out.top_size <= MAX_LOG_SIZE ==> (spec_step(s, program, out) matches Ok(t) && t.pc == s.pc
            + 1 && t.stack == s.stack.drop_last() && t.events == s.events.push(s.stack.last().1)),
        program[s.pc] == Op::Log && out.top_size > MAX_LOG_SIZE ==> spec_step(s, program, out) == Err::<VmView, VmError>(
            VmError::LogBoundExceeded,
        ),
        program[s.pc] == Op::Popeq && s.stack.last().1 is Cell ==> (spec_step(s, program, out) matches Ok(t) && t.pc == s.pc + 1
            && t.stack == s.stack.drop_last() && t.events == s.events.push(s.stack.last().1)),
{
}

/// `concat` joins the two cells on top of the stack, the lower one first,
/// where their sizes fit the bound.
pub proof fn lemma_concat_joins(s: VmView, program: Seq<Op>, out: Outside, bound: u32, x: Seq<Seq<u8>>, y: Seq<Seq<u8>>)
    requires
        0 <= s.pc < program.len(),
        program[s.pc] == (Op::Concat { n: bound }),
        bound <= CELL_BOUND,
        out.top_size + out.second_size <= bound,
        2 <= s.stack.len() <= MAX_STACK_HEIGHT,
        s.stack[s.stack.len() - 2].1 == Val::Cell(x),
        s.stack.last().1 == Val::Cell(y),
    ensures
        spec_step(s, program, out) matches Ok(t) && t.pc == s.pc + 1 && t.events == s.events && t.stack == s.stack.subrange(
            0,
            s.stack.len() - 2,
        ).push((ValueStrength::Strong, Val::Cell(x + y))),
{
}

/// `member` replaces a map and a key by whether the map holds the key.
pub proof fn lemma_member_tests_key(s: VmView, program: Seq<Op>, out: Outside, m: Seq<(Seq<Seq<u8>>, Val)>, k: Seq<Seq<u8>>)
    requires
        0 <= s.pc < program.len(),
        program[s.pc] == Op::Member,
        2 <= s.stack.len() <= MAX_STACK_HEIGHT,
        s.stack[s.stack.len() - 2].1 == Val::Mapping(m),
        s.stack.last().1 == Val::Cell(k),
    ensures
        ({
            let held = exists|j: int| 0 <= j < m.len() && (#[trigger] m[j]).0 == k;
            spec_step(s, program, out) matches Ok(t) && t.pc == s.pc + 1 && t.stack == s.stack.subrange(0, s.stack.len() - 2).push(
                (ValueStrength::Strong, Val::Cell(seq![if held { seq![1u8] } else { Seq::<u8>::empty() }])),
            )
        }),
{
    lemma_map_find_char(m, k);
    let held = exists|j: int| 0 <= j < m.len() && (#[trigger] m[j]).0 == k;
    if map_find(m, k) >= 0 {
        assert(m[map_find(m, k)].0 == k);
    }
    if held {
        let j = choose|j: int| 0 <= j < m.len() && (#[trigger] m[j]).0 == k;
        assert(m[j].0 == k);
        assert(map_find(m, k) != -1);
        assert(map_find(m, k) >= 0) by {
            lemma_map_find_range(m, k);
        }
    }
    assert(held == (map_find(m, k) >= 0));
    lemma_bool_cells(held);
}

/// `addi` adds its immediate to the integer on top of the stack and `subi`
/// subtracts it, failing where the result leaves the range of `u64`.
pub proof fn lemma_immediates(s: VmView, program: Seq<Op>, out: Outside, x: u64, imm: u32)
    requires
        0 <= s.pc < program.len(),
        1 <= s.stack.len() <= MAX_STACK_HEIGHT,
        s.stack.last().1 == Val::Cell(encode_u64(x as nat)),
    ensures
        program[s.pc] == (Op::Addi { immediate: imm }) && x + imm <= u64::MAX ==> (spec_step(s, program, out) matches Ok(t) && t.pc
            == s.pc + 1 && t.stack == s.stack.drop_last().push((ValueStrength::Strong, Val::Cell(encode_u64((x + imm) as nat))))),
        program[s.pc] == (Op::Addi { immediate: imm }) && x + imm > u64::MAX ==> spec_step(s, program, out) == Err::<VmView, VmError>(
            VmError::ArithmeticOverflow,
        ),
        program[s.pc] == (Op::Subi { immediate: imm }) && imm <= x ==> (spec_step(s, program, out) matches Ok(t) && t.pc == s.pc + 1
            && t.stack == s.stack.drop_last().push((ValueStrength::Strong, Val::Cell(encode_u64((x - imm) as nat))))),
        program[s.pc] == (Op::Subi { immediate: imm }) && imm > x ==> spec_step(s, program, out) == Err::<VmView, VmError>(
            VmError::ArithmeticOverflow,
        ),
{
    lemma_u64_cell(x);
}

/// `rem` (uncached) on a map whose keys are distinct removes the entry of
/// the key on top of the stack, if there is one, and keeps every other
/// entry; the map keeps its place and strength.
pub proof fn lemma_rem_removes_key(s: VmView, program: Seq<Op>, out: Outside, m: Seq<(Seq<Seq<u8>>, Val)>, k: Seq<Seq<u8>>)
    requires
        0 <= s.pc < program.len(),
        program[s.pc] == (Op::Rem { cached: false }),
        2 <= s.stack.len() <= MAX_STACK_HEIGHT,
        s.keys.len() == s.stack.len(),
        s.stack[s.stack.len() - 2].1 == Val::Mapping(m),
        s.stack.last().1 == Val::Cell(k),
        forall|a: int, b: int| 0 <= a < b < m.len() ==> (#[trigger] m[a]).0 != (#[trigger] m[b]).0,
    ensures
        spec_step(s, program, out) matches Ok(t) && t.pc == s.pc + 1 && t.events == s.events && t.stack.len() == s.stack.len() - 1
            && t.stack.subrange(0, t.stack.len() - 1) == s.stack.subrange(0, s.stack.len() - 2) && t.stack.last().0 == s.stack[s.stack.len()
            - 2].0 && (t.stack.last().1 matches Val::Mapping(m2) && (forall|j: int| 0 <= j < m2.len() ==> (#[trigger] m2[j]).0 != k)
            && (forall|j: int| 0 <= j < m.len() && (#[trigger] m[j]).0 != k ==> m2.contains(m[j]))),
{
    lemma_map_find_range(m, k);
    lemma_map_find_char(m, k);
    let i = map_find(m, k);
    let m2 = map_remove(m, k);
    let n = s.stack.len();
    let t = spec_step(s, program, out)->Ok_0;
    assert(t.stack.subrange(0, t.stack.len() - 1) =~= s.stack.subrange(0, n - 2));
    if i >= 0 {
        assert forall|j: int| 0 <= j < m2.len() implies (#[trigger] m2[j]).0 != k by {
            if j < i {
                assert(m2[j] == m[j]);
            } else {
                assert(m2[j] == m[j + 1]);
            }
        }
        assert forall|j: int| 0 <= j < m.len() && (#[trigger] m[j]).0 != k implies m2.contains(m[j]) by {
            if j < i {
                assert(m2[j] == m[j]);
            } else {
                assert(j != i);
                assert(m2[j - 1] == m[j]);
            }
        }
    }
}

/// `type` replaces the top of the stack by its type tag: 0 for a cell, 1
/// for null, 2 for a map; `size` replaces a map by its number of entries
/// and an array by its length.
pub proof fn lemma_type_and_size(s: VmView, program: Seq<Op>, out: Outside)
    requires
        0 <= s.pc < program.len(),
        1 <= s.stack.len() <= MAX_STACK_HEIGHT,
    ensures
        ({
            let top = s.stack.last().1;
            let tag: nat = match top {
                Val::Cell(_) => 0,
                Val::Null => 1,
                _ => 2,
            };
            &&& program[s.pc] == Op::Type && (top is Cell || top is Null || top is Mapping) ==> (spec_step(s, program, out) matches Ok(t)
                && t.pc == s.pc + 1 && t.stack == s.stack.drop_last().push((ValueStrength::Strong, Val::Cell(encode_u64(tag)))))
            &&& program[s.pc] == Op::Size ==> (match top {
                Val::Mapping(m) => spec_step(s, program, out) matches Ok(t) && t.pc == s.pc + 1 && t.stack == s.stack.drop_last().push(
                    (ValueStrength::Strong, Val::Cell(encode_u64(m.len()))),
                ),
                Val::Array(a) => spec_step(s, program, out) matches Ok(t) && t.pc == s.pc + 1 && t.stack == s.stack.drop_last().push(
                    (ValueStrength::Strong, Val::Cell(encode_u64(a.len()))),
                ),
                _ => true,
            })
        }),
{
}

} // verus!
