//! Finite maps kept as vectors of entries with distinct keys, the sums of
//! weights over such entries, and `AmountMap`: a map from keys to `u128`
//! amounts that keeps the sum of its amounts, as the ledger's annotated maps
//! do.
use vstd::prelude::*;
use crate::hash::KeyEq;

verus! {

/// The sum of `w` over the elements of `s`.
pub open spec fn weighted_sum<T>(s: Seq<T>, w: spec_fn(T) -> int) -> int
    decreases s.len(),
{
    if s.len() == 0 {
        0
    } else {
        weighted_sum(s.drop_last(), w) + w(s.last())
    }
}

/// Replacing one element changes the sum by the difference of the weights.
pub proof fn lemma_weighted_sum_update<T>(s: Seq<T>, i: int, x: T, w: spec_fn(T) -> int)
    requires
        0 <= i < s.len(),
    ensures
        weighted_sum(s.update(i, x), w) == weighted_sum(s, w) - w(s[i]) + w(x),
    decreases s.len(),
{
    if i == s.len() - 1 {
        assert(s.update(i, x).drop_last() =~= s.drop_last());
    } else {
        lemma_weighted_sum_update(s.drop_last(), i, x, w);
        assert(s.update(i, x).drop_last() =~= s.drop_last().update(i, x));
    }
}

/// Removing one element lowers the sum by its weight.
pub proof fn lemma_weighted_sum_remove<T>(s: Seq<T>, i: int, w: spec_fn(T) -> int)
    requires
        0 <= i < s.len(),
    ensures
        weighted_sum(s.remove(i), w) == weighted_sum(s, w) - w(s[i]),
    decreases s.len(),
{
    if i == s.len() - 1 {
        assert(s.remove(i) =~= s.drop_last());
    } else {
        lemma_weighted_sum_remove(s.drop_last(), i, w);
        assert(s.remove(i).drop_last() =~= s.drop_last().remove(i));
    }
}

/// Appending one element raises the sum by its weight.
pub proof fn lemma_weighted_sum_push<T>(s: Seq<T>, x: T, w: spec_fn(T) -> int)
    ensures
        weighted_sum(s.push(x), w) == weighted_sum(s, w) + w(x),
{
    assert(s.push(x).drop_last() =~= s);
}

/// With nonnegative weights every element weighs at most the whole sum.
pub proof fn lemma_weighted_sum_bound<T>(s: Seq<T>, i: int, w: spec_fn(T) -> int)
    requires
        0 <= i < s.len(),
        forall|x: T| #[trigger] w(x) >= 0,
    ensures
        0 <= w(s[i]) <= weighted_sum(s, w),
{
    lemma_weighted_sum_remove(s, i, w);
    lemma_weighted_sum_nonneg(s.remove(i), w);
}

/// With nonnegative weights the sum is nonnegative.
pub proof fn lemma_weighted_sum_nonneg<T>(s: Seq<T>, w: spec_fn(T) -> int)
    requires
        forall|x: T| #[trigger] w(x) >= 0,
    ensures
        weighted_sum(s, w) >= 0,
    decreases s.len(),
{
    if s.len() > 0 {
        lemma_weighted_sum_nonneg(s.drop_last(), w);
    }
}

/// The sum over a prefix one element longer.
pub proof fn lemma_weighted_sum_take<T>(s: Seq<T>, i: int, w: spec_fn(T) -> int)
    requires
        0 <= i < s.len(),
    ensures
        weighted_sum(s.take(i + 1), w) == weighted_sum(s.take(i), w) + w(s[i]),
{
    assert(s.take(i + 1).drop_last() =~= s.take(i));
}

/// No two entries share a key.
pub open spec fn keys_unique<K, V>(s: Seq<(K, V)>) -> bool {
    forall|i: int, j: int| 0 <= i < s.len() && 0 <= j < s.len() && i != j ==> s[i].0 != s[j].0
}

/// The map that a sequence of entries stands for.
pub open spec fn seq_to_map<K, V>(s: Seq<(K, V)>) -> Map<K, V>
    decreases s.len(),
{
    if s.len() == 0 {
        Map::empty()
    } else {
        seq_to_map(s.drop_last()).insert(s.last().0, s.last().1)
    }
}

/// A key is in the map exactly when some entry has it.
pub proof fn lemma_seq_to_map_dom<K, V>(s: Seq<(K, V)>, k: K)
    ensures
        seq_to_map(s).dom().contains(k) <==> exists|i: int| 0 <= i < s.len() && #[trigger] s[i].0 == k,
    decreases s.len(),
{
    if s.len() > 0 {
        lemma_seq_to_map_dom(s.drop_last(), k);
        if seq_to_map(s).dom().contains(k) && s.last().0 != k {
            let i = choose|i: int| 0 <= i < s.drop_last().len() && #[trigger] s.drop_last()[i].0 == k;
            assert(s[i].0 == k);
        }
        if exists|i: int| 0 <= i < s.len() && #[trigger] s[i].0 == k {
            let i = choose|i: int| 0 <= i < s.len() && #[trigger] s[i].0 == k;
            if i < s.len() - 1 {
                assert(s.drop_last()[i].0 == k);
            }
        }
    }
}

/// With distinct keys, each entry's value is the map's value at its key.
pub proof fn lemma_seq_to_map_value<K, V>(s: Seq<(K, V)>, i: int)
    requires
        keys_unique(s),
        0 <= i < s.len(),
    ensures
        seq_to_map(s).dom().contains(s[i].0),
        seq_to_map(s)[s[i].0] == s[i].1,
    decreases s.len(),
{
    if i < s.len() - 1 {
        assert(keys_unique(s.drop_last()));
        lemma_seq_to_map_value(s.drop_last(), i);
        assert(s.drop_last()[i] == s[i]);
    }
}

/// Replacing the value of an existing entry updates the map at its key.
pub proof fn lemma_seq_to_map_update<K, V>(s: Seq<(K, V)>, i: int, v: V)
    requires
        keys_unique(s),
        0 <= i < s.len(),
    ensures
        keys_unique(s.update(i, (s[i].0, v))),
        seq_to_map(s.update(i, (s[i].0, v))) =~= seq_to_map(s).insert(s[i].0, v),
{
    let k = s[i].0;
    let t = s.update(i, (k, v));
    assert(keys_unique(t));
    assert forall|kk: K| #[trigger] seq_to_map(t).dom().contains(kk) <==> seq_to_map(s).insert(k, v).dom().contains(kk) by {
        lemma_seq_to_map_dom(s, kk);
        lemma_seq_to_map_dom(t, kk);
        if exists|j: int| 0 <= j < s.len() && #[trigger] s[j].0 == kk {
            let j = choose|j: int| 0 <= j < s.len() && #[trigger] s[j].0 == kk;
            assert(t[j].0 == kk);
        }
        if exists|j: int| 0 <= j < t.len() && #[trigger] t[j].0 == kk {
            let j = choose|j: int| 0 <= j < t.len() && #[trigger] t[j].0 == kk;
            assert(s[j].0 == kk);
        }
    }
    assert forall|kk: K| seq_to_map(t).dom().contains(kk) implies #[trigger] seq_to_map(t)[kk] == seq_to_map(s).insert(k, v)[kk] by {
        lemma_seq_to_map_dom(t, kk);
        let j = choose|j: int| 0 <= j < t.len() && #[trigger] t[j].0 == kk;
        lemma_seq_to_map_value(t, j);
        if j != i {
            lemma_seq_to_map_value(s, j);
        }
    }
}

/// Appending an entry with a fresh key inserts it into the map.
pub proof fn lemma_seq_to_map_push<K, V>(s: Seq<(K, V)>, k: K, v: V)
    requires
        keys_unique(s),
        !seq_to_map(s).dom().contains(k),
    ensures
        keys_unique(s.push((k, v))),
        seq_to_map(s.push((k, v))) == seq_to_map(s).insert(k, v),
{
    assert(s.push((k, v)).drop_last() =~= s);
    assert forall|i: int| 0 <= i < s.len() implies #[trigger] s[i].0 != k by {
        lemma_seq_to_map_dom(s, k);
    }
}

/// Removing an entry removes its key from the map.
pub proof fn lemma_seq_to_map_remove<K, V>(s: Seq<(K, V)>, i: int)
    requires
        keys_unique(s),
        0 <= i < s.len(),
    ensures
        keys_unique(s.remove(i)),
        seq_to_map(s.remove(i)) =~= seq_to_map(s).remove(s[i].0),
{
    let k = s[i].0;
    let t = s.remove(i);
    assert(keys_unique(t)) by {
        assert forall|a: int, b: int| 0 <= a < t.len() && 0 <= b < t.len() && a != b implies t[a].0 != t[b].0 by {
            let a2 = if a < i { a } else { a + 1 };
            let b2 = if b < i { b } else { b + 1 };
            assert(t[a] == s[a2]);
            assert(t[b] == s[b2]);
        }
    }
    assert forall|kk: K| #[trigger] seq_to_map(t).dom().contains(kk) <==> seq_to_map(s).remove(k).dom().contains(kk) by {
        lemma_seq_to_map_dom(s, kk);
        lemma_seq_to_map_dom(t, kk);
        if exists|j: int| 0 <= j < s.len() && #[trigger] s[j].0 == kk {
            let j = choose|j: int| 0 <= j < s.len() && #[trigger] s[j].0 == kk;
            if j < i {
                assert(t[j].0 == kk);
            } else if j > i {
                assert(t[j - 1].0 == kk);
            }
        }
        if exists|j: int| 0 <= j < t.len() && #[trigger] t[j].0 == kk {
            let j = choose|j: int| 0 <= j < t.len() && #[trigger] t[j].0 == kk;
            let j2 = if j < i { j } else { j + 1 };
            assert(s[j2].0 == kk);
        }
    }
    assert forall|kk: K| seq_to_map(t).dom().contains(kk) implies #[trigger] seq_to_map(t)[kk] == seq_to_map(s).remove(k)[kk] by {
        lemma_seq_to_map_dom(t, kk);
        let j = choose|j: int| 0 <= j < t.len() && #[trigger] t[j].0 == kk;
        lemma_seq_to_map_value(t, j);
        let j2 = if j < i { j } else { j + 1 };
        assert(s[j2] == t[j]);
        lemma_seq_to_map_value(s, j2);
    }
}

/// Finds the position of the entry with key `k`.
pub fn find_key<K: KeyEq, V: Copy>(entries: &Vec<(K, V)>, k: &K) -> (r: Option<usize>)
    ensures
        match r {
            Some(i) => i < entries@.len() && entries@[i as int].0 == *k,
            None => forall|j: int| 0 <= j < entries@.len() ==> #[trigger] entries@[j].0 != *k,
        },
{
    let mut i: usize = 0;
    while i < entries.len()
        invariant
            0 <= i <= entries@.len(),
            forall|j: int| 0 <= j < i ==> #[trigger] entries@[j].0 != *k,
        decreases entries@.len() - i,
    {
        let e = entries[i];
        if e.0.key_eq(k) {
            return Some(i);
        }
        i = i + 1;
    }
    None
}

/// Copies a vector of plain values.
pub fn copy_vec<T: Copy>(v: &Vec<T>) -> (r: Vec<T>)
    ensures
        r@ == v@,
{
    let mut r: Vec<T> = Vec::new();
    let mut i: usize = 0;
    while i < v.len()
        invariant
            0 <= i <= v@.len(),
            r@ == v@.take(i as int),
        decreases v@.len() - i,
    {
        r.push(v[i]);
        i = i + 1;
        assert(r@ =~= v@.take(i as int));
    }
    assert(v@.take(v@.len() as int) =~= v@);
    r
}

/// The weight of an amount entry: its amount.
pub open spec fn amount_weight<K>() -> spec_fn((K, u128)) -> int {
    |e: (K, u128)| e.1 as int
}

/// The size and total value of an annotated collection.
#[derive(Debug, Clone, Copy, PartialEq, Eq, Structural)]
pub struct NightAnn {
    pub size: usize,
    pub value: u128,
}

/// A map from keys to `u128` amounts that keeps the sum of its amounts.
pub struct AmountMap<K: KeyEq> {
    entries: Vec<(K, u128)>,
    total: u128,
}

impl<K: KeyEq> View for AmountMap<K> {
    type V = Map<K, u128>;

    closed spec fn view(&self) -> Map<K, u128> {
        seq_to_map(self.entries@)
    }
}

impl<K: KeyEq> AmountMap<K> {
    /// Distinct keys, and the stored total is the sum of the amounts.
    pub closed spec fn wf(&self) -> bool {
        &&& keys_unique(self.entries@)
        &&& self.total as int == weighted_sum(self.entries@, amount_weight::<K>())
    }

    /// The sum of all amounts in the map.
    pub closed spec fn spec_total(&self) -> int {
        weighted_sum(self.entries@, amount_weight::<K>())
    }

    /// The number of keys in the map.
    pub closed spec fn spec_len(&self) -> nat {
        self.entries@.len()
    }

    /// The amount at `k`, zero where `k` is absent.
    pub open spec fn amount_of(&self, k: K) -> int {
        if self@.contains_key(k) {
            self@[k] as int
        } else {
            0
        }
    }

    /// The total bounds every amount, the number of keys is the size of the
    /// domain, and an empty map totals zero.
    pub proof fn lemma_total_facts(&self, k: K)
        requires
            self.wf(),
        ensures
            0 <= self.amount_of(k) <= self.spec_total(),
            self.spec_total() <= u128::MAX,
            self@.dom().finite(),
            self@.dom().len() == self.spec_len(),
            self.spec_len() == 0 ==> self.spec_total() == 0 && self@ == Map::<K, u128>::empty(),
    {
        let s = self.entries@;
        lemma_weighted_sum_nonneg(s, amount_weight::<K>());
        lemma_seq_to_map_dom(s, k);
        if self@.contains_key(k) {
            let i = choose|i: int| 0 <= i < s.len() && #[trigger] s[i].0 == k;
            lemma_seq_to_map_value(s, i);
            lemma_weighted_sum_bound(s, i, amount_weight::<K>());
        }
        lemma_seq_to_map_finite(s);
        if s.len() == 0 {
            assert(self@ =~= Map::<K, u128>::empty());
        }
    }

    /// An empty map.
    pub fn new() -> (r: Self)
        ensures
            r.wf(),
            r@ == Map::<K, u128>::empty(),
            r.spec_total() == 0,
            r.spec_len() == 0,
    {
        let r = AmountMap { entries: Vec::new(), total: 0 };
        proof {
            assert(r@ =~= Map::<K, u128>::empty());
        }
        r
    }

    /// The amount stored at `k`, if any.
    pub fn get(&self, k: &K) -> (r: Option<u128>)
        requires
            self.wf(),
        ensures
            r == (if self@.contains_key(*k) { Some(self@[*k]) } else { None::<u128> }),
    {
        match find_key(&self.entries, k) {
            Some(i) => {
                proof {
                    lemma_seq_to_map_value(self.entries@, i as int);
                }
                Some(self.entries[i].1)
            },
            None => {
                proof {
                    lemma_seq_to_map_dom(self.entries@, *k);
                }
                None
            },
        }
    }

    /// The amount stored at `k`, zero where `k` is absent.
    pub fn get_or_zero(&self, k: &K) -> (r: u128)
        requires
            self.wf(),
        ensures
            r == self.amount_of(*k),
    {
        match self.get(k) {
            Some(v) => v,
            None => 0,
        }
    }

    /// Whether `k` has an entry.
    pub fn contains_key(&self, k: &K) -> (r: bool)
        requires
            self.wf(),
        ensures
            r == self@.contains_key(*k),
    {
        self.get(k).is_some()
    }

    /// The number of keys and the total of the amounts.
    pub fn ann(&self) -> (r: NightAnn)
        requires
            self.wf(),
        ensures
            r.size == self.spec_len(),
            r.value == self.spec_total(),
    {
        NightAnn { size: self.entries.len(), value: self.total }
    }

    /// The number of keys.
    pub fn len(&self) -> (r: usize)
        requires
            self.wf(),
        ensures
            r == self.spec_len(),
    {
        self.entries.len()
    }

    /// A copy of this map.
    pub fn duplicate(&self) -> (r: Self)
        requires
            self.wf(),
        ensures
            r.wf(),
            r@ == self@,
            r.spec_total() == self.spec_total(),
            r.spec_len() == self.spec_len(),
    {
        AmountMap { entries: copy_vec(&self.entries), total: self.total }
    }

    /// Sets the amount at `k` to `v`, adding the key where it is absent.
    pub fn insert(&mut self, k: K, v: u128)
        requires
            old(self).wf(),
            old(self).spec_total() - old(self).amount_of(k) + v <= u128::MAX,
        ensures
            final(self).wf(),
            final(self)@ == old(self)@.insert(k, v),
            final(self).spec_total() == old(self).spec_total() - old(self).amount_of(k) + v,
            final(self).spec_len() == old(self).spec_len() + (if old(self)@.contains_key(k) { 0int } else { 1int }),
    {
        let ghost s = self.entries@;
        match find_key(&self.entries, &k) {
            Some(i) => {
                proof {
                    lemma_seq_to_map_value(s, i as int);
                    lemma_seq_to_map_update(s, i as int, v);
                    lemma_weighted_sum_update(s, i as int, (k, v), amount_weight::<K>());
                    lemma_weighted_sum_bound(s, i as int, amount_weight::<K>());
                }
                let old_v = self.entries[i].1;
                let new_total = self.total - old_v + v;
                self.entries.set(i, (k, v));
                self.total = new_total;
            },
            None => {
                proof {
                    lemma_seq_to_map_dom(s, k);
                    lemma_seq_to_map_push(s, k, v);
                    lemma_weighted_sum_push(s, (k, v), amount_weight::<K>());
                }
                let new_total = self.total + v;
                self.entries.push((k, v));
                self.total = new_total;
            },
        }
    }

    /// Removes the entry at `k`, if any.
    pub fn remove(&mut self, k: &K)
        requires
            old(self).wf(),
        ensures
            final(self).wf(),
            final(self)@ == old(self)@.remove(*k),
            final(self).spec_total() == old(self).spec_total() - old(self).amount_of(*k),
            final(self).spec_len() == old(self).spec_len() - (if old(self)@.contains_key(*k) { 1int } else { 0int }),
    {
        let ghost s = self.entries@;
        match find_key(&self.entries, k) {
            Some(i) => {
                proof {
                    lemma_seq_to_map_value(s, i as int);
                    lemma_seq_to_map_remove(s, i as int);
                    lemma_weighted_sum_remove(s, i as int, amount_weight::<K>());
                    lemma_weighted_sum_bound(s, i as int, amount_weight::<K>());
                }
                let old_v = self.entries[i].1;
                let new_total = self.total - old_v;
                self.entries.remove(i);
                self.total = new_total;
            },
            None => {
                proof {
                    lemma_seq_to_map_dom(s, *k);
                    assert(seq_to_map(s).remove(*k) =~= seq_to_map(s));
                }
            },
        }
    }
}

/// The map of a sequence of entries has a finite domain, of the size of the
/// sequence when the keys are distinct.
pub proof fn lemma_seq_to_map_finite<K, V>(s: Seq<(K, V)>)
    ensures
        seq_to_map(s).dom().finite(),
        keys_unique(s) ==> seq_to_map(s).dom().len() == s.len(),
    decreases s.len(),
{
    if s.len() > 0 {
        lemma_seq_to_map_finite(s.drop_last());
        if keys_unique(s) {
            assert(keys_unique(s.drop_last()));
            lemma_seq_to_map_dom(s.drop_last(), s.last().0);
            if seq_to_map(s.drop_last()).dom().contains(s.last().0) {
                let i = choose|i: int| 0 <= i < s.drop_last().len() && #[trigger] s.drop_last()[i].0 == s.last().0;
                assert(s[i].0 == s[s.len() - 1].0);
            }
        }
    }
}


/// A finite map from keys to plain values, kept as entries with distinct keys.
#[derive(Debug)]
pub struct KeyMap<K: KeyEq, V: Copy> {
    entries: Vec<(K, V)>,
}

impl<K: KeyEq, V: Copy> View for KeyMap<K, V> {
    type V = Map<K, V>;

    closed spec fn view(&self) -> Map<K, V> {
        seq_to_map(self.entries@)
    }
}

impl<K: KeyEq, V: Copy> KeyMap<K, V> {
    /// Distinct keys.
    pub closed spec fn wf(&self) -> bool {
        keys_unique(self.entries@)
    }

    /// The map has a finite domain.
    pub proof fn lemma_finite(&self)
        ensures
            self@.dom().finite(),
    {
        lemma_seq_to_map_finite(self.entries@);
    }

    /// An empty map.
    pub fn new() -> (r: Self)
        ensures
            r.wf(),
            r@ == Map::<K, V>::empty(),
    {
        let r = KeyMap { entries: Vec::new() };
        proof {
            assert(r@ =~= Map::<K, V>::empty());
        }
        r
    }

    /// A copy of this map.
    pub fn duplicate(&self) -> (r: Self)
        requires
            self.wf(),
        ensures
            r.wf(),
            r@ == self@,
    {
        KeyMap { entries: copy_vec(&self.entries) }
    }

    /// The value at `k`, if any.
    pub fn get(&self, k: &K) -> (r: Option<V>)
        requires
            self.wf(),
        ensures
            r == (if self@.contains_key(*k) { Some(self@[*k]) } else { None::<V> }),
    {
        match find_key(&self.entries, k) {
            Some(i) => {
                proof {
                    lemma_seq_to_map_value(self.entries@, i as int);
                }
                Some(self.entries[i].1)
            },
            None => {
                proof {
                    lemma_seq_to_map_dom(self.entries@, *k);
                }
                None
            },
        }
    }

    /// Whether `k` has a value.
    pub fn contains_key(&self, k: &K) -> (r: bool)
        requires
            self.wf(),
        ensures
            r == self@.contains_key(*k),
    {
        self.get(k).is_some()
    }

    /// The keys, each once.
    pub fn keys(&self) -> (r: Vec<K>)
        requires
            self.wf(),
        ensures
            forall|k: K| self@.contains_key(k) <==> r@.contains(k),
    {
        let mut r: Vec<K> = Vec::new();
        let mut i: usize = 0;
        while i < self.entries.len()
            invariant
                0 <= i <= self.entries@.len(),
                r@.len() == i,
                forall|j: int| 0 <= j < i ==> #[trigger] r@[j] == self.entries@[j].0,
            decreases self.entries@.len() - i,
        {
            r.push(self.entries[i].0);
            i = i + 1;
        }
        proof {
            assert forall|k: K| self@.contains_key(k) <==> r@.contains(k) by {
                lemma_seq_to_map_dom(self.entries@, k);
                if self@.contains_key(k) {
                    let j = choose|j: int| 0 <= j < self.entries@.len() && #[trigger] self.entries@[j].0 == k;
                    assert(r@[j] == k);
                }
                if r@.contains(k) {
                    let j = choose|j: int| 0 <= j < r@.len() && r@[j] == k;
                    assert(self.entries@[j].0 == k);
                }
            }
        }
        r
    }

    /// Sets the value at `k`.
    pub fn insert(&mut self, k: K, v: V)
        requires
            old(self).wf(),
        ensures
            final(self).wf(),
            final(self)@ == old(self)@.insert(k, v),
    {
        let ghost s = self.entries@;
        match find_key(&self.entries, &k) {
            Some(i) => {
                proof {
                    lemma_seq_to_map_update(s, i as int, v);
                }
                self.entries.set(i, (k, v));
            },
            None => {
                proof {
                    lemma_seq_to_map_dom(s, k);
                    lemma_seq_to_map_push(s, k, v);
                }
                self.entries.push((k, v));
            },
        }
    }

    /// Removes the value at `k`, if any.
    pub fn remove(&mut self, k: &K)
        requires
            old(self).wf(),
        ensures
            final(self).wf(),
            final(self)@ == old(self)@.remove(*k),
    {
        let ghost s = self.entries@;
        match find_key(&self.entries, k) {
            Some(i) => {
                proof {
                    lemma_seq_to_map_remove(s, i as int);
                }
                self.entries.remove(i);
            },
            None => {
                proof {
                    lemma_seq_to_map_dom(s, *k);
                    assert(seq_to_map(s).remove(*k) =~= seq_to_map(s));
                }
            },
        }
    }
}


/// The entries of a multimap with each value list taken by its view.
pub open spec fn multi_entries<K, V>(s: Seq<(K, Vec<V>)>) -> Seq<(K, Seq<V>)> {
    s.map_values(|e: (K, Vec<V>)| (e.0, e.1@))
}

/// A map from keys to lists of plain values, kept as entries with distinct
/// keys.
pub struct MultiMap<K: KeyEq, V: Copy> {
    entries: Vec<(K, Vec<V>)>,
}

impl<K: KeyEq, V: Copy> View for MultiMap<K, V> {
    type V = Map<K, Seq<V>>;

    closed spec fn view(&self) -> Map<K, Seq<V>> {
        seq_to_map(multi_entries(self.entries@))
    }
}

impl<K: KeyEq, V: Copy> MultiMap<K, V> {
    /// Distinct keys.
    pub closed spec fn wf(&self) -> bool {
        keys_unique(multi_entries(self.entries@))
    }

    /// The list at `k`, empty where `k` is absent.
    pub open spec fn list(&self, k: K) -> Seq<V> {
        if self@.contains_key(k) {
            self@[k]
        } else {
            Seq::empty()
        }
    }

    /// An empty multimap.
    pub fn new() -> (r: Self)
        ensures
            r.wf(),
            r@ == Map::<K, Seq<V>>::empty(),
    {
        let r = MultiMap { entries: Vec::new() };
        proof {
            assert(multi_entries(r.entries@) =~= Seq::<(K, Seq<V>)>::empty());
            assert(r@ =~= Map::<K, Seq<V>>::empty());
        }
        r
    }

    fn find(&self, k: &K) -> (r: Option<usize>)
        ensures
            match r {
                Some(i) => i < self.entries@.len() && self.entries@[i as int].0 == *k,
                None => forall|j: int| 0 <= j < self.entries@.len() ==> #[trigger] self.entries@[j].0 != *k,
            },
    {
        let mut i: usize = 0;
        while i < self.entries.len()
            invariant
                0 <= i <= self.entries@.len(),
                forall|j: int| 0 <= j < i ==> #[trigger] self.entries@[j].0 != *k,
            decreases self.entries@.len() - i,
        {
            if self.entries[i].0.key_eq(k) {
                return Some(i);
            }
            i = i + 1;
        }
        None
    }

    /// A copy of the list at `k`, empty where `k` is absent.
    pub fn get(&self, k: &K) -> (r: Vec<V>)
        requires
            self.wf(),
        ensures
            r@ == self.list(*k),
    {
        let ghost m = multi_entries(self.entries@);
        match self.find(k) {
            Some(i) => {
                proof {
                    lemma_seq_to_map_value(m, i as int);
                }
                copy_vec(&self.entries[i].1)
            },
            None => {
                proof {
                    lemma_seq_to_map_dom(m, *k);
                }
                Vec::new()
            },
        }
    }

    /// Appends `v` to the list at `k`.
    pub fn push(&mut self, k: K, v: V)
        requires
            old(self).wf(),
        ensures
            final(self).wf(),
            final(self)@ == old(self)@.insert(k, old(self).list(k).push(v)),
    {
        let ghost m = multi_entries(self.entries@);
        match self.find(&k) {
            Some(i) => {
                let mut inner = copy_vec(&self.entries[i].1);
                inner.push(v);
                proof {
                    lemma_seq_to_map_value(m, i as int);
                    lemma_seq_to_map_update(m, i as int, inner@);
                }
                let ghost old_entries = self.entries@;
                self.entries.set(i, (k, inner));
                proof {
                    assert(multi_entries(self.entries@) =~= m.update(i as int, (m[i as int].0, inner@)));
                }
            },
            None => {
                let mut inner: Vec<V> = Vec::new();
                inner.push(v);
                proof {
                    lemma_seq_to_map_dom(m, k);
                    lemma_seq_to_map_push(m, k, inner@);
                    assert(Seq::<V>::empty().push(v) =~= inner@);
                }
                self.entries.push((k, inner));
                proof {
                    assert(multi_entries(self.entries@) =~= m.push((k, inner@)));
                }
            },
        }
    }
}

} // verus!
