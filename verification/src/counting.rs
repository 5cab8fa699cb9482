//! Multiset comparisons on vectors of plain values: how often a value
//! occurs, whether two vectors hold the same values equally often, whether
//! one holds no value more often than another, and which values repeat.
use vstd::prelude::*;
use crate::hash::KeyEq;

verus! {

broadcast use vstd::seq_lib::group_to_multiset_ensures;

/// The concatenation of `f` applied to each element of `s`, in order.
pub open spec fn flat_map<A, B>(s: Seq<A>, f: spec_fn(A) -> Seq<B>) -> Seq<B>
    decreases s.len(),
{
    if s.len() == 0 {
        Seq::empty()
    } else {
        flat_map(s.drop_last(), f) + f(s.last())
    }
}

/// Taking one more element of `s` appends its image.
pub proof fn lemma_flat_map_take<A, B>(s: Seq<A>, f: spec_fn(A) -> Seq<B>, i: int)
    requires
        0 <= i < s.len(),
    ensures
        flat_map(s.take(i + 1), f) == flat_map(s.take(i), f) + f(s[i]),
{
    assert(s.take(i + 1).drop_last() =~= s.take(i));
}

/// The image of a concatenation is the concatenation of the images.
pub proof fn lemma_flat_map_append<A, B>(a: Seq<A>, b: Seq<A>, f: spec_fn(A) -> Seq<B>)
    ensures
        flat_map(a + b, f) == flat_map(a, f) + flat_map(b, f),
    decreases b.len(),
{
    if b.len() == 0 {
        assert(a + b =~= a);
        assert(flat_map(a, f) + flat_map(b, f) =~= flat_map(a, f));
    } else {
        assert((a + b).drop_last() =~= a + b.drop_last());
        lemma_flat_map_append(a, b.drop_last(), f);
        assert(flat_map(a + b, f) =~= flat_map(a, f) + flat_map(b, f));
    }
}

/// The whole of `s` is its longest prefix.
pub proof fn lemma_flat_map_full<A, B>(s: Seq<A>, f: spec_fn(A) -> Seq<B>)
    ensures
        flat_map(s.take(s.len() as int), f) == flat_map(s, f),
{
    assert(s.take(s.len() as int) =~= s);
}

/// How often `x` occurs in `v`.
pub fn count_in<T: KeyEq>(v: &Vec<T>, x: &T) -> (r: usize)
    ensures
        r == v@.to_multiset().count(*x),
{
    let mut c: usize = 0;
    let mut i: usize = 0;
    while i < v.len()
        invariant
            0 <= i <= v@.len(),
            c == v@.take(i as int).to_multiset().count(*x),
            c <= i,
        decreases v@.len() - i,
    {
        assert(v@.take(i as int + 1) =~= v@.take(i as int).push(v@[i as int]));
        if v[i].key_eq(x) {
            c = c + 1;
        }
        i = i + 1;
    }
    assert(v@.take(v@.len() as int) =~= v@);
    c
}

/// Whether `a` and `b` hold the same values, each equally often.
pub fn same_multiset<T: KeyEq>(a: &Vec<T>, b: &Vec<T>) -> (r: bool)
    ensures
        r == (a@.to_multiset() =~= b@.to_multiset()),
{
    let mut i: usize = 0;
    while i < a.len()
        invariant
            0 <= i <= a@.len(),
            forall|j: int| 0 <= j < i ==> a@.to_multiset().count(#[trigger] a@[j]) == b@.to_multiset().count(a@[j]),
        decreases a@.len() - i,
    {
        if count_in(a, &a[i]) != count_in(b, &a[i]) {
            return false;
        }
        i = i + 1;
    }
    let mut k: usize = 0;
    while k < b.len()
        invariant
            0 <= k <= b@.len(),
            forall|j: int| 0 <= j < a@.len() ==> a@.to_multiset().count(#[trigger] a@[j]) == b@.to_multiset().count(a@[j]),
            forall|j: int| 0 <= j < k ==> a@.to_multiset().count(#[trigger] b@[j]) == b@.to_multiset().count(b@[j]),
        decreases b@.len() - k,
    {
        if count_in(a, &b[k]) != count_in(b, &b[k]) {
            return false;
        }
        k = k + 1;
    }
    assert forall|x: T| a@.to_multiset().count(x) == b@.to_multiset().count(x) by {
        if a@.contains(x) {
            let j = choose|j: int| 0 <= j < a@.len() && a@[j] == x;
            assert(a@.to_multiset().count(a@[j]) == b@.to_multiset().count(a@[j]));
        } else if b@.contains(x) {
            let j = choose|j: int| 0 <= j < b@.len() && b@[j] == x;
            assert(a@.to_multiset().count(b@[j]) == b@.to_multiset().count(b@[j]));
        }
    }
    true
}

/// Whether `sub` holds no value more often than `sup` does.
pub fn is_sub_multiset<T: KeyEq>(sub: &Vec<T>, sup: &Vec<T>) -> (r: bool)
    ensures
        r == sub@.to_multiset().subset_of(sup@.to_multiset()),
{
    let mut i: usize = 0;
    while i < sub.len()
        invariant
            0 <= i <= sub@.len(),
            forall|j: int| 0 <= j < i ==> sub@.to_multiset().count(#[trigger] sub@[j]) <= sup@.to_multiset().count(sub@[j]),
        decreases sub@.len() - i,
    {
        if count_in(sub, &sub[i]) > count_in(sup, &sub[i]) {
            return false;
        }
        i = i + 1;
    }
    assert forall|x: T| sub@.to_multiset().count(x) <= sup@.to_multiset().count(x) by {
        if sub@.contains(x) {
            let j = choose|j: int| 0 <= j < sub@.len() && sub@[j] == x;
            assert(sub@.to_multiset().count(sub@[j]) <= sup@.to_multiset().count(sub@[j]));
        }
    }
    true
}

/// The values of `v` that occur more than once, each once, with how often it
/// occurs.
pub open spec fn lists_repeated<T>(v: Seq<T>, r: Seq<(T, usize)>) -> bool {
    &&& forall|i: int, j: int| 0 <= i < j < r.len() ==> r[i].0 != r[j].0
    &&& forall|i: int| 0 <= i < r.len() ==> #[trigger] r[i].1 == v.to_multiset().count(r[i].0) && r[i].1 > 1
    &&& forall|x: T| v.to_multiset().count(x) > 1 ==> exists|i: int| 0 <= i < r.len() && #[trigger] r[i].0 == x
}

/// Lists the values of `v` that occur more than once, with their counts.
pub fn repeated<T: KeyEq>(v: &Vec<T>) -> (r: Vec<(T, usize)>)
    ensures
        lists_repeated(v@, r@),
{
    let mut r: Vec<(T, usize)> = Vec::new();
    let mut i: usize = 0;
    while i < v.len()
        invariant
            0 <= i <= v@.len(),
            forall|a: int, b: int| 0 <= a < b < r@.len() ==> r@[a].0 != r@[b].0,
            forall|a: int| 0 <= a < r@.len() ==> #[trigger] r@[a].1 == v@.to_multiset().count(r@[a].0) && r@[a].1 > 1,
            forall|j: int| 0 <= j < i && v@.to_multiset().count(#[trigger] v@[j]) > 1 ==> exists|a: int| 0 <= a < r@.len() && #[trigger] r@[a].0 == v@[j],
        decreases v@.len() - i,
    {
        let x = v[i];
        let c = count_in(v, &x);
        if c > 1 {
            let mut k: usize = 0;
            let mut seen = false;
            while k < r.len()
                invariant
                    0 <= k <= r@.len(),
                    seen ==> exists|a: int| 0 <= a < r@.len() && #[trigger] r@[a].0 == x,
                    !seen ==> forall|a: int| 0 <= a < k ==> #[trigger] r@[a].0 != x,
                decreases r@.len() - k,
            {
                if !seen && r[k].0.key_eq(&x) {
                    seen = true;
                }
                k = k + 1;
            }
            if !seen {
                let ghost old_r = r@;
                r.push((x, c));
                proof {
                    assert(r@[old_r.len() as int].0 == x);
                    assert forall|j: int| 0 <= j <= i && v@.to_multiset().count(#[trigger] v@[j]) > 1 implies exists|a: int| 0 <= a < r@.len() && #[trigger] r@[a].0 == v@[j] by {
                        if j < i {
                            let a = choose|a: int| 0 <= a < old_r.len() && #[trigger] old_r[a].0 == v@[j];
                            assert(r@[a].0 == v@[j]);
                        } else {
                            assert(r@[old_r.len() as int].0 == v@[j]);
                        }
                    }
                }
            }
        }
        i = i + 1;
    }
    proof {
        assert forall|x: T| v@.to_multiset().count(x) > 1 implies exists|a: int| 0 <= a < r@.len() && #[trigger] r@[a].0 == x by {
            assert(v@.contains(x));
            let j = choose|j: int| 0 <= j < v@.len() && v@[j] == x;
            assert(v@.to_multiset().count(v@[j]) > 1);
        }
    }
    r
}

/// The values of `v`, each once.
pub fn distinct_values<T: KeyEq>(v: &Vec<T>) -> (r: Vec<T>)
    ensures
        forall|i: int, j: int| 0 <= i < j < r@.len() ==> r@[i] != r@[j],
        forall|x: T| r@.contains(x) <==> v@.contains(x),
{
    let mut r: Vec<T> = Vec::new();
    let mut i: usize = 0;
    while i < v.len()
        invariant
            0 <= i <= v@.len(),
            forall|a: int, b: int| 0 <= a < b < r@.len() ==> r@[a] != r@[b],
            forall|x: T| r@.contains(x) <==> v@.take(i as int).contains(x),
        decreases v@.len() - i,
    {
        let x = v[i];
        let mut k: usize = 0;
        let mut seen = false;
        while k < r.len()
            invariant
                0 <= k <= r@.len(),
                seen ==> r@.contains(x),
                !seen ==> forall|a: int| 0 <= a < k ==> r@[a] != x,
            decreases r@.len() - k,
        {
            if !seen && r[k].key_eq(&x) {
                seen = true;
            }
            k = k + 1;
        }
        let ghost old_r = r@;
        if !seen {
            r.push(x);
        }
        proof {
            assert(v@.take(i as int + 1) =~= v@.take(i as int).push(x));
            assert forall|y: T| r@.contains(y) <==> v@.take(i as int + 1).contains(y) by {
                let t = v@.take(i as int);
                let t1 = v@.take(i as int + 1);
                if y == x {
                    assert(t1[i as int] == x);
                    if seen {
                        assert(r@ == old_r);
                    } else {
                        assert(r@[old_r.len() as int] == x);
                    }
                } else {
                    if r@.contains(y) {
                        let a = choose|a: int| 0 <= a < r@.len() && r@[a] == y;
                        assert(old_r[a] == y);
                        assert(old_r.contains(y));
                        assert(t.contains(y));
                        let b = choose|b: int| 0 <= b < t.len() && t[b] == y;
                        assert(t1[b] == y);
                    }
                    if t1.contains(y) {
                        let b = choose|b: int| 0 <= b < t1.len() && t1[b] == y;
                        assert(b < i);
                        assert(t[b] == y);
                        assert(t.contains(y));
                        assert(old_r.contains(y));
                        let a = choose|a: int| 0 <= a < old_r.len() && old_r[a] == y;
                        assert(r@[a] == y);
                    }
                }
            }
        }
        i = i + 1;
    }
    assert(v@.take(v@.len() as int) =~= v@);
    r
}

/// Whether some value occurs in both `a` and `b`.
pub fn intersects<T: KeyEq>(a: &Vec<T>, b: &Vec<T>) -> (r: bool)
    ensures
        r == exists|x: T| a@.contains(x) && b@.contains(x),
{
    let mut i: usize = 0;
    while i < a.len()
        invariant
            0 <= i <= a@.len(),
            forall|j: int| 0 <= j < i ==> !b@.contains(#[trigger] a@[j]),
        decreases a@.len() - i,
    {
        let mut k: usize = 0;
        while k < b.len()
            invariant
                0 <= k <= b@.len(),
                i < a@.len(),
                forall|j: int| 0 <= j < k ==> b@[j] != a@[i as int],
            decreases b@.len() - k,
        {
            if b[k].key_eq(&a[i]) {
                assert(a@.contains(a@[i as int]) && b@.contains(a@[i as int])) by {
                    assert(b@[k as int] == a@[i as int]);
                }
                return true;
            }
            k = k + 1;
        }
        i = i + 1;
    }
    assert forall|x: T| !(a@.contains(x) && b@.contains(x)) by {
        if a@.contains(x) {
            let j = choose|j: int| 0 <= j < a@.len() && a@[j] == x;
            assert(!b@.contains(a@[j]));
        }
    }
    false
}

/// `r` holds the values of `s`, each once.
pub open spec fn lists_each_once<T>(s: Seq<T>, r: Seq<T>) -> bool {
    &&& forall|i: int, j: int| 0 <= i < j < r.len() ==> r[i] != r[j]
    &&& forall|x: T| r.contains(x) <==> s.contains(x)
}

/// Some value occurs in both `a` and `b`.
pub open spec fn meets<T>(a: Seq<T>, b: Seq<T>) -> bool {
    exists|x: T| a.contains(x) && b.contains(x)
}

/// Appends the values of `items` to `acc`.
pub fn extend_with<T: Copy>(acc: &mut Vec<T>, items: &Vec<T>)
    ensures
        final(acc)@ == old(acc)@ + items@,
{
    let ghost start = acc@;
    let mut i: usize = 0;
    while i < items.len()
        invariant
            0 <= i <= items@.len(),
            acc@ == start + items@.take(i as int),
        decreases items@.len() - i,
    {
        acc.push(items[i]);
        assert(items@.take(i as int + 1) =~= items@.take(i as int).push(items@[i as int]));
        i = i + 1;
    }
    assert(items@.take(items@.len() as int) =~= items@);
}

} // verus!
