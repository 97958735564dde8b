//! Association lists: a sequence of (key, value) pairs whose keys are
//! distinct stands for a finite map.
use vstd::prelude::*;

verus! {

/// No key occurs twice.
pub open spec fn keys_distinct<K, V>(s: Seq<(K, V)>) -> bool {
    forall|i: int, j: int| 0 <= i < j < s.len() ==> (#[trigger] s[i]).0 != (#[trigger] s[j]).0
}

/// Whether `k` is the key of some pair of `s`.
pub open spec fn has_key<K, V>(s: Seq<(K, V)>, k: K) -> bool {
    exists|i: int| 0 <= i < s.len() && (#[trigger] s[i]).0 == k
}

/// The map that an association list stands for.
pub open spec fn assoc<K, V>(s: Seq<(K, V)>) -> Map<K, V> {
    Map::new(
        |k: K| has_key(s, k),
        |k: K| s[choose|i: int| 0 <= i < s.len() && (#[trigger] s[i]).0 == k].1,
    )
}

pub proof fn lemma_assoc_at<K, V>(s: Seq<(K, V)>, i: int)
    requires
        keys_distinct(s),
        0 <= i < s.len(),
    ensures
        assoc(s).contains_key(s[i].0),
        assoc(s)[s[i].0] == s[i].1,
{
    let k = s[i].0;
    assert(has_key(s, k));
    let j = choose|j: int| 0 <= j < s.len() && (#[trigger] s[j]).0 == k;
    if j != i {
        if i < j {
            assert(s[i].0 != s[j].0);
        } else {
            assert(s[j].0 != s[i].0);
        }
    }
}

pub proof fn lemma_assoc_absent<K, V>(s: Seq<(K, V)>, k: K)
    requires
        forall|i: int| 0 <= i < s.len() ==> (#[trigger] s[i]).0 != k,
    ensures
        !assoc(s).contains_key(k),
{
}

pub proof fn lemma_assoc_push<K, V>(s: Seq<(K, V)>, k: K, v: V)
    requires
        keys_distinct(s),
        !has_key(s, k),
    ensures
        keys_distinct(s.push((k, v))),
        assoc(s.push((k, v))) == assoc(s).insert(k, v),
{
    let t = s.push((k, v));
    assert forall|i: int, j: int| 0 <= i < j < t.len() implies (#[trigger] t[i]).0 != (
    #[trigger] t[j]).0 by {
        if j == s.len() {
            assert(t[i] == s[i]);
        } else {
            assert(t[i] == s[i] && t[j] == s[j]);
        }
    }
    let m = assoc(s).insert(k, v);
    assert forall|x: K| #[trigger] assoc(t).contains_key(x) == m.contains_key(x) by {
        if has_key(t, x) {
            let i = choose|i: int| 0 <= i < t.len() && (#[trigger] t[i]).0 == x;
            if i < s.len() {
                assert(s[i] == t[i]);
                assert(has_key(s, x));
            }
        }
        if has_key(s, x) {
            let i = choose|i: int| 0 <= i < s.len() && (#[trigger] s[i]).0 == x;
            assert(t[i] == s[i]);
        }
        if x == k {
            assert(t[s.len() as int].0 == k);
        }
    }
    assert forall|x: K| #[trigger] assoc(t).contains_key(x) implies assoc(t)[x] == m[x] by {
        let i = choose|i: int| 0 <= i < t.len() && (#[trigger] t[i]).0 == x;
        lemma_assoc_at(t, i);
        if i < s.len() {
            assert(t[i] == s[i]);
            lemma_assoc_at(s, i);
        }
    }
    assert(assoc(t) =~= m);
}

pub proof fn lemma_assoc_update<K, V>(s: Seq<(K, V)>, i: int, v: V)
    requires
        keys_distinct(s),
        0 <= i < s.len(),
    ensures
        keys_distinct(s.update(i, (s[i].0, v))),
        assoc(s.update(i, (s[i].0, v))) == assoc(s).insert(s[i].0, v),
{
    let k = s[i].0;
    let t = s.update(i, (k, v));
    assert forall|a: int, b: int| 0 <= a < b < t.len() implies (#[trigger] t[a]).0 != (
    #[trigger] t[b]).0 by {
        assert(t[a].0 == s[a].0 && t[b].0 == s[b].0);
    }
    let m = assoc(s).insert(k, v);
    assert forall|x: K| #[trigger] assoc(t).contains_key(x) == m.contains_key(x) by {
        if has_key(t, x) {
            let j = choose|j: int| 0 <= j < t.len() && (#[trigger] t[j]).0 == x;
            assert(s[j].0 == x);
        }
        if has_key(s, x) {
            let j = choose|j: int| 0 <= j < s.len() && (#[trigger] s[j]).0 == x;
            assert(t[j].0 == x);
        }
        assert(t[i].0 == k);
    }
    assert forall|x: K| #[trigger] assoc(t).contains_key(x) implies assoc(t)[x] == m[x] by {
        let j = choose|j: int| 0 <= j < t.len() && (#[trigger] t[j]).0 == x;
        lemma_assoc_at(t, j);
        if j != i {
            lemma_assoc_at(s, j);
            assert(s[j].0 != k) by {
                if j < i {
                    assert(s[j].0 != s[i].0);
                } else {
                    assert(s[i].0 != s[j].0);
                }
            }
        }
    }
    assert(assoc(t) =~= m);
}

pub proof fn lemma_assoc_remove<K, V>(s: Seq<(K, V)>, i: int)
    requires
        keys_distinct(s),
        0 <= i < s.len(),
    ensures
        keys_distinct(s.remove(i)),
        assoc(s.remove(i)) == assoc(s).remove(s[i].0),
{
    let k = s[i].0;
    let t = s.remove(i);
    assert forall|a: int| 0 <= a < t.len() implies #[trigger] t[a] == (if a < i {
        s[a]
    } else {
        s[a + 1]
    }) by {}
    assert forall|a: int, b: int| 0 <= a < b < t.len() implies (#[trigger] t[a]).0 != (
    #[trigger] t[b]).0 by {
        let a2 = if a < i {
            a
        } else {
            a + 1
        };
        let b2 = if b < i {
            b
        } else {
            b + 1
        };
        assert(t[a] == s[a2] && t[b] == s[b2]);
        assert(s[a2].0 != s[b2].0);
    }
    let m = assoc(s).remove(k);
    assert forall|x: K| #[trigger] assoc(t).contains_key(x) == m.contains_key(x) by {
        if has_key(t, x) {
            let j = choose|j: int| 0 <= j < t.len() && (#[trigger] t[j]).0 == x;
            let j2 = if j < i {
                j
            } else {
                j + 1
            };
            assert(s[j2].0 == x);
            assert(s[j2].0 != s[i].0) by {
                if j2 < i {
                } else {
                    assert(i < j2);
                }
            }
        }
        if has_key(s, x) && x != k {
            let j = choose|j: int| 0 <= j < s.len() && (#[trigger] s[j]).0 == x;
            assert(j != i);
            if j < i {
                assert(t[j] == s[j]);
            } else {
                assert(t[j - 1] == s[j]);
            }
        }
    }
    assert forall|x: K| #[trigger] assoc(t).contains_key(x) implies assoc(t)[x] == m[x] by {
        let j = choose|j: int| 0 <= j < t.len() && (#[trigger] t[j]).0 == x;
        lemma_assoc_at(t, j);
        let j2 = if j < i {
            j
        } else {
            j + 1
        };
        assert(t[j] == s[j2]);
        lemma_assoc_at(s, j2);
    }
    assert(assoc(t) =~= m);
}

pub proof fn lemma_assoc_empty<K, V>(s: Seq<(K, V)>)
    requires
        s.len() == 0,
    ensures
        assoc(s) == Map::<K, V>::empty(),
        keys_distinct(s),
{
    assert(assoc(s) =~= Map::<K, V>::empty());
}


/// The position of the first element of `s` that satisfies `p`, or -1.
pub open spec fn first_match<T>(s: Seq<T>, p: spec_fn(T) -> bool) -> int
    decreases s.len(),
{
    if s.len() == 0 {
        -1
    } else {
        let i = first_match(s.drop_last(), p);
        if i >= 0 {
            i
        } else if p(s.last()) {
            s.len() - 1
        } else {
            -1
        }
    }
}

/// `first_match` is -1 when no element satisfies `p`, and otherwise the
/// position of one that does, with none before it.
pub proof fn lemma_first_match<T>(s: Seq<T>, p: spec_fn(T) -> bool)
    ensures
        first_match(s, p) == -1 <==> forall|j: int| 0 <= j < s.len() ==> !p(#[trigger] s[j]),
        first_match(s, p) != -1 ==> {
            let j = first_match(s, p);
            &&& 0 <= j < s.len()
            &&& p(s[j])
            &&& forall|k: int| 0 <= k < j ==> !p(#[trigger] s[k])
        },
    decreases s.len(),
{
    if s.len() > 0 {
        let d = s.drop_last();
        lemma_first_match(d, p);
        assert forall|j: int| 0 <= j < d.len() implies d[j] == s[j] by {}
    }
}

} // verus!
