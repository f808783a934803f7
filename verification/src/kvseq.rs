//! Specification vocabulary for sequences of key/value pairs with unique
//! string keys, shared by every map-like type of the library.
use vstd::prelude::*;

verus! {

/// No key occurs twice.
pub open spec fn kv_unique<V>(m: Seq<(Seq<char>, V)>) -> bool {
    forall|i: int, j: int| 0 <= i < j < m.len() ==> (#[trigger] m[i]).0 != (#[trigger] m[j]).0
}

/// Whether some entry carries the key.
pub open spec fn kv_contains_key<V>(m: Seq<(Seq<char>, V)>, k: Seq<char>) -> bool {
    exists|i: int| 0 <= i < m.len() && (#[trigger] m[i]).0 == k
}

/// The value of the first entry with the key, if any.
pub open spec fn kv_lookup<V>(m: Seq<(Seq<char>, V)>, k: Seq<char>) -> Option<V>
    decreases m.len(),
{
    if m.len() == 0 {
        None
    } else if m[0].0 == k {
        Some(m[0].1)
    } else {
        kv_lookup(m.drop_first(), k)
    }
}

/// The position of the first entry with the key.
pub open spec fn kv_key_index<V>(m: Seq<(Seq<char>, V)>, k: Seq<char>) -> int
    decreases m.len(),
{
    if m.len() == 0 {
        0
    } else if m[0].0 == k {
        0
    } else {
        1 + kv_key_index(m.drop_first(), k)
    }
}

/// What storing a pair does to the entry sequence: the value of an existing
/// key is replaced in place; a new key is appended.
pub open spec fn kv_insert<V>(m: Seq<(Seq<char>, V)>, k: Seq<char>, v: V) -> Seq<(Seq<char>, V)> {
    if kv_contains_key(m, k) {
        m.update(kv_key_index(m, k), (k, v))
    } else {
        m.push((k, v))
    }
}

/// Folding a batch of pairs into the sequence, first pair first.
pub open spec fn kv_extend<V>(m: Seq<(Seq<char>, V)>, n: Seq<(Seq<char>, V)>) -> Seq<
    (Seq<char>, V),
>
    decreases n.len(),
{
    if n.len() == 0 {
        m
    } else {
        kv_extend(kv_insert(m, n[0].0, n[0].1), n.drop_first())
    }
}

/// The first match below position `i` settles both the lookup and the index.
pub proof fn lemma_kv_first_match<V>(m: Seq<(Seq<char>, V)>, k: Seq<char>, i: int)
    requires
        0 <= i < m.len(),
        m[i].0 == k,
        forall|j: int| 0 <= j < i ==> (#[trigger] m[j]).0 != k,
    ensures
        kv_contains_key(m, k),
        kv_key_index(m, k) == i,
        kv_lookup(m, k) == Some(m[i].1),
    decreases i,
{
    if i == 0 {
    } else {
        let t = m.drop_first();
        assert forall|j: int| 0 <= j < i - 1 implies (#[trigger] t[j]).0 != k by {
            assert(t[j] == m[j + 1]);
        }
        assert(t[i - 1] == m[i]);
        lemma_kv_first_match(t, k, i - 1);
    }
}

/// With no match anywhere, the lookup is empty.
pub proof fn lemma_kv_no_match<V>(m: Seq<(Seq<char>, V)>, k: Seq<char>)
    requires
        forall|j: int| 0 <= j < m.len() ==> (#[trigger] m[j]).0 != k,
    ensures
        !kv_contains_key(m, k),
        kv_lookup(m, k) is None,
    decreases m.len(),
{
    if m.len() > 0 {
        let t = m.drop_first();
        assert forall|j: int| 0 <= j < t.len() implies (#[trigger] t[j]).0 != k by {
            assert(t[j] == m[j + 1]);
        }
        lemma_kv_no_match(t, k);
    }
}

/// A lookup succeeds exactly when the sequence contains the key, and the
/// first index it names is a real first occurrence.
pub proof fn lemma_kv_lookup_contains<V>(m: Seq<(Seq<char>, V)>, k: Seq<char>)
    ensures
        kv_lookup(m, k) is Some <==> kv_contains_key(m, k),
        kv_contains_key(m, k) ==> {
            let i = kv_key_index(m, k);
            &&& 0 <= i < m.len()
            &&& m[i].0 == k
            &&& kv_lookup(m, k) == Some(m[i].1)
            &&& forall|j: int| 0 <= j < i ==> (#[trigger] m[j]).0 != k
        },
    decreases m.len(),
{
    if m.len() == 0 {
    } else if m[0].0 == k {
    } else {
        let t = m.drop_first();
        lemma_kv_lookup_contains(t, k);
        if kv_contains_key(t, k) {
            let i = choose|i: int| 0 <= i < t.len() && (#[trigger] t[i]).0 == k;
            assert(m[i + 1] == t[i]);
            assert(kv_contains_key(m, k));
            let w = kv_key_index(t, k);
            assert forall|j: int| 0 <= j < w + 1 implies (#[trigger] m[j]).0 != k by {
                if j > 0 {
                    assert(m[j] == t[j - 1]);
                }
            }
        } else {
            if kv_contains_key(m, k) {
                let i = choose|i: int| 0 <= i < m.len() && (#[trigger] m[i]).0 == k;
                assert(i > 0);
                assert(t[i - 1] == m[i]);
                assert(kv_contains_key(t, k));
            }
        }
    }
}

/// Storing a pair leaves the other keys' lookups unchanged and makes the
/// stored key map to the stored value.
pub proof fn lemma_kv_insert_lookup<V>(m: Seq<(Seq<char>, V)>, k: Seq<char>, v: V, q: Seq<char>)
    requires
        kv_unique(m),
    ensures
        kv_lookup(kv_insert(m, k, v), q) == if q == k {
            Some(v)
        } else {
            kv_lookup(m, q)
        },
        kv_contains_key(kv_insert(m, k, v), q) == (q == k || kv_contains_key(m, q)),
        kv_unique(kv_insert(m, k, v)),
{
    let n = kv_insert(m, k, v);
    lemma_kv_lookup_contains(m, k);
    if kv_contains_key(m, k) {
        let i = kv_key_index(m, k);
        assert(n =~= m.update(i, (k, v)));
        assert forall|a: int, b: int|
            0 <= a < b < n.len() implies (#[trigger] n[a]).0 != (#[trigger] n[b]).0 by {
            assert(m[a].0 == n[a].0 && m[b].0 == n[b].0);
        }
        assert forall|j: int| 0 <= j < i implies (#[trigger] n[j]).0 != k by {
            assert(n[j].0 == m[j].0);
        }
        lemma_kv_first_match(n, k, i);
        if q != k {
            lemma_kv_lookup_contains(m, q);
            lemma_kv_lookup_contains(n, q);
            if kv_contains_key(m, q) {
                let w = kv_key_index(m, q);
                assert(m[w].0 == q && w != i);
                assert(n[w] == m[w]);
                assert forall|j: int| 0 <= j < w implies (#[trigger] n[j]).0 != q by {
                    assert(n[j].0 == m[j].0);
                }
                lemma_kv_first_match(n, q, w);
            } else {
                assert forall|j: int| 0 <= j < n.len() implies (#[trigger] n[j]).0 != q by {
                    assert(n[j].0 == m[j].0);
                }
                lemma_kv_no_match(n, q);
            }
        }
    } else {
        assert(n =~= m.push((k, v)));
        assert forall|a: int, b: int|
            0 <= a < b < n.len() implies (#[trigger] n[a]).0 != (#[trigger] n[b]).0 by {
            if b < n.len() - 1 {
                assert(m[a].0 == n[a].0 && m[b].0 == n[b].0);
            } else {
                assert(n[a].0 == m[a].0);
                assert(!kv_contains_key(m, k));
            }
        }
        assert forall|j: int| 0 <= j < m.len() implies (#[trigger] n[j]).0 != k by {
            assert(n[j].0 == m[j].0);
            assert(!kv_contains_key(m, k));
        }
        lemma_kv_first_match(n, k, m.len() as int);
        if q != k {
            lemma_kv_lookup_contains(m, q);
            lemma_kv_lookup_contains(n, q);
            if kv_contains_key(m, q) {
                let w = kv_key_index(m, q);
                assert(n[w] == m[w]);
                assert forall|j: int| 0 <= j < w implies (#[trigger] n[j]).0 != q by {
                    assert(n[j].0 == m[j].0);
                }
                lemma_kv_first_match(n, q, w);
            } else {
                assert forall|j: int| 0 <= j < n.len() implies (#[trigger] n[j]).0 != q by {
                    if j < n.len() - 1 {
                        assert(n[j].0 == m[j].0);
                    }
                }
                lemma_kv_no_match(n, q);
            }
        }
    }
}

/// Folding one more pair at the end is one more store.
pub proof fn lemma_kv_extend_push<V>(
    m: Seq<(Seq<char>, V)>,
    n: Seq<(Seq<char>, V)>,
    x: (Seq<char>, V),
)
    ensures
        kv_extend(m, n.push(x)) == kv_insert(kv_extend(m, n), x.0, x.1),
    decreases n.len(),
{
    if n.len() == 0 {
        assert(n.push(x)[0] == x);
        assert(n.push(x).drop_first() =~= Seq::<(Seq<char>, V)>::empty());
        assert(kv_extend(m, n.push(x)) == kv_extend(
            kv_insert(m, x.0, x.1),
            Seq::<(Seq<char>, V)>::empty(),
        ));
        assert(kv_extend(kv_insert(m, x.0, x.1), Seq::<(Seq<char>, V)>::empty()) == kv_insert(
            m,
            x.0,
            x.1,
        ));
    } else {
        assert(n.push(x)[0] == n[0]);
        assert(n.push(x).drop_first() =~= n.drop_first().push(x));
        lemma_kv_extend_push(kv_insert(m, n[0].0, n[0].1), n.drop_first(), x);
    }
}

} // verus!
