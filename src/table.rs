//! Small tables keyed by text: a vector of `(key, value)` pairs whose keys are
//! distinct.

use vstd::prelude::*;

verus! {

/// The keys of a table, in order.
pub open spec fn keys_of<V>(s: Seq<(String, V)>) -> Seq<Seq<char>> {
    s.map_values(|e: (String, V)| e.0@)
}

/// No key occurs twice.
pub open spec fn unique_keys(keys: Seq<Seq<char>>) -> bool {
    forall|i: int, j: int|
        0 <= i < keys.len() && 0 <= j < keys.len() && #[trigger] keys[i] == #[trigger] keys[j]
            ==> i == j
}

/// Where `k` stands among `keys`, or -1 where it is absent.
pub open spec fn index_of(keys: Seq<Seq<char>>, k: Seq<char>) -> int {
    if exists|i: int| 0 <= i < keys.len() && keys[i] == k {
        choose|i: int| 0 <= i < keys.len() && keys[i] == k
    } else {
        -1
    }
}

/// In a table with distinct keys, the index of a key is the one place it stands.
pub proof fn lemma_index_of(keys: Seq<Seq<char>>, k: Seq<char>, i: int)
    requires
        unique_keys(keys),
        0 <= i < keys.len(),
        keys[i] == k,
    ensures
        index_of(keys, k) == i,
{
    assert(exists|j: int| 0 <= j < keys.len() && keys[j] == k);
    let j = choose|j: int| 0 <= j < keys.len() && keys[j] == k;
    assert(keys[i] == keys[j]);
}

/// A key that does not occur has index -1.
pub proof fn lemma_index_of_absent(keys: Seq<Seq<char>>, k: Seq<char>)
    requires
        forall|i: int| 0 <= i < keys.len() ==> keys[i] != k,
    ensures
        index_of(keys, k) == -1,
{
}

/// Adding a new key keeps the keys distinct.
pub proof fn lemma_unique_push(keys: Seq<Seq<char>>, k: Seq<char>)
    requires
        unique_keys(keys),
        index_of(keys, k) == -1,
    ensures
        unique_keys(keys.push(k)),
{
    let ks = keys.push(k);
    assert forall|i: int, j: int|
        0 <= i < ks.len() && 0 <= j < ks.len() && #[trigger] ks[i] == #[trigger] ks[j] implies i
        == j by {
        if i < keys.len() && j == keys.len() {
            assert(keys[i] == k);
        }
        if j < keys.len() && i == keys.len() {
            assert(keys[j] == k);
        }
    }
}

/// Finds the place of `k` in a table.
pub fn find_key<V>(v: &Vec<(String, V)>, k: &String) -> (r: Option<usize>)
    requires
        unique_keys(keys_of(v@)),
    ensures
        match r {
            Some(i) => i < v@.len() && i == index_of(keys_of(v@), k@) && v@[i as int].0@ == k@,
            None => index_of(keys_of(v@), k@) == -1,
        },
{
    let mut i: usize = 0;
    while i < v.len()
        invariant
            i <= v@.len(),
            unique_keys(keys_of(v@)),
            forall|j: int| 0 <= j < i ==> keys_of(v@)[j] != k@,
        decreases v@.len() - i,
    {
        if v[i].0 == *k {
            proof {
                lemma_index_of(keys_of(v@), k@, i as int);
            }
            return Some(i);
        }
        i = i + 1;
    }
    proof {
        lemma_index_of_absent(keys_of(v@), k@);
    }
    None
}

/// The entries of `s[..n]` whose flag in `keep` is set, in order.
pub open spec fn select<A>(s: Seq<A>, keep: Seq<bool>, n: int) -> Seq<A>
    decreases n,
{
    if n <= 0 {
        Seq::empty()
    } else if keep[n - 1] {
        select(s, keep, n - 1).push(s[n - 1])
    } else {
        select(s, keep, n - 1)
    }
}

/// What holds of every entry holds of every selected entry.
pub proof fn lemma_select_all<A>(s: Seq<A>, keep: Seq<bool>, n: int, p: spec_fn(A) -> bool)
    requires
        0 <= n <= s.len(),
        n <= keep.len(),
        forall|i: int| 0 <= i < s.len() ==> p(#[trigger] s[i]),
    ensures
        forall|i: int| 0 <= i < select(s, keep, n).len() ==> p(#[trigger] select(s, keep, n)[i]),
    decreases n,
{
    if n > 0 {
        lemma_select_all(s, keep, n - 1, p);
        let prev = select(s, keep, n - 1);
        if keep[n - 1] {
            assert forall|i: int| 0 <= i < prev.push(s[n - 1]).len() implies p(
                #[trigger] prev.push(s[n - 1])[i],
            ) by {
                if i < prev.len() {
                    assert(prev.push(s[n - 1])[i] == prev[i]);
                }
            }
        }
    }
}

/// Whether `k` is among the first `n` keys.
pub open spec fn in_prefix(keys: Seq<Seq<char>>, k: Seq<char>, n: int) -> bool {
    exists|j: int| 0 <= j < n && keys[j] == k
}

/// Keeps the entries whose flag is set; the keys stay distinct.
pub fn retain_flagged<V>(v: &mut Vec<(String, V)>, keep: &Vec<bool>)
    requires
        old(v)@.len() == keep@.len(),
        unique_keys(keys_of(old(v)@)),
    ensures
        final(v)@ == select(old(v)@, keep@, keep@.len() as int),
        unique_keys(keys_of(final(v)@)),
{
    let ghost orig = v@;
    let mut out: Vec<(String, V)> = Vec::new();
    let mut i: usize = 0;
    let n = keep.len();
    while i < n
        invariant
            n == keep@.len(),
            n == orig.len(),
            i <= n,
            v@ == orig.subrange(i as int, n as int),
            out@ == select(orig, keep@, i as int),
            unique_keys(keys_of(orig)),
            unique_keys(keys_of(out@)),
            forall|k: int| 0 <= k < out@.len() ==> in_prefix(keys_of(orig), (#[trigger] out@[k]).0@, i as int),
        decreases n - i,
    {
        let e = v.remove(0);
        assert(e == orig[i as int]);
        if keep[i] {
            let ghost before = out@;
            proof {
                assert forall|k: int| 0 <= k < before.len() implies keys_of(before)[k] != e.0@ by {
                    let j = choose|j: int| 0 <= j < i && keys_of(orig)[j] == before[k].0@;
                    assert(keys_of(orig)[i as int] == e.0@);
                }
                lemma_index_of_absent(keys_of(before), e.0@);
                lemma_unique_push(keys_of(before), e.0@);
                assert(keys_of(before.push(e)) =~= keys_of(before).push(e.0@));
            }
            out.push(e);
            proof {
                assert forall|k: int| 0 <= k < out@.len() implies in_prefix(keys_of(orig), (#[trigger] out@[k]).0@, i + 1) by {
                    if k < before.len() {
                        let j = choose|j: int| 0 <= j < i && keys_of(orig)[j] == before[k].0@;
                        assert(out@[k] == before[k]);
                        assert(keys_of(orig)[j] == out@[k].0@);
                    } else {
                        assert(out@[k].0@ == keys_of(orig)[i as int]);
                        assert(keys_of(orig)[i as int] == out@[k].0@);
                    }
                }
            }
        } else {
            proof {
                assert forall|k: int| 0 <= k < out@.len() implies in_prefix(keys_of(orig), (#[trigger] out@[k]).0@, i + 1) by {
                    let j = choose|j: int| 0 <= j < i && keys_of(orig)[j] == out@[k].0@;
                    assert(keys_of(orig)[j] == out@[k].0@);
                }
            }
        }
        assert(v@ =~= orig.subrange(i + 1, n as int));
        i = i + 1;
    }
    *v = out;
}

/// Removing an entry keeps the keys distinct.
pub proof fn lemma_unique_remove<V>(v: Seq<(String, V)>, i: int)
    requires
        unique_keys(keys_of(v)),
        0 <= i < v.len(),
    ensures
        keys_of(v.remove(i)) == keys_of(v).remove(i),
        unique_keys(keys_of(v.remove(i))),
{
    let ks = keys_of(v);
    let rs = keys_of(v.remove(i));
    assert(rs =~= ks.remove(i));
    assert forall|a: int, b: int|
        0 <= a < rs.len() && 0 <= b < rs.len() && #[trigger] rs[a] == #[trigger] rs[b] implies a
        == b by {
        let a2 = if a < i { a } else { a + 1 };
        let b2 = if b < i { b } else { b + 1 };
        assert(ks[a2] == ks[b2]);
    }
}

/// Removes the entry with key `k`, where there is one.
pub fn remove_key<V>(v: &mut Vec<(String, V)>, k: &String)
    requires
        unique_keys(keys_of(old(v)@)),
    ensures
        unique_keys(keys_of(final(v)@)),
        final(v)@ == (if index_of(keys_of(old(v)@), k@) >= 0 {
            old(v)@.remove(index_of(keys_of(old(v)@), k@))
        } else {
            old(v)@
        }),
{
    match find_key(v, k) {
        Some(i) => {
            proof {
                lemma_unique_remove(v@, i as int);
            }
            v.remove(i);
        },
        None => {},
    }
}

} // verus!
