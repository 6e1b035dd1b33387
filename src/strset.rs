//! Sets of strings kept in a vector (the relay's blacklist and blocklist).

use vstd::prelude::*;
use vstd::string::*;

verus! {

/// Whether some entry of `v` reads `x`.
pub open spec fn has(v: Seq<String>, x: Seq<char>) -> bool {
    exists|i: int| 0 <= i < v.len() && (#[trigger] v[i])@ == x
}

/// Whether some entry of `v` reads `x`.
pub fn list_contains(v: &Vec<String>, x: &String) -> (r: bool)
    ensures
        r == has(v@, x@),
{
    let mut i: usize = 0;
    while i < v.len()
        invariant
            i <= v@.len(),
            forall|j: int| 0 <= j < i ==> (#[trigger] v@[j])@ != x@,
        decreases v@.len() - i,
    {
        if v[i] == *x {
            assert(v@[i as int]@ == x@);
            return true;
        }
        i = i + 1;
    }
    false
}

/// Adds `x` unless it is there.
pub fn list_insert(v: &mut Vec<String>, x: &String)
    ensures
        forall|y: Seq<char>| has(final(v)@, y) <==> (has(old(v)@, y) || y == x@),
{
    if !list_contains(v, x) {
        v.push(x.clone());
        assert forall|y: Seq<char>| has(v@, y) <==> (has(old(v)@, y) || y == x@) by {
            if has(v@, y) {
                let i = choose|i: int| 0 <= i < v@.len() && (#[trigger] v@[i])@ == y;
                if i < old(v)@.len() {
                    assert(old(v)@[i] == v@[i]);
                }
            }
            if has(old(v)@, y) {
                let i = choose|i: int| 0 <= i < old(v)@.len() && (#[trigger] old(v)@[i])@ == y;
                assert(v@[i] == old(v)@[i]);
            }
            if y == x@ {
                assert(v@[old(v)@.len() as int]@ == x@);
            }
        }
    }
}

/// Takes out every entry that reads `x`.
pub fn list_remove(v: &mut Vec<String>, x: &String)
    ensures
        forall|y: Seq<char>| has(final(v)@, y) <==> (has(old(v)@, y) && y != x@),
{
    let mut r: Vec<String> = Vec::new();
    let mut i: usize = 0;
    while i < v.len()
        invariant
            i <= v@.len(),
            v@ == old(v)@,
            forall|y: Seq<char>| has(r@, y) <==> (has(v@.subrange(0, i as int), y) && y != x@),
        decreases v@.len() - i,
    {
        let ghost r0 = r@;
        if !(v[i] == *x) {
            r.push(v[i].clone());
        }
        proof {
            let pre = v@.subrange(0, i as int);
            let pre2 = v@.subrange(0, i + 1);
            assert forall|y: Seq<char>| has(r@, y) <==> (has(pre2, y) && y != x@) by {
                if has(r@, y) {
                    let k = choose|k: int| 0 <= k < r@.len() && (#[trigger] r@[k])@ == y;
                    if k < r0.len() {
                        assert(r0[k] == r@[k]);
                        assert(has(r0, y));
                        let m = choose|m: int| 0 <= m < pre.len() && (#[trigger] pre[m])@ == y;
                        assert(pre2[m] == pre[m]);
                    } else {
                        assert(pre2[i as int] == v@[i as int]);
                    }
                }
                if has(pre2, y) && y != x@ {
                    let m = choose|m: int| 0 <= m < pre2.len() && (#[trigger] pre2[m])@ == y;
                    if m < i {
                        assert(pre[m] == pre2[m]);
                        assert(has(pre, y));
                        assert(has(r0, y));
                        let k = choose|k: int| 0 <= k < r0.len() && (#[trigger] r0[k])@ == y;
                        assert(r@[k] == r0[k]);
                    } else {
                        assert(r@[r0.len() as int]@ == y);
                    }
                }
            }
        }
        i = i + 1;
    }
    assert(v@.subrange(0, v@.len() as int) =~= v@);
    *v = r;
}

/// The entries of `v`, one per line.
pub open spec fn lines(v: Seq<Seq<char>>) -> Seq<char>
    decreases v.len(),
{
    if v.len() == 0 {
        Seq::empty()
    } else {
        lines(v.drop_last()) + v.last() + seq!['\n']
    }
}

/// Writes the entries of `v`, one per line.
pub fn write_lines(v: &Vec<String>) -> (r: String)
    ensures
        r@ == lines(v@.map_values(|s: String| s@)),
{
    let ghost sv = v@.map_values(|s: String| s@);
    let mut r = String::new();
    let mut i: usize = 0;
    while i < v.len()
        invariant
            i <= v@.len(),
            sv == v@.map_values(|s: String| s@),
            r@ == lines(sv.subrange(0, i as int)),
        decreases v@.len() - i,
    {
        r.append(v[i].as_str());
        r.append("\n");
        proof {
            reveal_strlit("\n");
            assert(sv.subrange(0, i + 1).drop_last() =~= sv.subrange(0, i as int));
        }
        i = i + 1;
    }
    assert(sv.subrange(0, v@.len() as int) =~= sv);
    r
}

} // verus!
