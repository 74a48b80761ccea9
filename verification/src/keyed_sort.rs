//! Stable sorting of values by a `u32` key, as insertion sort defines it.
use vstd::prelude::*;

verus! {

/// Position at which `key` goes into `s` so that it follows every element
/// whose key is at most `key` at the end of `s`: scanning from the back,
/// the place after the last element with key `<= key`.
pub open spec fn insert_pos<T>(s: Seq<(u32, T)>, key: u32) -> nat
    decreases s.len(),
{
    if s.len() == 0 {
        0
    } else if s.last().0 <= key {
        s.len()
    } else {
        insert_pos(s.drop_last(), key)
    }
}

/// `s` sorted by key, equal keys keeping their order (insertion sort).
pub open spec fn sorted_by_key<T>(s: Seq<(u32, T)>) -> Seq<(u32, T)>
    decreases s.len(),
{
    if s.len() == 0 {
        Seq::empty()
    } else {
        let r = sorted_by_key(s.drop_last());
        r.insert(insert_pos(r, s.last().0) as int, s.last())
    }
}

/// Keys never decrease along `s`.
pub open spec fn keys_ascending<T>(s: Seq<(u32, T)>) -> bool {
    forall|i: int, j: int| 0 <= i <= j < s.len() ==> s[i].0 <= s[j].0
}

proof fn lemma_insert_pos<T>(s: Seq<(u32, T)>, key: u32)
    requires
        keys_ascending(s),
    ensures
        insert_pos(s, key) <= s.len(),
        forall|i: int| 0 <= i < insert_pos(s, key) ==> s[i].0 <= key,
        forall|i: int| insert_pos(s, key) <= i < s.len() ==> s[i].0 > key,
    decreases s.len(),
{
    if s.len() > 0 {
        let d = s.drop_last();
        assert forall|i: int, j: int| 0 <= i <= j < d.len() implies d[i].0 <= d[j].0 by {
            assert(d[i] == s[i] && d[j] == s[j]);
        }
        if s.last().0 > key {
            lemma_insert_pos(d, key);
            assert forall|i: int| insert_pos(s, key) <= i < s.len() implies s[i].0 > key by {
                if i < d.len() {
                    assert(d[i] == s[i]);
                }
            }
            assert forall|i: int| 0 <= i < insert_pos(s, key) implies s[i].0 <= key by {
                assert(d[i] == s[i]);
            }
        } else {
            assert forall|i: int| 0 <= i < insert_pos(s, key) implies s[i].0 <= key by {
                assert(s[i].0 <= s[s.len() - 1].0);
            }
        }
    }
}

/// The sorted sequence has the keys in ascending order and holds the same
/// elements, as many times each, as the input.
pub proof fn lemma_sorted_by_key<T>(s: Seq<(u32, T)>)
    ensures
        keys_ascending(sorted_by_key(s)),
        sorted_by_key(s).to_multiset() == s.to_multiset(),
        sorted_by_key(s).len() == s.len(),
    decreases s.len(),
{
    broadcast use vstd::multiset::group_multiset_axioms;

    if s.len() == 0 {
        assert(s =~= Seq::<(u32, T)>::empty());
    } else {
        let prev = s.drop_last();
        lemma_sorted_by_key(prev);
        let r = sorted_by_key(prev);
        let x = s.last();
        let p = insert_pos(r, x.0) as int;
        lemma_insert_pos(r, x.0);
        let out = r.insert(p, x);
        assert(keys_ascending(out)) by {
            assert forall|i: int, j: int| 0 <= i <= j < out.len() implies out[i].0 <= out[j].0 by {
                if i < p && j < p {
                } else if i < p && j == p {
                } else if i < p && j > p {
                    assert(out[j] == r[j - 1]);
                } else if i == p && j > p {
                    assert(out[j] == r[j - 1]);
                } else if i > p {
                    assert(out[i] == r[i - 1]);
                    assert(out[j] == r[j - 1]);
                }
            }
        }
        vstd::seq_lib::to_multiset_insert(r, p, x);
        vstd::seq_lib::to_multiset_build(prev, x);
        assert(s =~= prev.push(x));
    }
}

/// Sorts by key, equal keys keeping their order.
pub fn sort_by_key<T: Copy>(v: &Vec<(u32, T)>) -> (r: Vec<(u32, T)>)
    ensures
        r@ == sorted_by_key(v@),
{
    let mut r: Vec<(u32, T)> = Vec::new();
    let mut i: usize = 0;
    while i < v.len()
        invariant
            i <= v@.len(),
            r@ == sorted_by_key(v@.take(i as int)),
        decreases v@.len() - i,
    {
        proof {
            assert(v@.take(i + 1).drop_last() =~= v@.take(i as int));
            lemma_sorted_by_key(v@.take(i as int));
        }
        let x = v[i];
        let mut p: usize = r.len();
        proof {
            assert(r@.take(r@.len() as int) =~= r@);
        }
        while p > 0 && r[p - 1].0 > x.0
            invariant
                p <= r@.len(),
                insert_pos(r@, x.0) == insert_pos(r@.take(p as int), x.0),
            decreases p,
        {
            proof {
                assert(r@.take(p as int).drop_last() =~= r@.take(p - 1));
            }
            p -= 1;
        }
        proof {
            if p > 0 {
                assert(r@.take(p as int).last() == r@[p - 1]);
            } else {
                assert(r@.take(0) =~= Seq::<(u32, T)>::empty());
            }
        }
        r.insert(p, x);
        i += 1;
    }
    proof {
        assert(v@.take(i as int) =~= v@);
    }
    r
}

} // verus!
