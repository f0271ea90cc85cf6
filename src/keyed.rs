//! Vectors of `(String, V)` pairs kept strictly sorted by key: a map whose
//! iteration order is the order of its keys.
use vstd::prelude::*;

use crate::text::{lemma_seq_lt_total, lemma_seq_lt_transitive, seq_lt, str_eq, str_lt};

verus! {

/// Keys strictly increase along `s`; in particular no key occurs twice.
pub open spec fn keys_sorted<V>(s: Seq<(String, V)>) -> bool {
    forall|i: int, j: int| 0 <= i < j < s.len() ==> seq_lt(#[trigger] s[i].0@, #[trigger] s[j].0@)
}

/// Some pair of `s` has key `k`.
pub open spec fn has_key<V>(s: Seq<(String, V)>, k: Seq<char>) -> bool {
    exists|i: int| 0 <= i < s.len() && #[trigger] s[i].0@ == k
}

/// What `s` maps each of its keys to.
pub open spec fn map_of<V: View>(s: Seq<(String, V)>) -> Map<Seq<char>, V::V> {
    Map::new(
        |k: Seq<char>| has_key(s, k),
        |k: Seq<char>| s[choose|i: int| 0 <= i < s.len() && #[trigger] s[i].0@ == k].1@,
    )
}

/// In a sorted sequence each pair is what the map gives for its key.
pub proof fn lemma_map_of_index<V: View>(s: Seq<(String, V)>, i: int)
    requires
        keys_sorted(s),
        0 <= i < s.len(),
    ensures
        map_of(s).contains_key(s[i].0@),
        map_of(s)[s[i].0@] == s[i].1@,
{
    let k = s[i].0@;
    assert(has_key(s, k));
    let j = choose|j: int| 0 <= j < s.len() && #[trigger] s[j].0@ == k;
    lemma_seq_lt_total(k, k);
    if j < i {
        assert(seq_lt(s[j].0@, s[i].0@));
    } else if j > i {
        assert(seq_lt(s[i].0@, s[j].0@));
    }
}

/// Position of key `k` in `m`, if it is there.
pub fn find<V>(m: &Vec<(String, V)>, k: &str) -> (r: Option<usize>)
    ensures
        match r {
            Some(i) => i < m@.len() && m@[i as int].0@ == k@,
            None => !has_key(m@, k@),
        },
{
    let mut i: usize = 0;
    while i < m.len()
        invariant
            i <= m@.len(),
            forall|j: int| 0 <= j < i ==> m@[j].0@ != k@,
        decreases m@.len() - i,
    {
        if str_eq(m[i].0.as_str(), k) {
            return Some(i);
        }
        i = i + 1;
    }
    None
}

/// Sets the value of key `k` to `v`, adding the key where it is new.
pub fn insert<V: View>(m: &mut Vec<(String, V)>, k: String, v: V)
    requires
        keys_sorted(old(m)@),
    ensures
        keys_sorted(final(m)@),
        map_of(final(m)@) == map_of(old(m)@).insert(k@, v@),
        has_key(old(m)@, k@) ==> final(m)@.len() == old(m)@.len(),
        !has_key(old(m)@, k@) ==> final(m)@.len() == old(m)@.len() + 1,
        forall|i: int|
            0 <= i < final(m)@.len() ==> (#[trigger] final(m)@[i]).1 == v || exists|j: int|
                0 <= j < old(m)@.len() && final(m)@[i].1 == #[trigger] old(m)@[j].1,
{
    let ghost s = m@;
    let mut p: usize = 0;
    while p < m.len() && str_lt(m[p].0.as_str(), k.as_str())
        invariant
            m@ == s,
            p <= s.len(),
            forall|j: int| 0 <= j < p ==> seq_lt(#[trigger] s[j].0@, k@),
        decreases s.len() - p,
    {
        p = p + 1;
    }
    if p < m.len() && str_eq(m[p].0.as_str(), k.as_str()) {
        let ghost t = s.update(p as int, (k, v));
        m.set(p, (k, v));
        assert(m@ =~= t);
        assert(keys_sorted(t));
        assert forall|x: Seq<char>|
            #![auto]
            has_key(t, x) == map_of(s).insert(k@, v@).contains_key(x) by {
            if has_key(s, x) {
                let j = choose|j: int| 0 <= j < s.len() && #[trigger] s[j].0@ == x;
                assert(t[j].0@ == x);
            }
            if has_key(t, x) {
                let j = choose|j: int| 0 <= j < t.len() && #[trigger] t[j].0@ == x;
                assert(s[j].0@ == x);
            }
        }
        assert forall|x: Seq<char>|
            #![auto]
            has_key(t, x) implies map_of(t)[x] == map_of(s).insert(k@, v@)[x] by {
            let j = choose|j: int| 0 <= j < t.len() && #[trigger] t[j].0@ == x;
            lemma_map_of_index(t, j);
            if j != p {
                lemma_map_of_index(s, j);
            }
        }
        assert(map_of(t) =~= map_of(s).insert(k@, v@));
        assert(has_key(s, k@));
        assert forall|i: int| 0 <= i < t.len() && (#[trigger] t[i]).1 != v implies exists|j: int|
            0 <= j < s.len() && t[i].1 == #[trigger] s[j].1 by {
            assert(t[i] == s[i]);
        }
    } else {
        proof {
            if p < s.len() {
                lemma_seq_lt_total(s[p as int].0@, k@);
            }
            assert forall|j: int| p <= j < s.len() implies seq_lt(k@, #[trigger] s[j].0@) by {
                if j > p {
                    lemma_seq_lt_transitive(k@, s[p as int].0@, s[j].0@);
                }
            }
        }
        let ghost kv = k@;
        let ghost vv = v@;
        m.insert(p, (k, v));
        let ghost t = m@;
        assert(t =~= s.insert(p as int, t[p as int]));
        assert forall|q: int| 0 <= q < p implies #[trigger] t[q] == s[q] by {
            assert(t[q] == s.insert(p as int, t[p as int])[q]);
        }
        assert forall|q: int| p < q < t.len() implies #[trigger] t[q] == s[q - 1] by {
            assert(t[q] == s.insert(p as int, t[p as int])[q]);
        }
        assert(keys_sorted(t)) by {
            assert forall|i: int, j: int| 0 <= i < j < t.len() implies seq_lt(
                #[trigger] t[i].0@,
                #[trigger] t[j].0@,
            ) by {
                if j == p {
                } else if i == p {
                    assert(t[j] == s[j - 1]);
                } else if j < p {
                    assert(t[i] == s[i] && t[j] == s[j]);
                } else if i < p {
                    assert(t[i] == s[i] && t[j] == s[j - 1]);
                } else {
                    assert(t[i] == s[i - 1] && t[j] == s[j - 1]);
                }
            }
        }
        assert(!has_key(s, kv)) by {
            if has_key(s, kv) {
                let j = choose|j: int| 0 <= j < s.len() && #[trigger] s[j].0@ == kv;
                lemma_seq_lt_total(kv, kv);
            }
        }
        assert forall|x: Seq<char>|
            #![auto]
            has_key(t, x) == map_of(s).insert(kv, vv).contains_key(x) by {
            if has_key(s, x) {
                let j = choose|j: int| 0 <= j < s.len() && #[trigger] s[j].0@ == x;
                if j < p {
                    assert(t[j].0@ == x);
                } else {
                    assert(t[j + 1].0@ == x);
                }
            }
            if has_key(t, x) && x != kv {
                let j = choose|j: int| 0 <= j < t.len() && #[trigger] t[j].0@ == x;
                if j < p {
                    assert(s[j].0@ == x);
                } else {
                    assert(s[j - 1].0@ == x);
                }
            }
            assert(t[p as int].0@ == kv);
        }
        assert forall|x: Seq<char>|
            #![auto]
            has_key(t, x) implies map_of(t)[x] == map_of(s).insert(kv, vv)[x] by {
            let j = choose|j: int| 0 <= j < t.len() && #[trigger] t[j].0@ == x;
            lemma_map_of_index(t, j);
            if j < p {
                lemma_map_of_index(s, j);
            } else if j > p {
                lemma_map_of_index(s, j - 1);
            }
        }
        assert(map_of(t) =~= map_of(s).insert(kv, vv));
        assert forall|i: int| 0 <= i < t.len() && i != p implies exists|j: int|
            0 <= j < s.len() && (#[trigger] t[i]).1 == #[trigger] s[j].1 by {
            if i < p {
                assert(t[i] == s[i]);
                assert(t[i].1 == s[i].1);
            } else {
                assert(t[i] == s[i - 1]);
                assert(t[i].1 == s[i - 1].1);
            }
        }
    }
}

} // verus!

verus! {

/// Two pair sequences with the same keys and the same views of values in the
/// same places are the same map.
pub proof fn lemma_map_of_same<V: View, W: View<V = <V as View>::V>>(
    s: Seq<(String, V)>,
    t: Seq<(String, W)>,
)
    requires
        s.len() == t.len(),
        keys_sorted(s),
        forall|i: int| 0 <= i < s.len() ==> (#[trigger] s[i]).0@ == t[i].0@ && s[i].1@ == t[i].1@,
    ensures
        keys_sorted(t),
        map_of(s) == map_of(t),
{
    assert forall|i: int, j: int| 0 <= i < j < t.len() implies seq_lt(
        #[trigger] t[i].0@,
        #[trigger] t[j].0@,
    ) by {
        assert(s[i].0@ == t[i].0@ && s[j].0@ == t[j].0@);
    }
    assert forall|k: Seq<char>| #![auto] has_key(s, k) == has_key(t, k) by {
        if has_key(s, k) {
            let i = choose|i: int| 0 <= i < s.len() && #[trigger] s[i].0@ == k;
            assert(t[i].0@ == k);
        }
        if has_key(t, k) {
            let i = choose|i: int| 0 <= i < t.len() && #[trigger] t[i].0@ == k;
            assert(s[i].0@ == k);
        }
    }
    assert forall|k: Seq<char>| #![auto] has_key(s, k) implies map_of(s)[k] == map_of(t)[k] by {
        let i = choose|i: int| 0 <= i < s.len() && #[trigger] s[i].0@ == k;
        lemma_map_of_index(s, i);
        lemma_map_of_index(t, i);
    }
    assert(map_of(s) =~= map_of(t));
}

} // verus!

verus! {

/// Removing the pair at `idx` keeps the order and drops its key.
pub fn remove_at<V: View>(m: &mut Vec<(String, V)>, idx: usize) -> (r: (String, V))
    requires
        keys_sorted(old(m)@),
        idx < old(m)@.len(),
    ensures
        r == old(m)@[idx as int],
        keys_sorted(final(m)@),
        map_of(final(m)@) == map_of(old(m)@).remove(r.0@),
        final(m)@ == old(m)@.remove(idx as int),
{
    let ghost s = m@;
    let r = m.remove(idx);
    let ghost t = m@;
    proof {
        assert forall|q: int| 0 <= q < idx implies #[trigger] t[q] == s[q] by {}
        assert forall|q: int| idx <= q < t.len() implies #[trigger] t[q] == s[q + 1] by {}
        assert forall|i: int, j: int| 0 <= i < j < t.len() implies seq_lt(
            #[trigger] t[i].0@,
            #[trigger] t[j].0@,
        ) by {
            if j < idx {
                assert(t[i] == s[i] && t[j] == s[j]);
            } else if i < idx {
                assert(t[i] == s[i] && t[j] == s[j + 1]);
            } else {
                assert(t[i] == s[i + 1] && t[j] == s[j + 1]);
            }
        }
        let k = r.0@;
        assert forall|x: Seq<char>| #![auto] has_key(t, x) == map_of(s).remove(k).contains_key(x) by {
            if has_key(t, x) {
                let j = choose|j: int| 0 <= j < t.len() && #[trigger] t[j].0@ == x;
                let sj = if j < idx { j } else { j + 1 };
                assert(s[sj].0@ == x);
                lemma_seq_lt_total(x, x);
                if sj < idx {
                    assert(seq_lt(s[sj].0@, s[idx as int].0@));
                } else {
                    assert(seq_lt(s[idx as int].0@, s[sj].0@));
                }
            }
            if has_key(s, x) && x != k {
                let j = choose|j: int| 0 <= j < s.len() && #[trigger] s[j].0@ == x;
                if j < idx {
                    assert(t[j].0@ == x);
                } else {
                    assert(j != idx);
                    assert(t[j - 1].0@ == x);
                }
            }
        }
        assert forall|x: Seq<char>| #![auto] has_key(t, x) implies map_of(t)[x] == map_of(s)[x] by {
            let j = choose|j: int| 0 <= j < t.len() && #[trigger] t[j].0@ == x;
            lemma_map_of_index(t, j);
            if j < idx {
                lemma_map_of_index(s, j);
            } else {
                lemma_map_of_index(s, j + 1);
            }
        }
        assert(map_of(t) =~= map_of(s).remove(k));
    }
    r
}

} // verus!
