//! Association lists read as maps: the first pair with a key decides the key's
//! value.  The ledger keeps its maps as such lists.

use vstd::prelude::*;

verus! {

/// Whether some pair of the list has the key.
pub open spec fn has_key<K, V>(s: Seq<(K, V)>, k: K) -> bool {
    exists|i: int| 0 <= i < s.len() && (#[trigger] s[i]).0 == k
}

/// Whether no pair before position `i` has the key of the pair at `i`.
pub open spec fn is_first<K, V>(s: Seq<(K, V)>, i: int) -> bool {
    &&& 0 <= i < s.len()
    &&& forall|j: int| 0 <= j < i ==> (#[trigger] s[j]).0 != s[i].0
}

/// The map that the list stands for: each key with the value of the first pair
/// that has it.
pub open spec fn first_wins<K, V>(s: Seq<(K, V)>) -> Map<K, V>
    decreases s.len(),
{
    if s.len() == 0 {
        Map::empty()
    } else {
        let m = first_wins(s.drop_last());
        if m.contains_key(s.last().0) {
            m
        } else {
            m.insert(s.last().0, s.last().1)
        }
    }
}

/// The map has exactly the keys of the list.
pub proof fn lemma_first_wins_keys<K, V>(s: Seq<(K, V)>, k: K)
    ensures
        first_wins(s).contains_key(k) <==> has_key(s, k),
    decreases s.len(),
{
    if s.len() > 0 {
        let t = s.drop_last();
        lemma_first_wins_keys(t, k);
        if has_key(t, k) {
            let i = choose|i: int| 0 <= i < t.len() && (#[trigger] t[i]).0 == k;
            assert(s[i].0 == k);
        }
        if s.last().0 == k {
            assert(s[s.len() - 1].0 == k);
        }
        if has_key(s, k) {
            let i = choose|i: int| 0 <= i < s.len() && (#[trigger] s[i]).0 == k;
            if i < t.len() {
                assert(t[i].0 == k);
            }
        }
    }
}

/// The first pair with a key gives the key's value.
pub proof fn lemma_first_wins_at<K, V>(s: Seq<(K, V)>, i: int)
    requires
        is_first(s, i),
    ensures
        first_wins(s).contains_key(s[i].0),
        first_wins(s)[s[i].0] == s[i].1,
    decreases s.len(),
{
    let t = s.drop_last();
    if i == s.len() - 1 {
        lemma_first_wins_keys(t, s[i].0);
        if has_key(t, s[i].0) {
            let j = choose|j: int| 0 <= j < t.len() && (#[trigger] t[j]).0 == s[i].0;
            assert(s[j].0 == s[i].0);
        }
    } else {
        assert(t[i] == s[i]);
        assert forall|j: int| 0 <= j < i implies (#[trigger] t[j]).0 != t[i].0 by {
            assert(s[j].0 != s[i].0);
        }
        lemma_first_wins_at(t, i);
    }
}

/// A pair appended to the list adds its key unless the key is there.
pub proof fn lemma_first_wins_push<K, V>(s: Seq<(K, V)>, k: K, v: V)
    ensures
        first_wins(s.push((k, v))) == if first_wins(s).contains_key(k) {
            first_wins(s)
        } else {
            first_wins(s).insert(k, v)
        },
{
    assert(s.push((k, v)).drop_last() =~= s);
}

/// A new value in the first pair with a key gives the key that value.
pub proof fn lemma_first_wins_update<K, V>(s: Seq<(K, V)>, i: int, v: V)
    requires
        is_first(s, i),
    ensures
        first_wins(s.update(i, (s[i].0, v))) == first_wins(s).insert(s[i].0, v),
    decreases s.len(),
{
    let k = s[i].0;
    let u = s.update(i, (k, v));
    let t = s.drop_last();
    if i == s.len() - 1 {
        assert(u.drop_last() =~= t);
        lemma_first_wins_keys(t, k);
        if has_key(t, k) {
            let j = choose|j: int| 0 <= j < t.len() && (#[trigger] t[j]).0 == k;
            assert(s[j].0 == k);
        }
        assert(first_wins(u) =~= first_wins(s).insert(k, v));
    } else {
        assert(t[i] == s[i]);
        assert forall|j: int| 0 <= j < i implies (#[trigger] t[j]).0 != t[i].0 by {
            assert(s[j].0 != s[i].0);
        }
        lemma_first_wins_update(t, i, v);
        lemma_first_wins_at(t, i);
        assert(u.drop_last() =~= t.update(i, (k, v)));
        assert(u.last() == s.last());
        assert(first_wins(u) =~= first_wins(s).insert(k, v));
    }
}

} // verus!
