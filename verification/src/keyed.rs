//! Sequences of key/value pairs read as maps.
use vstd::prelude::*;

verus! {

/// No key occurs twice.
pub open spec fn keys_distinct<K, V>(s: Seq<(K, V)>) -> bool {
    forall|i: int, j: int| 0 <= i < j < s.len() ==> #[trigger] s[i].0 != #[trigger] s[j].0
}

/// The map that a sequence of pairs describes.
pub open spec fn keyed_map<K, V>(s: Seq<(K, V)>) -> Map<K, V>
    decreases s.len(),
{
    if s.len() == 0 {
        Map::empty()
    } else {
        keyed_map(s.drop_first()).insert(s[0].0, s[0].1)
    }
}

/// A key no pair has is not in the map.
pub proof fn lemma_keyed_absent<K, V>(s: Seq<(K, V)>, k: K)
    requires
        forall|i: int| 0 <= i < s.len() ==> #[trigger] s[i].0 != k,
    ensures
        !keyed_map(s).contains_key(k),
    decreases s.len(),
{
    if s.len() > 0 {
        assert forall|i: int| 0 <= i < s.drop_first().len() implies #[trigger] s.drop_first()[i].0 != k by {
            assert(s.drop_first()[i] == s[i + 1]);
        }
        lemma_keyed_absent(s.drop_first(), k);
    }
}

/// Each pair is in the map.
pub proof fn lemma_keyed_index<K, V>(s: Seq<(K, V)>, i: int)
    requires
        keys_distinct(s),
        0 <= i < s.len(),
    ensures
        keyed_map(s).contains_key(s[i].0),
        keyed_map(s)[s[i].0] == s[i].1,
    decreases s.len(),
{
    if i > 0 {
        let t = s.drop_first();
        assert(t[i - 1] == s[i]);
        assert(keys_distinct(t)) by {
            assert forall|a: int, b: int| 0 <= a < b < t.len() implies #[trigger] t[a].0 != #[trigger] t[b].0 by {
                assert(t[a] == s[a + 1] && t[b] == s[b + 1]);
            }
        }
        assert(s[0].0 != s[i].0);
        lemma_keyed_index(t, i - 1);
    }
}

proof fn lemma_distinct_tail<K, V>(s: Seq<(K, V)>)
    requires
        keys_distinct(s),
        s.len() > 0,
    ensures
        keys_distinct(s.drop_first()),
        forall|i: int| 0 <= i < s.drop_first().len() ==> #[trigger] s.drop_first()[i].0 != s[0].0,
{
    let t = s.drop_first();
    assert forall|a: int, b: int| 0 <= a < b < t.len() implies #[trigger] t[a].0 != #[trigger] t[b].0 by {
        assert(t[a] == s[a + 1] && t[b] == s[b + 1]);
    }
    assert forall|i: int| 0 <= i < t.len() implies #[trigger] t[i].0 != s[0].0 by {
        assert(t[i] == s[i + 1]);
    }
}

/// Inserting a pair with a new key anywhere adds it to the map.
pub proof fn lemma_keyed_insert<K, V>(s: Seq<(K, V)>, pos: int, k: K, v: V)
    requires
        keys_distinct(s),
        0 <= pos <= s.len(),
        forall|i: int| 0 <= i < s.len() ==> #[trigger] s[i].0 != k,
    ensures
        keyed_map(s.insert(pos, (k, v))) == keyed_map(s).insert(k, v),
        keys_distinct(s.insert(pos, (k, v))),
    decreases pos,
{
    let n = s.insert(pos, (k, v));
    assert(keys_distinct(n)) by {
        assert forall|a: int, b: int| 0 <= a < b < n.len() implies #[trigger] n[a].0 != #[trigger] n[b].0 by {
            if a < pos && b < pos {
                assert(n[a] == s[a] && n[b] == s[b]);
            } else if a < pos && b == pos {
                assert(n[a] == s[a]);
            } else if a < pos {
                assert(n[a] == s[a] && n[b] == s[b - 1]);
            } else if a == pos {
                assert(n[b] == s[b - 1]);
            } else {
                assert(n[a] == s[a - 1] && n[b] == s[b - 1]);
            }
        }
    }
    if pos == 0 {
        assert(n.drop_first() =~= s);
    } else {
        lemma_distinct_tail(s);
        let t = s.drop_first();
        assert forall|i: int| 0 <= i < t.len() implies #[trigger] t[i].0 != k by {
            assert(t[i] == s[i + 1]);
        }
        lemma_keyed_insert(t, pos - 1, k, v);
        assert(n.drop_first() =~= t.insert(pos - 1, (k, v)));
        assert(n[0] == s[0]);
        assert(s[0].0 != k);
        assert(keyed_map(n) =~= keyed_map(s).insert(k, v));
    }
}

/// Replacing the value of a pair changes that key only.
pub proof fn lemma_keyed_update<K, V>(s: Seq<(K, V)>, i: int, v: V)
    requires
        keys_distinct(s),
        0 <= i < s.len(),
    ensures
        keyed_map(s.update(i, (s[i].0, v))) == keyed_map(s).insert(s[i].0, v),
        keys_distinct(s.update(i, (s[i].0, v))),
    decreases i,
{
    let n = s.update(i, (s[i].0, v));
    assert(keys_distinct(n)) by {
        assert forall|a: int, b: int| 0 <= a < b < n.len() implies #[trigger] n[a].0 != #[trigger] n[b].0 by {
            assert(n[a].0 == s[a].0 && n[b].0 == s[b].0);
        }
    }
    if i == 0 {
        assert(n.drop_first() =~= s.drop_first());
        assert(keyed_map(n) =~= keyed_map(s).insert(s[i].0, v));
    } else {
        lemma_distinct_tail(s);
        let t = s.drop_first();
        assert(t[i - 1] == s[i]);
        lemma_keyed_update(t, i - 1, v);
        assert(n.drop_first() =~= t.update(i - 1, (t[i - 1].0, v)));
        assert(s[0].0 != s[i].0);
        assert(keyed_map(n) =~= keyed_map(s).insert(s[i].0, v));
    }
}

/// Removing a pair removes its key.
pub proof fn lemma_keyed_remove<K, V>(s: Seq<(K, V)>, i: int)
    requires
        keys_distinct(s),
        0 <= i < s.len(),
    ensures
        keyed_map(s.remove(i)) == keyed_map(s).remove(s[i].0),
        keys_distinct(s.remove(i)),
    decreases i,
{
    let n = s.remove(i);
    assert(keys_distinct(n)) by {
        assert forall|a: int, b: int| 0 <= a < b < n.len() implies #[trigger] n[a].0 != #[trigger] n[b].0 by {
            if b < i {
                assert(n[a] == s[a] && n[b] == s[b]);
            } else if a < i {
                assert(n[a] == s[a] && n[b] == s[b + 1]);
            } else {
                assert(n[a] == s[a + 1] && n[b] == s[b + 1]);
            }
        }
    }
    lemma_distinct_tail(s);
    let t = s.drop_first();
    if i == 0 {
        assert(n =~= t);
        lemma_keyed_absent(t, s[0].0);
        assert(keyed_map(n) =~= keyed_map(s).remove(s[0].0));
    } else {
        assert(t[i - 1] == s[i]);
        lemma_keyed_remove(t, i - 1);
        assert(n.drop_first() =~= t.remove(i - 1));
        assert(n[0] == s[0]);
        assert(s[0].0 != s[i].0);
        assert(keyed_map(n) =~= keyed_map(s).remove(s[i].0));
    }
}

/// Every key of the map comes from a pair.
pub proof fn lemma_keyed_contains<K, V>(s: Seq<(K, V)>, k: K)
    requires
        keyed_map(s).contains_key(k),
    ensures
        exists|i: int| 0 <= i < s.len() && #[trigger] s[i].0 == k,
    decreases s.len(),
{
    if s.len() > 0 && s[0].0 != k {
        let t = s.drop_first();
        lemma_keyed_contains(t, k);
        let j = choose|j: int| 0 <= j < t.len() && #[trigger] t[j].0 == k;
        assert(s[j + 1] == t[j]);
    }
}

/// With distinct keys the map has one entry per pair.
pub proof fn lemma_keyed_len<K, V>(s: Seq<(K, V)>)
    requires
        keys_distinct(s),
    ensures
        keyed_map(s).dom().finite(),
        keyed_map(s).len() == s.len(),
    decreases s.len(),
{
    if s.len() > 0 {
        let t = s.drop_first();
        assert forall|i: int, j: int| 0 <= i < j < t.len() implies #[trigger] t[i].0 != #[trigger] t[j].0 by {
            assert(t[i] == s[i + 1] && t[j] == s[j + 1]);
        }
        lemma_keyed_len(t);
        assert forall|i: int| 0 <= i < t.len() implies #[trigger] t[i].0 != s[0].0 by {
            assert(t[i] == s[i + 1]);
        }
        lemma_keyed_absent(t, s[0].0);
    }
}

} // verus!
