//! Association sequences with unique keys: the spec-level backing of the
//! witness's keyed collections (ancestor hashes, per-account storage tries,
//! code by hash).

use vstd::prelude::*;

verus! {

/// The map an association sequence denotes; later bindings win.
pub open spec fn assoc_map<K, V>(s: Seq<(K, V)>) -> Map<K, V>
    decreases s.len(),
{
    if s.len() == 0 {
        Map::empty()
    } else {
        assoc_map(s.drop_last()).insert(s.last().0, s.last().1)
    }
}

/// No key appears twice.
pub open spec fn assoc_unique<K, V>(s: Seq<(K, V)>) -> bool {
    forall|i: int, j: int| 0 <= i < j < s.len() ==> s[i].0 != s[j].0
}

/// With unique keys, the denoted map holds exactly the stored bindings.
pub proof fn lemma_assoc_props<K, V>(s: Seq<(K, V)>)
    requires
        assoc_unique(s),
    ensures
        forall|k: K|
            assoc_map(s).contains_key(k) <==> exists|i: int| 0 <= i < s.len() && #[trigger] s[i].0
                == k,
        forall|i: int|
            0 <= i < s.len() ==> assoc_map(s).contains_key(#[trigger] s[i].0) && assoc_map(
                s,
            )[s[i].0] == s[i].1,
    decreases s.len(),
{
    if s.len() == 0 {
    } else {
        let t = s.take(s.len() - 1);
        assert(t =~= s.drop_last());
        assert forall|i: int| 0 <= i < t.len() implies t[i] == s[i] by {}
        assert(assoc_unique(t));
        lemma_assoc_props(t);
        let l = s.last();
        assert forall|k: K|
            assoc_map(s).contains_key(k) implies exists|i: int|
            0 <= i < s.len() && #[trigger] s[i].0 == k by {
            if k == l.0 {
                assert(s[s.len() - 1].0 == k);
            } else {
                assert(assoc_map(s) == assoc_map(s.drop_last()).insert(s.last().0, s.last().1));
                assert(assoc_map(t) == assoc_map(s.drop_last()));
                assert(assoc_map(t).contains_key(k));
                let i = choose|i: int| 0 <= i < t.len() && #[trigger] t[i].0 == k;
                assert(s[i].0 == k);
            }
        }
        assert forall|k: K| (exists|i: int| 0 <= i < s.len() && #[trigger] s[i].0 == k)
            implies assoc_map(s).contains_key(k) by {
            let i = choose|i: int| 0 <= i < s.len() && #[trigger] s[i].0 == k;
            if i == s.len() - 1 {
            } else {
                assert(t[i].0 == k);
            }
        }
        assert forall|i: int| 0 <= i < s.len() implies assoc_map(s).contains_key(
            #[trigger] s[i].0,
        ) && assoc_map(s)[s[i].0] == s[i].1 by {
            if i == s.len() - 1 {
            } else {
                assert(t[i].0 == s[i].0 && t[i].1 == s[i].1);
                assert(s[i].0 != l.0);
            }
        }
    }
}

/// Appending a fresh key denotes a map insert.
pub proof fn lemma_assoc_push<K, V>(s: Seq<(K, V)>, k: K, v: V)
    requires
        assoc_unique(s),
        forall|i: int| 0 <= i < s.len() ==> s[i].0 != k,
    ensures
        assoc_unique(s.push((k, v))),
        assoc_map(s.push((k, v))) == assoc_map(s).insert(k, v),
{
    let s2 = s.push((k, v));
    assert(forall|i: int| 0 <= i < s.len() ==> s2[i] == s[i]);
    assert(s2.last() == (k, v));
    assert(s2.drop_last() =~= s);
}

/// Overwriting the binding at `pos`, whose key is already `k`, denotes a
/// map insert.
pub proof fn lemma_assoc_update<K, V>(s: Seq<(K, V)>, pos: int, k: K, v: V)
    requires
        assoc_unique(s),
        0 <= pos < s.len(),
        s[pos].0 == k,
    ensures
        assoc_unique(s.update(pos, (k, v))),
        assoc_map(s.update(pos, (k, v))) == assoc_map(s).insert(k, v),
{
    let s2 = s.update(pos, (k, v));
    assert(assoc_unique(s2)) by {
        assert(forall|i: int| 0 <= i < s.len() ==> s2[i].0 == s[i].0);
    }
    lemma_assoc_props(s);
    lemma_assoc_props(s2);
    let m1 = assoc_map(s2);
    let m2 = assoc_map(s).insert(k, v);
    assert forall|kk: K| m1.contains_key(kk) implies m2.contains_key(kk) by {
        let i = choose|i: int| 0 <= i < s2.len() && #[trigger] s2[i].0 == kk;
        if i != pos {
            assert(s[i].0 == kk);
        }
    }
    assert forall|kk: K| m2.contains_key(kk) implies m1.contains_key(kk) by {
        if kk == k {
            assert(s2[pos].0 == kk);
        } else {
            let i = choose|i: int| 0 <= i < s.len() && #[trigger] s[i].0 == kk;
            assert(s2[i].0 == kk);
        }
    }
    assert forall|kk: K| #[trigger] m1.contains_key(kk) implies m1[kk] == m2[kk] by {
        let i = choose|i: int| 0 <= i < s2.len() && #[trigger] s2[i].0 == kk;
        if i == pos {
            assert(m1[kk] == v);
        } else {
            assert(s[i].0 == kk && s2[i].1 == s[i].1);
            assert(kk != k) by {
                if kk == k {
                    assert(s[i].0 == s[pos].0);
                }
            }
        }
    }
    assert(m1 =~= m2);
}

} // verus!
