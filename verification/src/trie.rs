//! The state trie: a content-addressed map from 32-byte keys to RLP-encoded
//! values.  Entries are kept sorted by key, so the root digest is a function
//! of the contents alone; lookups, inserts, and deletes are proved against a
//! `Map` view.

use vstd::prelude::*;
use crate::words::{B256, slice_to_vec};
use crate::keccak::{keccak_of, keccak256_vec};
use crate::rlp::{rlp_str, rlp_list, append_rlp_str};

verus! {

/// Strict lexicographic order on byte strings.
pub open spec fn lex_lt(a: Seq<u8>, b: Seq<u8>) -> bool {
    exists|i: int|
        #![trigger a[i], b[i]]
        0 <= i < a.len() && i < b.len() && a[i] < b[i] && (forall|j: int| 0 <= j < i ==> a[j]
            == b[j])
}

/// Lexicographic order is transitive.
pub proof fn lemma_lex_trans(a: Seq<u8>, b: Seq<u8>, c: Seq<u8>)
    requires
        lex_lt(a, b),
        lex_lt(b, c),
    ensures
        lex_lt(a, c),
{
    let i1 = choose|i: int|
        #![trigger a[i], b[i]]
        0 <= i < a.len() && i < b.len() && a[i] < b[i] && (forall|j: int| 0 <= j < i ==> a[j]
            == b[j]);
    let i2 = choose|i: int|
        #![trigger b[i], c[i]]
        0 <= i < b.len() && i < c.len() && b[i] < c[i] && (forall|j: int| 0 <= j < i ==> b[j]
            == c[j]);
    if i1 < i2 {
        assert(a[i1] < c[i1] && forall|j: int| 0 <= j < i1 ==> a[j] == c[j]);
    } else if i2 < i1 {
        assert(a[i2] < c[i2] && forall|j: int| 0 <= j < i2 ==> a[j] == c[j]);
    } else {
        assert(a[i1] < c[i1] && forall|j: int| 0 <= j < i1 ==> a[j] == c[j]);
    }
}

/// Ordered strings differ.
pub proof fn lemma_lex_ne(a: Seq<u8>, b: Seq<u8>)
    requires
        lex_lt(a, b),
    ensures
        a != b,
{
    let i = choose|i: int|
        #![trigger a[i], b[i]]
        0 <= i < a.len() && i < b.len() && a[i] < b[i] && (forall|j: int| 0 <= j < i ==> a[j]
            == b[j]);
    assert(a[i] != b[i]);
}

/// One stored binding.
pub struct TrieEntry {
    pub key: B256,
    pub value: Vec<u8>,
}

/// The key/value views of a binding sequence.
pub open spec fn kv_of_entries(entries: Seq<TrieEntry>) -> Seq<(Seq<u8>, Seq<u8>)> {
    entries.map_values(|e: TrieEntry| (e.key@, e.value@))
}

/// The map a binding sequence denotes; later bindings win.
pub open spec fn map_of(s: Seq<(Seq<u8>, Seq<u8>)>) -> Map<Seq<u8>, Seq<u8>>
    decreases s.len(),
{
    if s.len() == 0 {
        Map::empty()
    } else {
        map_of(s.drop_last()).insert(s.last().0, s.last().1)
    }
}

/// No key appears twice.
pub open spec fn keys_unique(s: Seq<(Seq<u8>, Seq<u8>)>) -> bool {
    forall|i: int, j: int| 0 <= i < j < s.len() ==> s[i].0 != s[j].0
}

/// Keys strictly increase.
pub open spec fn keys_sorted(s: Seq<(Seq<u8>, Seq<u8>)>) -> bool {
    forall|i: int, j: int| 0 <= i < j < s.len() ==> lex_lt(s[i].0, s[j].0)
}

/// Sorted bindings have unique keys.
pub proof fn lemma_sorted_unique(s: Seq<(Seq<u8>, Seq<u8>)>)
    requires
        keys_sorted(s),
    ensures
        keys_unique(s),
{
    assert forall|i: int, j: int| 0 <= i < j < s.len() implies s[i].0 != s[j].0 by {
        lemma_lex_ne(s[i].0, s[j].0);
    }
}

/// With unique keys, the denoted map holds exactly the stored bindings.
pub proof fn lemma_map_of_props(s: Seq<(Seq<u8>, Seq<u8>)>)
    requires
        keys_unique(s),
    ensures
        forall|k: Seq<u8>|
            map_of(s).contains_key(k) <==> exists|i: int| 0 <= i < s.len() && #[trigger] s[i].0
                == k,
        forall|i: int|
            0 <= i < s.len() ==> map_of(s).contains_key(#[trigger] s[i].0) && map_of(s)[s[i].0]
                == s[i].1,
    decreases s.len(),
{
    if s.len() == 0 {
    } else {
        let t = s.take(s.len() - 1);
        assert(t =~= s.drop_last());
        assert forall|i: int| 0 <= i < t.len() implies t[i] == s[i] by {}
        assert(keys_unique(t));
        lemma_map_of_props(t);
        let l = s.last();
        assert forall|k: Seq<u8>|
            map_of(s).contains_key(k) implies exists|i: int|
            0 <= i < s.len() && #[trigger] s[i].0 == k by {
            if k == l.0 {
                assert(s[s.len() - 1].0 == k);
            } else {
                assert(map_of(s) == map_of(s.drop_last()).insert(s.last().0, s.last().1));
                assert(map_of(t) == map_of(s.drop_last()));
                assert(map_of(t).contains_key(k));
                let i = choose|i: int| 0 <= i < t.len() && #[trigger] t[i].0 == k;
                assert(s[i].0 == k);
            }
        }
        assert forall|k: Seq<u8>| (exists|i: int| 0 <= i < s.len() && #[trigger] s[i].0 == k)
            implies map_of(s).contains_key(k) by {
            let i = choose|i: int| 0 <= i < s.len() && #[trigger] s[i].0 == k;
            if i == s.len() - 1 {
            } else {
                assert(t[i].0 == k);
            }
        }
        assert forall|i: int| 0 <= i < s.len() implies map_of(s).contains_key(#[trigger] s[i].0)
            && map_of(s)[s[i].0] == s[i].1 by {
            if i == s.len() - 1 {
            } else {
                assert(t[i].0 == s[i].0 && t[i].1 == s[i].1);
                assert(s[i].0 != l.0);
            }
        }
    }
}

/// A content-addressed key/value store standing in for the Merkle-Patricia
/// trie of the witness: same interface, same map semantics, and a root
/// digest determined by the contents.
pub struct StateTrie {
    entries: Vec<TrieEntry>,
}

impl View for StateTrie {
    type V = Map<Seq<u8>, Seq<u8>>;

    open spec fn view(&self) -> Map<Seq<u8>, Seq<u8>> {
        map_of(self.kv_seq())
    }
}

/// The canonical byte encoding of the bindings, in key order: the RLP
/// string of each key followed by the RLP string of its value.
pub open spec fn trie_payload(s: Seq<(Seq<u8>, Seq<u8>)>) -> Seq<u8>
    decreases s.len(),
{
    if s.len() == 0 {
        Seq::empty()
    } else {
        trie_payload(s.drop_last()) + rlp_str(s.last().0) + rlp_str(s.last().1)
    }
}

impl StateTrie {
    /// The stored bindings, keys and values as byte strings.
    pub closed spec fn kv_seq(self) -> Seq<(Seq<u8>, Seq<u8>)> {
        kv_of_entries(self.entries@)
    }

    /// Bindings are sorted by key, strictly: the canonical form that makes
    /// the root a function of the map.
    pub closed spec fn wf(self) -> bool {
        keys_sorted(self.kv_seq())
    }

    /// The root digest: keccak of the canonical encoding.
    pub open spec fn root_spec(self) -> Seq<u8> {
        keccak_of(rlp_list(trie_payload(self.kv_seq())))
    }

    /// The empty trie.
    pub fn new() -> (r: StateTrie)
        ensures
            r.wf(),
            r@ == Map::<Seq<u8>, Seq<u8>>::empty(),
            r.kv_seq().len() == 0,
    {
        let r = StateTrie { entries: Vec::new() };
        assert(r.kv_seq() =~= Seq::<(Seq<u8>, Seq<u8>)>::empty());
        r
    }

    /// Drop every binding.
    pub fn clear(&mut self)
        ensures
            final(self).wf(),
            final(self)@ == Map::<Seq<u8>, Seq<u8>>::empty(),
            final(self).kv_seq().len() == 0,
    {
        self.entries = Vec::new();
        assert(self.kv_seq() =~= Seq::<(Seq<u8>, Seq<u8>)>::empty());
    }

    /// An identical copy: same bindings, same root.
    pub fn duplicate(&self) -> (r: StateTrie)
        ensures
            r.kv_seq() == self.kv_seq(),
            r@ == self@,
            r.wf() == self.wf(),
            r.root_spec() == self.root_spec(),
    {
        let mut entries: Vec<TrieEntry> = Vec::new();
        let n = self.entries.len();
        let mut i: usize = 0;
        while i < n
            invariant
                n == self.entries@.len(),
                i <= n,
                entries@.len() == i,
                forall|j: int|
                    0 <= j < i ==> entries@[j].key == self.entries@[j].key && entries@[j].value@
                        == self.entries@[j].value@,
            decreases n - i,
        {
            let e = &self.entries[i];
            entries.push(TrieEntry { key: e.key, value: slice_to_vec(e.value.as_slice()) });
            i = i + 1;
        }
        let r = StateTrie { entries };
        assert(r.kv_seq() =~= self.kv_seq());
        r
    }

    /// Look a key up.
    pub fn get(&self, key: &B256) -> (r: Option<Vec<u8>>)
        requires
            self.wf(),
        ensures
            match r {
                Some(v) => self@.contains_key(key@) && v@ == self@[key@],
                None => !self@.contains_key(key@),
            },
    {
        proof {
            lemma_sorted_unique(self.kv_seq());
            lemma_map_of_props(self.kv_seq());
        }
        let n = self.entries.len();
        let mut i: usize = 0;
        while i < n
            invariant
                self.wf(),
                n == self.entries@.len(),
                i <= n,
                forall|j: int| 0 <= j < i ==> self.kv_seq()[j].0 != key@,
            decreases n - i,
        {
            if self.entries[i].key.eq_bytes(key) {
                assert(self.kv_seq()[i as int].0 == key@);
                proof {
                    lemma_sorted_unique(self.kv_seq());
                    lemma_map_of_props(self.kv_seq());
                }
                return Some(slice_to_vec(self.entries[i].value.as_slice()));
            }
            i = i + 1;
        }
        proof {
            if self@.contains_key(key@) {
                let j = choose|j: int|
                    0 <= j < self.kv_seq().len() && #[trigger] self.kv_seq()[j].0 == key@;
                assert(false);
            }
        }
        None
    }

    /// Whether the key is bound.
    pub fn contains(&self, key: &B256) -> (r: bool)
        requires
            self.wf(),
        ensures
            r == self@.contains_key(key@),
    {
        match self.get(key) {
            Some(_) => true,
            None => false,
        }
    }

    /// Bind `key` to `value`, replacing any previous binding.
    pub fn insert(&mut self, key: &B256, value: Vec<u8>)
        requires
            old(self).wf(),
        ensures
            final(self).wf(),
            final(self)@ == old(self)@.insert(key@, value@),
    {
        let ghost s_old = self.kv_seq();
        let n = self.entries.len();
        let mut pos: usize = 0;
        while pos < n && lex_less(&self.entries[pos].key, key)
            invariant
                self.wf(),
                self.kv_seq() == s_old,
                s_old == old(self).kv_seq(),
                n == self.entries@.len(),
                pos <= n,
                forall|j: int| 0 <= j < pos ==> lex_lt(s_old[j].0, key@),
            decreases n - pos,
        {
            pos = pos + 1;
        }
        let ghost kview = key@;
        let ghost vview = value@;
        if pos < n && self.entries[pos].key.eq_bytes(key) {
            // replace in place
            self.entries.remove(pos);
            self.entries.insert(pos, TrieEntry { key: *key, value });
            proof {
                let s_new = self.kv_seq();
                assert(s_new =~= s_old.update(pos as int, (kview, vview)));
                lemma_replace_is_insert(s_old, pos as int, kview, vview);
            }
        } else {
            // `pos` is the first index at or after which every key is larger
            self.entries.insert(pos, TrieEntry { key: *key, value });
            proof {
                let s_new = self.kv_seq();
                assert(s_new =~= s_old.take(pos as int) + seq![(kview, vview)] + s_old.skip(
                    pos as int));
                if pos < s_old.len() {
                    assert(!lex_lt(s_old[pos as int].0, kview));
                    assert(s_old[pos as int].0 != kview);
                    lemma_lex_total(s_old[pos as int].0, kview);
                }
                lemma_splice_is_insert(s_old, pos as int, kview, vview);
            }
        }
    }

    /// Remove any binding of `key`.
    pub fn delete(&mut self, key: &B256)
        requires
            old(self).wf(),
        ensures
            final(self).wf(),
            final(self)@ == old(self)@.remove(key@),
    {
        let ghost s_old = self.kv_seq();
        let n = self.entries.len();
        let mut i: usize = 0;
        while i < n
            invariant
                self.wf(),
                self.kv_seq() == s_old,
                s_old == old(self).kv_seq(),
                n == self.entries@.len(),
                i <= n,
                forall|j: int| 0 <= j < i ==> s_old[j].0 != key@,
            decreases n - i,
        {
            if self.entries[i].key.eq_bytes(key) {
                self.entries.remove(i);
                proof {
                    let s_new = self.kv_seq();
                    assert(s_new =~= s_old.take(i as int) + s_old.skip(i as int + 1));
                    lemma_excise_is_remove(s_old, i as int, key@);
                }
                return;
            }
            i = i + 1;
        }
        proof {
            lemma_sorted_unique(s_old);
            lemma_map_of_props(s_old);
            if self@.contains_key(key@) {
                let j = choose|j: int| 0 <= j < s_old.len() && #[trigger] s_old[j].0 == key@;
                assert(false);
            }
            assert(self@ =~= self@.remove(key@));
        }
    }

    /// The root digest of the contents.
    pub fn hash(&self) -> (r: B256)
        ensures
            r@ == self.root_spec(),
    {
        let mut payload: Vec<u8> = Vec::new();
        let n = self.entries.len();
        let mut i: usize = 0;
        while i < n
            invariant
                n == self.entries@.len(),
                i <= n,
                payload@ == trie_payload(self.kv_seq().take(i as int)),
            decreases n - i,
        {
            append_rlp_str(&mut payload, self.entries[i].key.bytes.as_slice());
            append_rlp_str(&mut payload, self.entries[i].value.as_slice());
            proof {
                let s = self.kv_seq();
                assert(s.take(i + 1).drop_last() =~= s.take(i as int));
                assert(s.take(i + 1).last() == s[i as int]);
            }
            i = i + 1;
        }
        assert(self.kv_seq().take(n as int) =~= self.kv_seq());
        let framed = crate::rlp::wrap_rlp_list(payload);
        keccak256_vec(&framed)
    }
}

/// Exec comparison under `lex_lt`.
fn lex_less(a: &B256, b: &B256) -> (r: bool)
    ensures
        r == lex_lt(a@, b@),
{
    let mut i: usize = 0;
    while i < 32
        invariant
            i <= 32,
            forall|j: int| 0 <= j < i ==> a@[j] == b@[j],
        decreases 32 - i,
    {
        if a.bytes[i] < b.bytes[i] {
            assert(lex_lt(a@, b@));
            return true;
        }
        if a.bytes[i] > b.bytes[i] {
            assert(!lex_lt(a@, b@)) by {
                if lex_lt(a@, b@) {
                    let w = choose|w: int|
                        #![trigger a@[w], b@[w]]
                        0 <= w < a@.len() && w < b@.len() && a@[w] < b@[w] && (forall|j: int|
                            0 <= j < w ==> a@[j] == b@[j]);
                    assert(w != i);
                    if w < i {
                        assert(a@[w] == b@[w]);
                    } else {
                        assert(a@[i as int] == b@[i as int]);
                    }
                }
            }
            return false;
        }
        i = i + 1;
    }
    assert(a@ =~= b@);
    assert(!lex_lt(a@, b@)) by {
        if lex_lt(a@, b@) {
            lemma_lex_ne(a@, b@);
        }
    }
    false
}

/// Equal-length strings that differ are ordered one way or the other.
proof fn lemma_lex_total(a: Seq<u8>, b: Seq<u8>)
    requires
        a.len() == b.len(),
        a != b,
        !lex_lt(a, b),
    ensures
        lex_lt(b, a),
{
    assert(!(a =~= b));
    let d = choose|d: int| 0 <= d < a.len() && a[d] != b[d];
    // find the first difference
    let first = min_diff(a, b, d);
    if a[first] < b[first] {
        assert(lex_lt(a, b));
        assert(false);
    } else {
        assert(b[first] < a[first]);
        assert(lex_lt(b, a));
    }
}

/// The least index below `d` (inclusive) where the strings differ.
spec fn min_diff_at(a: Seq<u8>, b: Seq<u8>, i: int) -> bool {
    0 <= i < a.len() && i < b.len() && a[i] != b[i] && (forall|j: int| 0 <= j < i ==> a[j] == b[j])
}

/// Walk down to the first difference.
proof fn min_diff(a: Seq<u8>, b: Seq<u8>, d: int) -> (r: int)
    requires
        0 <= d < a.len(),
        d < b.len(),
        a[d] != b[d],
    ensures
        min_diff_at(a, b, r),
    decreases d,
{
    if forall|j: int| 0 <= j < d ==> a[j] == b[j] {
        d
    } else {
        let e = choose|e: int| 0 <= e < d && a[e] != b[e];
        min_diff(a, b, e)
    }
}

/// Updating the binding at `pos`, whose key is already `k`, denotes a map
/// insert; order and uniqueness are untouched.
proof fn lemma_replace_is_insert(s: Seq<(Seq<u8>, Seq<u8>)>, pos: int, k: Seq<u8>, v: Seq<u8>)
    requires
        keys_sorted(s),
        0 <= pos < s.len(),
        s[pos].0 == k,
    ensures
        keys_sorted(s.update(pos, (k, v))),
        map_of(s.update(pos, (k, v))) == map_of(s).insert(k, v),
{
    let s2 = s.update(pos, (k, v));
    assert(keys_sorted(s2)) by {
        assert(forall|i: int| 0 <= i < s.len() ==> s2[i].0 == s[i].0);
    }
    lemma_sorted_unique(s);
    lemma_sorted_unique(s2);
    lemma_map_of_props(s);
    lemma_map_of_props(s2);
    let m1 = map_of(s2);
    let m2 = map_of(s).insert(k, v);
    assert forall|kk: Seq<u8>| m1.contains_key(kk) implies m2.contains_key(kk) by {
        let i = choose|i: int| 0 <= i < s2.len() && #[trigger] s2[i].0 == kk;
        if i != pos {
            assert(s[i].0 == kk);
        }
    }
    assert forall|kk: Seq<u8>| m2.contains_key(kk) implies m1.contains_key(kk) by {
        if kk == k {
            assert(s2[pos].0 == kk);
        } else {
            let i = choose|i: int| 0 <= i < s.len() && #[trigger] s[i].0 == kk;
            assert(s2[i].0 == kk);
        }
    }
    assert forall|kk: Seq<u8>| #[trigger] m1.contains_key(kk) implies m1[kk] == m2[kk] by {
        let i = choose|i: int| 0 <= i < s2.len() && #[trigger] s2[i].0 == kk;
        if i == pos {
            assert(m1[kk] == v);
        } else {
            assert(s[i].0 == kk && s2[i].1 == s[i].1);
            assert(kk != k) by {
                if kk == k {
                    assert(s[i].0 == s[pos].0);
                }
            }
        }
    }
    assert(m1 =~= m2);
}

/// Splicing a new least-position binding in denotes a map insert; order is
/// preserved.
proof fn lemma_splice_is_insert(s: Seq<(Seq<u8>, Seq<u8>)>, pos: int, k: Seq<u8>, v: Seq<u8>)
    requires
        keys_sorted(s),
        0 <= pos <= s.len(),
        forall|j: int| 0 <= j < pos ==> lex_lt(s[j].0, k),
        pos < s.len() ==> lex_lt(k, s[pos].0),
    ensures
        keys_sorted(s.take(pos) + seq![(k, v)] + s.skip(pos)),
        map_of(s.take(pos) + seq![(k, v)] + s.skip(pos)) == map_of(s).insert(k, v),
{
    let s2 = s.take(pos) + seq![(k, v)] + s.skip(pos);
    assert(s2.len() == s.len() + 1);
    assert(forall|j: int| 0 <= j < pos ==> s2[j] == s[j]);
    assert(s2[pos] == (k, v));
    assert(forall|j: int| pos < j < s2.len() ==> s2[j] == s[j - 1]);
    assert(keys_sorted(s2)) by {
        assert forall|i: int, j: int| 0 <= i < j < s2.len() implies lex_lt(s2[i].0, s2[j].0) by {
            if i < pos && j < pos {
            } else if i < pos && j == pos {
            } else if i < pos && j > pos {
                if pos < j - 1 {
                } else {
                }
            } else if i == pos && j > pos {
                if j - 1 > pos {
                    lemma_lex_trans(k, s[pos].0, s[j - 1].0);
                }
            } else {
            }
        }
    }
    lemma_sorted_unique(s);
    lemma_sorted_unique(s2);
    lemma_map_of_props(s);
    lemma_map_of_props(s2);
    let m1 = map_of(s2);
    let m2 = map_of(s).insert(k, v);
    assert forall|kk: Seq<u8>| m1.contains_key(kk) implies m2.contains_key(kk) by {
        let i = choose|i: int| 0 <= i < s2.len() && #[trigger] s2[i].0 == kk;
        if i < pos {
            assert(s[i].0 == kk);
        } else if i > pos {
            assert(s[i - 1].0 == kk);
        }
    }
    assert forall|kk: Seq<u8>| m2.contains_key(kk) implies m1.contains_key(kk) by {
        if kk == k {
            assert(s2[pos].0 == kk);
        } else {
            let i = choose|i: int| 0 <= i < s.len() && #[trigger] s[i].0 == kk;
            if i < pos {
                assert(s2[i].0 == kk);
            } else {
                assert(s2[i + 1].0 == kk);
            }
        }
    }
    assert forall|kk: Seq<u8>| #[trigger] m1.contains_key(kk) implies m1[kk] == m2[kk] by {
        let i = choose|i: int| 0 <= i < s2.len() && #[trigger] s2[i].0 == kk;
        if i == pos {
            assert(m1[kk] == v && kk == k);
        } else {
            let io: int = if i < pos {
                i
            } else {
                i - 1
            };
            assert(s[io].0 == kk && s[io].1 == s2[i].1);
            assert(kk != k) by {
                if kk == k {
                    if io < pos {
                        lemma_lex_ne(s[io].0, k);
                    } else {
                        lemma_lex_ne(k, s[io].0);
                        if io > pos {
                            lemma_lex_trans(k, s[pos].0, s[io].0);
                            lemma_lex_ne(k, s[io].0);
                        }
                    }
                }
            }
        }
    }
    assert(m1 =~= m2);
}

/// Cutting the binding at `pos` out denotes a map remove; order is
/// preserved.
proof fn lemma_excise_is_remove(s: Seq<(Seq<u8>, Seq<u8>)>, pos: int, k: Seq<u8>)
    requires
        keys_sorted(s),
        0 <= pos < s.len(),
        s[pos].0 == k,
    ensures
        keys_sorted(s.take(pos) + s.skip(pos + 1)),
        map_of(s.take(pos) + s.skip(pos + 1)) == map_of(s).remove(k),
{
    let s2 = s.take(pos) + s.skip(pos + 1);
    assert(s2.len() == s.len() - 1);
    assert(forall|j: int| 0 <= j < pos ==> s2[j] == s[j]);
    assert(forall|j: int| pos <= j < s2.len() ==> s2[j] == s[j + 1]);
    assert(keys_sorted(s2));
    lemma_sorted_unique(s);
    lemma_sorted_unique(s2);
    lemma_map_of_props(s);
    lemma_map_of_props(s2);
    let m1 = map_of(s2);
    let m2 = map_of(s).remove(k);
    assert forall|kk: Seq<u8>| m1.contains_key(kk) implies m2.contains_key(kk) by {
        let i = choose|i: int| 0 <= i < s2.len() && #[trigger] s2[i].0 == kk;
        let io: int = if i < pos {
            i
        } else {
            i + 1
        };
        assert(s[io].0 == kk);
        assert(kk != k) by {
            if kk == k {
                assert(s[io].0 == s[pos].0 && io != pos);
            }
        }
    }
    assert forall|kk: Seq<u8>| m2.contains_key(kk) implies m1.contains_key(kk) by {
        let i = choose|i: int| 0 <= i < s.len() && #[trigger] s[i].0 == kk;
        assert(i != pos);
        if i < pos {
            assert(s2[i].0 == kk);
        } else {
            assert(s2[i - 1].0 == kk);
        }
    }
    assert forall|kk: Seq<u8>| #[trigger] m1.contains_key(kk) implies m1[kk] == m2[kk] by {
        let i = choose|i: int| 0 <= i < s2.len() && #[trigger] s2[i].0 == kk;
        let io: int = if i < pos {
            i
        } else {
            i + 1
        };
        assert(s[io].0 == kk && s[io].1 == s2[i].1);
        assert(kk != k) by {
            if kk == k {
                assert(s[io].0 == s[pos].0 && io != pos);
            }
        }
    }
    assert(m1 =~= m2);
}

/// Dropping the last binding removes exactly its key.
pub proof fn lemma_map_of_drop_last(s: Seq<(Seq<u8>, Seq<u8>)>)
    requires
        keys_unique(s),
        s.len() > 0,
    ensures
        map_of(s.take(s.len() - 1)) == map_of(s).remove(s.last().0),
{
    let t = s.take(s.len() - 1);
    assert(t =~= s.drop_last());
    assert(forall|i: int| 0 <= i < t.len() ==> t[i] == s[i]);
    assert(keys_unique(t));
    lemma_map_of_props(s);
    lemma_map_of_props(t);
    let l = s.last();
    let m1 = map_of(t);
    let m2 = map_of(s).remove(l.0);
    assert forall|kk: Seq<u8>| m1.contains_key(kk) implies m2.contains_key(kk) by {
        let i = choose|i: int| 0 <= i < t.len() && #[trigger] t[i].0 == kk;
        assert(s[i].0 == kk);
        assert(kk != l.0) by {
            if kk == l.0 {
                assert(s[i].0 == s[s.len() - 1].0 && i != s.len() - 1);
            }
        }
    }
    assert forall|kk: Seq<u8>| m2.contains_key(kk) implies m1.contains_key(kk) by {
        let i = choose|i: int| 0 <= i < s.len() && #[trigger] s[i].0 == kk;
        assert(i != s.len() - 1);
        assert(t[i].0 == kk);
    }
    assert forall|kk: Seq<u8>| #[trigger] m1.contains_key(kk) implies m1[kk] == m2[kk] by {
        let i = choose|i: int| 0 <= i < t.len() && #[trigger] t[i].0 == kk;
        assert(s[i].0 == kk && s[i].1 == t[i].1);
        assert(kk != l.0) by {
            if kk == l.0 {
                assert(s[i].0 == s[s.len() - 1].0 && i != s.len() - 1);
            }
        }
    }
    assert(m1 =~= m2);
}

/// Sorted binding sequences are canonical: one map, one sequence.
pub proof fn lemma_sorted_canonical(s1: Seq<(Seq<u8>, Seq<u8>)>, s2: Seq<(Seq<u8>, Seq<u8>)>)
    requires
        keys_sorted(s1),
        keys_sorted(s2),
        map_of(s1) == map_of(s2),
    ensures
        s1 == s2,
    decreases s1.len(),
{
    lemma_sorted_unique(s1);
    lemma_sorted_unique(s2);
    lemma_map_of_props(s1);
    lemma_map_of_props(s2);
    if s1.len() == 0 {
        if s2.len() > 0 {
            assert(map_of(s2).contains_key(s2[s2.len() - 1].0));
            let i = choose|i: int| 0 <= i < s1.len() && #[trigger] s1[i].0 == s2[s2.len() - 1].0;
            assert(false);
        }
        assert(s1 =~= s2);
    } else if s2.len() == 0 {
        assert(map_of(s1).contains_key(s1[s1.len() - 1].0));
        let i = choose|i: int| 0 <= i < s2.len() && #[trigger] s2[i].0 == s1[s1.len() - 1].0;
        assert(false);
    } else {
        let l1 = s1.last();
        let l2 = s2.last();
        assert(map_of(s1).contains_key(l1.0)) by {
            assert(s1[s1.len() - 1].0 == l1.0);
        }
        assert(map_of(s2).contains_key(l2.0)) by {
            assert(s2[s2.len() - 1].0 == l2.0);
        }
        let j = choose|j: int| 0 <= j < s2.len() && #[trigger] s2[j].0 == l1.0;
        let i = choose|i: int| 0 <= i < s1.len() && #[trigger] s1[i].0 == l2.0;
        assert(l1.0 == l2.0) by {
            if j < s2.len() - 1 && i < s1.len() - 1 {
                assert(lex_lt(s2[j].0, l2.0));
                assert(lex_lt(s1[i].0, l1.0));
                lemma_lex_trans(l1.0, l2.0, l1.0);
                lemma_lex_ne(l1.0, l1.0);
            } else if j == s2.len() - 1 {
                assert(s2[j].0 == l2.0);
            } else {
                assert(s1[i].0 == l1.0);
            }
        }
        assert(l1.1 == l2.1) by {
            assert(map_of(s1)[l1.0] == l1.1);
            assert(map_of(s2)[l2.0] == l2.1);
        }
        let t1 = s1.take(s1.len() - 1);
        let t2 = s2.take(s2.len() - 1);
        lemma_map_of_drop_last(s1);
        lemma_map_of_drop_last(s2);
        assert(keys_sorted(t1)) by {
            assert(forall|a: int| 0 <= a < t1.len() ==> t1[a] == s1[a]);
        }
        assert(keys_sorted(t2)) by {
            assert(forall|a: int| 0 <= a < t2.len() ==> t2[a] == s2[a]);
        }
        lemma_sorted_canonical(t1, t2);
        assert(s1 =~= t1.push(l1));
        assert(s2 =~= t2.push(l2));
        assert(l1 == l2) by {
            assert(l1.0 == l2.0 && l1.1 == l2.1);
        }
    }
}

/// The sorted binding sequence of a map: well-defined on every map a
/// well-formed trie can hold.
pub open spec fn canon_of(m: Map<Seq<u8>, Seq<u8>>) -> Seq<(Seq<u8>, Seq<u8>)> {
    choose|s: Seq<(Seq<u8>, Seq<u8>)>| keys_sorted(s) && map_of(s) == m
}

/// The root digest a map denotes, through its canonical binding sequence.
pub open spec fn root_of_map(m: Map<Seq<u8>, Seq<u8>>) -> Seq<u8> {
    keccak_of(rlp_list(trie_payload(canon_of(m))))
}

/// A well-formed trie's root is the root of its map: the digest depends on
/// the contents alone.
pub proof fn lemma_root_of_map(t: StateTrie)
    requires
        t.wf(),
    ensures
        t.root_spec() == root_of_map(t@),
{
    assert(keys_sorted(t.kv_seq()) && map_of(t.kv_seq()) == t@);
    let c = canon_of(t@);
    assert(keys_sorted(c) && map_of(c) == t@);
    lemma_sorted_canonical(c, t.kv_seq());
}

} // verus!
