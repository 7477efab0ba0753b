use vstd::prelude::*;

verus! {

// The durable state of the escrow is three flat lists of records: token
// accounts, offers, and per-maker counters.  Each list holds at most one
// record per key, and contracts speak of it as a map from keys to values.
// This module defines that reading of a record list once, for any record
// type, together with the lemmas that track how the map changes when a
// record is overwritten, appended, or deleted.

/// No two records of `s` share a key.
pub open spec fn uniq_keys<T, K>(s: Seq<T>, kf: spec_fn(T) -> K) -> bool {
    forall|i: int, j: int| 0 <= i < j < s.len() ==> kf(s[i]) != kf(s[j])
}

/// Some record of `s` has key `k`.
pub open spec fn has_key<T, K>(s: Seq<T>, kf: spec_fn(T) -> K, k: K) -> bool {
    exists|i: int| 0 <= i < s.len() && kf(s[i]) == k
}

/// The position of the record with key `k`, unique when `uniq_keys` holds.
pub open spec fn key_idx<T, K>(s: Seq<T>, kf: spec_fn(T) -> K, k: K) -> int {
    choose|i: int| 0 <= i < s.len() && kf(s[i]) == k
}

/// The record list read as a map: each present key is sent to the value of
/// its record.
pub open spec fn map_of<T, K, V>(s: Seq<T>, kf: spec_fn(T) -> K, vf: spec_fn(T) -> V) -> Map<
    K,
    V,
> {
    Map::new(|k: K| has_key(s, kf, k), |k: K| vf(s[key_idx(s, kf, k)]))
}

/// `key_idx` lands on a record bearing the requested key.
pub proof fn lemma_key_idx<T, K>(s: Seq<T>, kf: spec_fn(T) -> K, k: K)
    requires
        has_key(s, kf, k),
    ensures
        0 <= key_idx(s, kf, k) < s.len(),
        kf(s[key_idx(s, kf, k)]) == k,
{
}

/// With unique keys, the record at `i` is the one `key_idx` finds for its
/// own key.
pub proof fn lemma_key_idx_of<T, K>(s: Seq<T>, kf: spec_fn(T) -> K, i: int)
    requires
        uniq_keys(s, kf),
        0 <= i < s.len(),
    ensures
        key_idx(s, kf, kf(s[i])) == i,
{
    assert(has_key(s, kf, kf(s[i])));
    lemma_key_idx(s, kf, kf(s[i]));
}

/// The map reads the record at `i` back under its own key.
pub proof fn lemma_map_of_at<T, K, V>(s: Seq<T>, kf: spec_fn(T) -> K, vf: spec_fn(T) -> V, i: int)
    requires
        uniq_keys(s, kf),
        0 <= i < s.len(),
    ensures
        map_of(s, kf, vf).dom().contains(kf(s[i])),
        map_of(s, kf, vf)[kf(s[i])] == vf(s[i]),
{
    lemma_key_idx_of(s, kf, i);
}

/// The map's domain is exactly the set of keys present in the list.
pub proof fn lemma_map_of_dom<T, K, V>(s: Seq<T>, kf: spec_fn(T) -> K, vf: spec_fn(T) -> V, k: K)
    ensures
        map_of(s, kf, vf).dom().contains(k) == has_key(s, kf, k),
{
}

/// Overwriting the record at `i` with one of the same key updates the map at
/// that key and nothing else.
pub proof fn lemma_map_of_update<T, K, V>(
    s: Seq<T>,
    kf: spec_fn(T) -> K,
    vf: spec_fn(T) -> V,
    i: int,
    t: T,
)
    requires
        uniq_keys(s, kf),
        0 <= i < s.len(),
        kf(t) == kf(s[i]),
    ensures
        uniq_keys(s.update(i, t), kf),
        map_of(s.update(i, t), kf, vf) == map_of(s, kf, vf).insert(kf(t), vf(t)),
{
    let s2 = s.update(i, t);
    assert forall|a: int, b: int| 0 <= a < b < s2.len() implies kf(s2[a]) != kf(s2[b]) by {
        assert(kf(s2[a]) == kf(s[a]));
        assert(kf(s2[b]) == kf(s[b]));
    }
    let m1 = map_of(s2, kf, vf);
    let m2 = map_of(s, kf, vf).insert(kf(t), vf(t));
    assert forall|k: K| m1.dom().contains(k) implies m2.dom().contains(k) by {
        lemma_key_idx(s2, kf, k);
        let j = key_idx(s2, kf, k);
        assert(kf(s[j]) == k);
    }
    assert forall|k: K| m2.dom().contains(k) implies m1.dom().contains(k) by {
        if k == kf(t) {
            assert(kf(s2[i]) == k);
        } else {
            lemma_key_idx(s, kf, k);
            let j = key_idx(s, kf, k);
            assert(kf(s2[j]) == k);
        }
    }
    assert forall|k: K| m1.dom().contains(k) implies m1[k] == m2[k] by {
        lemma_key_idx(s2, kf, k);
        let j = key_idx(s2, kf, k);
        if j == i {
            assert(m1[k] == vf(t));
            assert(k == kf(t));
        } else {
            assert(kf(s[j]) == k);
            lemma_key_idx_of(s, kf, j);
            if k == kf(t) {
                // would place the key at both i and j
                assert(kf(s[j]) == kf(s[i]));
                assert(false);
            }
            assert(m2[k] == vf(s[j]));
            assert(m1[k] == vf(s2[j]));
        }
    }
    assert(m1 =~= m2);
}

/// Appending a record with a fresh key extends the map at that key and
/// nothing else.
pub proof fn lemma_map_of_push<T, K, V>(
    s: Seq<T>,
    kf: spec_fn(T) -> K,
    vf: spec_fn(T) -> V,
    t: T,
)
    requires
        uniq_keys(s, kf),
        !has_key(s, kf, kf(t)),
    ensures
        uniq_keys(s.push(t), kf),
        map_of(s.push(t), kf, vf) == map_of(s, kf, vf).insert(kf(t), vf(t)),
{
    let s2 = s.push(t);
    assert forall|a: int, b: int| 0 <= a < b < s2.len() implies kf(s2[a]) != kf(s2[b]) by {
        if b == s.len() {
            assert(kf(s2[a]) == kf(s[a]));
            if kf(s[a]) == kf(t) {
                assert(has_key(s, kf, kf(t)));
            }
        } else {
            assert(kf(s2[a]) == kf(s[a]));
            assert(kf(s2[b]) == kf(s[b]));
        }
    }
    let m1 = map_of(s2, kf, vf);
    let m2 = map_of(s, kf, vf).insert(kf(t), vf(t));
    assert forall|k: K| m1.dom().contains(k) implies m2.dom().contains(k) by {
        lemma_key_idx(s2, kf, k);
        let j = key_idx(s2, kf, k);
        if j < s.len() {
            assert(kf(s[j]) == k);
        } else {
            assert(k == kf(t));
        }
    }
    assert forall|k: K| m2.dom().contains(k) implies m1.dom().contains(k) by {
        if k == kf(t) {
            assert(kf(s2[s.len() as int]) == k);
        } else {
            lemma_key_idx(s, kf, k);
            let j = key_idx(s, kf, k);
            assert(kf(s2[j]) == k);
        }
    }
    assert forall|k: K| m1.dom().contains(k) implies m1[k] == m2[k] by {
        lemma_key_idx(s2, kf, k);
        let j = key_idx(s2, kf, k);
        if j == s.len() {
            assert(m1[k] == vf(t));
            assert(k == kf(t));
        } else {
            assert(kf(s[j]) == k);
            lemma_key_idx_of(s, kf, j);
            if k == kf(t) {
                assert(has_key(s, kf, kf(t)));
            }
            assert(m2[k] == vf(s[j]));
            assert(m1[k] == vf(s2[j]));
        }
    }
    assert(m1 =~= m2);
}

/// Deleting the record at `i` removes exactly its key from the map.
pub proof fn lemma_map_of_remove<T, K, V>(
    s: Seq<T>,
    kf: spec_fn(T) -> K,
    vf: spec_fn(T) -> V,
    i: int,
)
    requires
        uniq_keys(s, kf),
        0 <= i < s.len(),
    ensures
        uniq_keys(s.remove(i), kf),
        map_of(s.remove(i), kf, vf) == map_of(s, kf, vf).remove(kf(s[i])),
{
    let s2 = s.remove(i);
    assert forall|a: int, b: int| 0 <= a < b < s2.len() implies kf(s2[a]) != kf(s2[b]) by {
        let a0 = if a < i { a } else { a + 1 };
        let b0 = if b < i { b } else { b + 1 };
        assert(kf(s2[a]) == kf(s[a0]));
        assert(kf(s2[b]) == kf(s[b0]));
    }
    let m1 = map_of(s2, kf, vf);
    let m2 = map_of(s, kf, vf).remove(kf(s[i]));
    assert forall|k: K| m1.dom().contains(k) implies m2.dom().contains(k) by {
        lemma_key_idx(s2, kf, k);
        let j = key_idx(s2, kf, k);
        let j0 = if j < i { j } else { j + 1 };
        assert(kf(s[j0]) == k);
        if k == kf(s[i]) {
            // the key would sit at both j0 and i
            assert(j0 != i);
            assert(false);
        }
    }
    assert forall|k: K| m2.dom().contains(k) implies m1.dom().contains(k) by {
        lemma_key_idx(s, kf, k);
        let j = key_idx(s, kf, k);
        assert(j != i);
        let j2 = if j < i { j } else { j - 1 };
        assert(kf(s2[j2]) == k);
    }
    assert forall|k: K| m1.dom().contains(k) implies m1[k] == m2[k] by {
        lemma_key_idx(s2, kf, k);
        let j = key_idx(s2, kf, k);
        let j0 = if j < i { j } else { j + 1 };
        assert(kf(s[j0]) == k);
        lemma_key_idx_of(s, kf, j0);
        assert(m2[k] == vf(s[j0]));
        assert(m1[k] == vf(s2[j]));
    }
    assert(m1 =~= m2);
}

/// An empty record list reads as the empty map.
pub proof fn lemma_map_of_empty<T, K, V>(s: Seq<T>, kf: spec_fn(T) -> K, vf: spec_fn(T) -> V)
    requires
        s.len() == 0,
    ensures
        uniq_keys(s, kf),
        map_of(s, kf, vf) == Map::<K, V>::empty(),
{
    assert(map_of(s, kf, vf) =~= Map::<K, V>::empty());
}

} // verus!
