//! Sequences of distinct text keys kept in lexicographic order.
//!
//! A key is the UTF-8 bytes of a name. The index of a key in such a
//! sequence depends on the set of keys alone, not on the order in which they
//! were added.

use crate::text::{
    bytes_less, lemma_lex_asymmetric, lemma_lex_total, lemma_lex_transitive, lex_less, utf8,
};
use vstd::prelude::*;
use vstd::string::*;

verus! {

/// Whether the keys strictly increase, so that none occurs twice.
pub open spec fn keys_sorted(keys: Seq<Seq<u8>>) -> bool {
    forall|i: int, j: int|
        0 <= i < j < keys.len() ==> lex_less(#[trigger] keys[i], #[trigger] keys[j])
}

/// Whether `key` is one of the keys.
pub open spec fn has_key(keys: Seq<Seq<u8>>, key: Seq<u8>) -> bool {
    exists|i: int| 0 <= i < keys.len() && #[trigger] keys[i] == key
}

/// The index of `key` among the keys, if it is one of them.
pub open spec fn key_index(keys: Seq<Seq<u8>>, key: Seq<u8>) -> Option<int> {
    if has_key(keys, key) {
        Some(choose|i: int| 0 <= i < keys.len() && #[trigger] keys[i] == key)
    } else {
        None
    }
}

/// The first index at or after `i` whose key does not come before `key`.
pub open spec fn lower_bound_from(keys: Seq<Seq<u8>>, key: Seq<u8>, i: int) -> int
    decreases keys.len() - i,
{
    if i < 0 || i >= keys.len() || !lex_less(keys[i], key) {
        i
    } else {
        lower_bound_from(keys, key, i + 1)
    }
}

/// The place of `key` in the order of the keys: the number of keys that
/// come before it.
pub open spec fn lower_bound(keys: Seq<Seq<u8>>, key: Seq<u8>) -> int {
    lower_bound_from(keys, key, 0)
}

/// In a sorted sequence a key has one index only.
pub proof fn lemma_sorted_distinct(keys: Seq<Seq<u8>>, i: int, j: int)
    requires
        keys_sorted(keys),
        0 <= i < keys.len(),
        0 <= j < keys.len(),
        keys[i] == keys[j],
    ensures
        i == j,
{
    if i < j {
        lemma_lex_asymmetric(keys[i], keys[j]);
    } else if j < i {
        lemma_lex_asymmetric(keys[j], keys[i]);
    }
}

/// In a sorted sequence the index of the key at `i` is `i`.
pub proof fn lemma_key_index_at(keys: Seq<Seq<u8>>, i: int)
    requires
        keys_sorted(keys),
        0 <= i < keys.len(),
    ensures
        key_index(keys, keys[i]) == Some(i),
{
    let j = choose|j: int| 0 <= j < keys.len() && #[trigger] keys[j] == keys[i];
    lemma_sorted_distinct(keys, i, j);
}

/// What a search from index `i` finds: the keys from `i` up to the bound
/// come before `key`, and in a sorted sequence `key` comes before every key
/// after the bound and can stand at the bound only.
pub proof fn lemma_lower_bound_from(keys: Seq<Seq<u8>>, key: Seq<u8>, i: int)
    requires
        keys_sorted(keys),
        0 <= i <= keys.len(),
    ensures
        i <= lower_bound_from(keys, key, i) <= keys.len(),
        forall|j: int|
            i <= j < lower_bound_from(keys, key, i) ==> lex_less(#[trigger] keys[j], key),
        forall|j: int|
            lower_bound_from(keys, key, i) <= j < keys.len() && #[trigger] keys[j] != key
                ==> lex_less(key, keys[j]),
        forall|j: int|
            lower_bound_from(keys, key, i) < j < keys.len() ==> #[trigger] keys[j] != key,
    decreases keys.len() - i,
{
    let p = lower_bound_from(keys, key, i);
    if i < keys.len() && lex_less(keys[i], key) {
        lemma_lower_bound_from(keys, key, i + 1);
    } else {
        assert forall|j: int| p <= j < keys.len() && #[trigger] keys[j] != key implies lex_less(
            key,
            keys[j],
        ) by {
            if j == p {
                if !lex_less(key, keys[p]) {
                    lemma_lex_total(key, keys[p]);
                }
            } else if keys[p] != key {
                if !lex_less(key, keys[p]) {
                    lemma_lex_total(key, keys[p]);
                }
                lemma_lex_transitive(key, keys[p], keys[j]);
            }
        }
    }
}

/// The facts of `lemma_lower_bound_from` for a search of the whole
/// sequence, with the index of the key where it is present.
pub proof fn lemma_lower_bound(keys: Seq<Seq<u8>>, key: Seq<u8>)
    requires
        keys_sorted(keys),
    ensures
        0 <= lower_bound(keys, key) <= keys.len(),
        forall|j: int| 0 <= j < lower_bound(keys, key) ==> lex_less(#[trigger] keys[j], key),
        forall|j: int|
            lower_bound(keys, key) <= j < keys.len() && #[trigger] keys[j] != key ==> lex_less(
                key,
                keys[j],
            ),
        has_key(keys, key) <==> lower_bound(keys, key) < keys.len() && keys[lower_bound(
            keys,
            key,
        )] == key,
        has_key(keys, key) ==> key_index(keys, key) == Some(lower_bound(keys, key)),
{
    lemma_lower_bound_from(keys, key, 0);
    let p = lower_bound(keys, key);
    if has_key(keys, key) {
        let j = key_index(keys, key)->0;
        if j < p {
            lemma_lex_asymmetric(keys[j], key);
        }
    }
}

/// Putting a new key at its place keeps the sequence sorted.
pub proof fn lemma_insert_sorted(keys: Seq<Seq<u8>>, key: Seq<u8>)
    requires
        keys_sorted(keys),
        !has_key(keys, key),
    ensures
        keys_sorted(keys.insert(lower_bound(keys, key), key)),
{
    lemma_lower_bound(keys, key);
}

/// Whether two sequences hold the same keys.
pub open spec fn same_keys(a: Seq<Seq<u8>>, b: Seq<Seq<u8>>) -> bool {
    forall|key: Seq<u8>| has_key(a, key) <==> has_key(b, key)
}

/// A set of keys has one sorted sequence: the place of each key depends on
/// the set alone, not on the order in which the keys were added.
pub proof fn lemma_sorted_unique(a: Seq<Seq<u8>>, b: Seq<Seq<u8>>)
    requires
        keys_sorted(a),
        keys_sorted(b),
        same_keys(a, b),
    ensures
        a == b,
    decreases a.len(),
{
    if a.len() == 0 {
        if b.len() > 0 {
            assert(has_key(b, b[0]));
        }
        assert(a =~= b);
    } else {
        assert(has_key(a, a[0]));
        let j = key_index(b, a[0])->0;
        assert(has_key(b, b[0]));
        let i = key_index(a, b[0])->0;
        if i > 0 {
            lemma_lex_asymmetric(a[0], a[i]);
            if j > 0 {
                lemma_lex_asymmetric(b[0], b[j]);
            }
        }
        assert(a[0] == b[0]);
        let ta = a.subrange(1, a.len() as int);
        let tb = b.subrange(1, b.len() as int);
        assert forall|key: Seq<u8>| has_key(ta, key) <==> has_key(tb, key) by {
            if has_key(ta, key) {
                let k = key_index(ta, key)->0;
                assert(a[k + 1] == key);
                lemma_lex_asymmetric(a[0], a[k + 1]);
                let m = key_index(b, key)->0;
                assert(b[m] == key && m > 0);
                assert(tb[m - 1] == key);
            }
            if has_key(tb, key) {
                let k = key_index(tb, key)->0;
                assert(b[k + 1] == key);
                lemma_lex_asymmetric(b[0], b[k + 1]);
                let m = key_index(a, key)->0;
                assert(a[m] == key && m > 0);
                assert(ta[m - 1] == key);
            }
        }
        assert(keys_sorted(ta)) by {
            assert forall|x: int, y: int| 0 <= x < y < ta.len() implies lex_less(
                #[trigger] ta[x],
                #[trigger] ta[y],
            ) by {
                assert(lex_less(a[x + 1], a[y + 1]));
            }
        }
        assert(keys_sorted(tb)) by {
            assert forall|x: int, y: int| 0 <= x < y < tb.len() implies lex_less(
                #[trigger] tb[x],
                #[trigger] tb[y],
            ) by {
                assert(lex_less(b[x + 1], b[y + 1]));
            }
        }
        lemma_sorted_unique(ta, tb);
        assert(a =~= seq![a[0]] + ta);
        assert(b =~= seq![b[0]] + tb);
    }
}

/// The keys as byte strings.
pub open spec fn key_bytes(names: Seq<String>) -> Seq<Seq<u8>> {
    Seq::new(names.len(), |i: int| utf8(names[i]@))
}

/// The place of `key` among sorted names, and whether it stands there.
pub(crate) fn find_key(names: &Vec<String>, key: &[u8]) -> (r: (usize, bool))
    requires
        keys_sorted(key_bytes(names@)),
    ensures
        r.0 == lower_bound(key_bytes(names@), key@),
        r.1 == has_key(key_bytes(names@), key@),
        r.0 <= names@.len(),
        r.1 ==> r.0 < names@.len() && utf8(names@[r.0 as int]@) == key@,
{
    let ghost keys = key_bytes(names@);
    let mut i: usize = 0;
    let mut stop = false;
    while i < names.len() && !stop
        invariant
            keys == key_bytes(names@),
            i <= names@.len(),
            lower_bound(keys, key@) == lower_bound_from(keys, key@, i as int),
            stop ==> i < names@.len() && !lex_less(keys[i as int], key@),
        decreases names@.len() - i + (if stop { 0int } else { 1int }),
    {
        if bytes_less(names[i].as_str().as_bytes(), key) {
            i += 1;
        } else {
            stop = true;
        }
    }
    proof {
        lemma_lower_bound(keys, key@);
    }
    let found = i < names.len() && crate::text::bytes_eq(names[i].as_str().as_bytes(), key);
    (i, found)
}

/// Whether no key occurs twice.
pub open spec fn keys_distinct(keys: Seq<Seq<u8>>) -> bool {
    forall|i: int, j: int| 0 <= i < j < keys.len() ==> #[trigger] keys[i] != #[trigger] keys[j]
}

/// In a sequence of distinct keys the index of the key at `i` is `i`.
pub proof fn lemma_distinct_index_at(keys: Seq<Seq<u8>>, i: int)
    requires
        keys_distinct(keys),
        0 <= i < keys.len(),
    ensures
        key_index(keys, keys[i]) == Some(i),
{
}

/// The index of `key` among distinct names.
pub(crate) fn position_of(names: &Vec<String>, key: &[u8]) -> (r: Option<usize>)
    requires
        keys_distinct(key_bytes(names@)),
    ensures
        match r {
            Some(i) => i < names@.len() && key_bytes(names@)[i as int] == key@ && key_index(
                key_bytes(names@),
                key@,
            ) == Some(i as int),
            None => !has_key(key_bytes(names@), key@),
        },
{
    let ghost keys = key_bytes(names@);
    let mut i: usize = 0;
    while i < names.len()
        invariant
            keys == key_bytes(names@),
            keys_distinct(keys),
            i <= names@.len(),
            forall|k: int| 0 <= k < i ==> #[trigger] keys[k] != key@,
        decreases names@.len() - i,
    {
        if crate::text::bytes_eq(names[i].as_str().as_bytes(), key) {
            proof {
                lemma_distinct_index_at(keys, i as int);
            }
            return Some(i);
        }
        i += 1;
    }
    None
}

} // verus!
