//! Association lists keyed by text and kept in ascending key order.
//!
//! Every keyed table of the library (mappings, schemas, registries) is a
//! vector of `(key, item)` pairs. Placing a pair keeps the keys ascending and
//! unique, so that walking the table is deterministic.

use crate::text::{lemma_text_lt_irreflexive, lemma_text_lt_total, lemma_text_lt_transitive, str_eq, str_lt, text_lt};
use vstd::prelude::*;

verus! {

/// The keys of a table, in stored order.
pub open spec fn keys_of<T>(s: Seq<(String, T)>) -> Seq<Seq<char>> {
    Seq::new(s.len(), |i: int| s[i].0@)
}

/// Keys that strictly ascend: sorted, and none occurs twice.
pub open spec fn ascending(keys: Seq<Seq<char>>) -> bool {
    forall|i: int, j: int| 0 <= i < j < keys.len() ==> text_lt(#[trigger] keys[i], #[trigger] keys[j])
}

/// The first position at or after `from` whose key is not below `key`.
pub open spec fn lower_bound(keys: Seq<Seq<char>>, key: Seq<char>, from: int) -> int
    decreases keys.len() - from,
{
    if 0 <= from < keys.len() && text_lt(keys[from], key) {
        lower_bound(keys, key, from + 1)
    } else {
        from
    }
}

/// The first position at or after `from` that holds `key`, or the number
/// of keys when there is none.
pub open spec fn key_index(keys: Seq<Seq<char>>, key: Seq<char>, from: int) -> int
    decreases keys.len() - from,
{
    if from < 0 || from >= keys.len() {
        keys.len() as int
    } else if keys[from] == key {
        from
    } else {
        key_index(keys, key, from + 1)
    }
}

/// Whether `key` is one of the keys.
pub open spec fn has_key(keys: Seq<Seq<char>>, key: Seq<char>) -> bool {
    key_index(keys, key, 0) < keys.len()
}

/// The table after `x` is placed under `key`: it replaces the item stored
/// under that key, or is inserted where the key belongs.
pub open spec fn placed<X>(s: Seq<X>, keys: Seq<Seq<char>>, key: Seq<char>, x: X) -> Seq<X> {
    let p = lower_bound(keys, key, 0);
    if p < keys.len() && keys[p] == key {
        s.update(p, x)
    } else {
        s.insert(p, x)
    }
}

/// The lower bound of a key lies in range; every key before it is less than
/// the key, and the key at it is not.
pub proof fn lemma_lower_bound(keys: Seq<Seq<char>>, key: Seq<char>, from: int)
    requires
        0 <= from <= keys.len(),
    ensures
        from <= lower_bound(keys, key, from) <= keys.len(),
        forall|j: int| from <= j < lower_bound(keys, key, from) ==> text_lt(keys[j], key),
        lower_bound(keys, key, from) < keys.len() ==> !text_lt(
            keys[lower_bound(keys, key, from)],
            key,
        ),
    decreases keys.len() - from,
{
    if from < keys.len() && text_lt(keys[from], key) {
        lemma_lower_bound(keys, key, from + 1);
    }
}

/// The index of a key lies in range; the key stands at it, if it is in
/// range, and nowhere before it.
pub proof fn lemma_key_index(keys: Seq<Seq<char>>, key: Seq<char>, from: int)
    requires
        0 <= from <= keys.len(),
    ensures
        from <= key_index(keys, key, from) <= keys.len(),
        key_index(keys, key, from) < keys.len() ==> keys[key_index(keys, key, from)] == key,
        forall|j: int| from <= j < key_index(keys, key, from) ==> keys[j] != key,
    decreases keys.len() - from,
{
    if from < keys.len() && keys[from] != key {
        lemma_key_index(keys, key, from + 1);
    }
}

/// Placing a pair into an ascending table leaves it ascending, with the
/// new key present and every other key as before.
pub proof fn lemma_placed_keys(keys: Seq<Seq<char>>, key: Seq<char>)
    requires
        ascending(keys),
    ensures
        ascending(placed(keys, keys, key, key)),
        forall|k: Seq<char>|
            has_key(placed(keys, keys, key, key), k) <==> (k == key || has_key(keys, k)),
{
    let p = lower_bound(keys, key, 0);
    lemma_lower_bound(keys, key, 0);
    let after = placed(keys, keys, key, key);
    if p < keys.len() && keys[p] == key {
        assert(after =~= keys);
    } else {
        assert forall|i: int, j: int| 0 <= i < j < after.len() implies text_lt(
            #[trigger] after[i],
            #[trigger] after[j],
        ) by {
            if j == p {
                assert(after[i] == keys[i]);
            } else if i == p {
                assert(after[j] == keys[j - 1]);
                if j - 1 > p {
                    assert(text_lt(keys[p], keys[j - 1]));
                }
                lemma_text_lt_total(keys[p], key);
                if text_lt(key, keys[p]) {
                    if j - 1 > p {
                        lemma_text_lt_transitive(key, keys[p], keys[j - 1]);
                    }
                }
            } else if i < p && j < p {
                assert(after[i] == keys[i] && after[j] == keys[j]);
            } else if i < p && j > p {
                assert(after[i] == keys[i] && after[j] == keys[j - 1]);
            } else {
                assert(after[i] == keys[i - 1] && after[j] == keys[j - 1]);
            }
        }
    }
    assert forall|k: Seq<char>| has_key(after, k) <==> (k == key || has_key(keys, k)) by {
        lemma_placed_has(keys, key, k);
    }
}

/// After a pair is placed into an ascending table, a key is present
/// exactly if it is the new key or was present before.
pub proof fn lemma_placed_has(keys: Seq<Seq<char>>, key: Seq<char>, k: Seq<char>)
    requires
        ascending(keys),
    ensures
        has_key(placed(keys, keys, key, key), k) <==> (k == key || has_key(keys, k)),
{
    let p = lower_bound(keys, key, 0);
    lemma_lower_bound(keys, key, 0);
    let after = placed(keys, keys, key, key);
    if p < keys.len() && keys[p] == key {
        assert(after =~= keys);
    }
    lemma_key_index(after, k, 0);
    lemma_key_index(keys, k, 0);
    let a = key_index(after, k, 0);
    let b = key_index(keys, k, 0);
    if p < keys.len() && keys[p] == key {
        if k == key {
            assert(keys[p] == k);
        }
    } else {
        if a < after.len() {
            if a < p {
                assert(keys[a] == k);
            } else if a > p {
                assert(keys[a - 1] == k);
            }
        }
        if b < keys.len() {
            if b < p {
                assert(after[b] == k);
            } else {
                assert(after[b + 1] == k);
            }
        }
        if k == key {
            assert(after[p] == k);
        }
    }

}

/// In an ascending table a key is stored at one place only.
pub proof fn lemma_ascending_unique(keys: Seq<Seq<char>>, i: int, j: int)
    requires
        ascending(keys),
        0 <= i < keys.len(),
        0 <= j < keys.len(),
        keys[i] == keys[j],
    ensures
        i == j,
{
    lemma_text_lt_irreflexive(keys[i]);
    if i < j {
        assert(text_lt(keys[i], keys[j]));
    } else if j < i {
        assert(text_lt(keys[j], keys[i]));
    }
}

/// The position of `key` in the table, if it is there.
pub fn position<T>(entries: &Vec<(String, T)>, key: &str) -> (r: Option<usize>)
    ensures
        match r {
            Some(i) => i < entries.len() && i == key_index(keys_of(entries@), key@, 0),
            None => !has_key(keys_of(entries@), key@),
        },
{
    let mut i: usize = 0;
    while i < entries.len()
        invariant
            i <= entries.len(),
            key_index(keys_of(entries@), key@, 0) == key_index(keys_of(entries@), key@, i as int),
        decreases entries.len() - i,
    {
        if str_eq(entries[i].0.as_str(), key) {
            return Some(i);
        }
        i += 1;
    }
    None
}

/// Places `value` under `key`, replacing what was stored under that key.
pub fn place<T>(entries: &mut Vec<(String, T)>, key: String, value: T)
    ensures
        final(entries)@ == placed(old(entries)@, keys_of(old(entries)@), key@, (key, value)),
{
    let mut p: usize = 0;
    while p < entries.len() && str_lt(entries[p].0.as_str(), key.as_str())
        invariant
            p <= entries.len(),
            entries@ == old(entries)@,
            lower_bound(keys_of(entries@), key@, 0) == lower_bound(
                keys_of(entries@),
                key@,
                p as int,
            ),
        decreases entries.len() - p,
    {
        p += 1;
    }
    if p < entries.len() && str_eq(entries[p].0.as_str(), key.as_str()) {
        entries.set(p, (key, value));
    } else {
        entries.insert(p, (key, value));
    }
}

/// The table after `x` is assigned to `key`: it replaces the first item
/// stored under that key, or is added at the end.
pub open spec fn assigned<X>(s: Seq<X>, keys: Seq<Seq<char>>, key: Seq<char>, x: X) -> Seq<X> {
    let i = key_index(keys, key, 0);
    if 0 <= i < s.len() {
        s.update(i, x)
    } else {
        s.push(x)
    }
}

/// After an assignment the key is found where it was assigned, and every
/// other key where it was before.
pub proof fn lemma_assigned_keys(keys: Seq<Seq<char>>, key: Seq<char>, k: Seq<char>)
    ensures
        assigned(keys, keys, key, key).len() >= keys.len(),
        key_index(assigned(keys, keys, key, key), key, 0) == key_index(keys, key, 0),
        k != key ==> (has_key(assigned(keys, keys, key, key), k) <==> has_key(keys, k)),
        k != key && has_key(keys, k) ==> key_index(assigned(keys, keys, key, key), k, 0)
            == key_index(keys, k, 0),
        has_key(assigned(keys, keys, key, key), key),
{
    let after = assigned(keys, keys, key, key);
    lemma_key_index(keys, key, 0);
    lemma_key_index(keys, k, 0);
    lemma_key_index(after, key, 0);
    lemma_key_index(after, k, 0);
    let i = key_index(keys, key, 0);
    if i < keys.len() {
        assert(after =~= keys);
    } else {
        assert(after[keys.len() as int] == key);
        assert forall|j: int| 0 <= j < keys.len() implies after[j] == keys[j] by {}
        let a = key_index(after, key, 0);
        if a < keys.len() {
            assert(keys[a] == key);
        }
        let b = key_index(after, k, 0);
        if k != key {
            if b < after.len() {
                assert(b < keys.len());
                assert(keys[b] == k);
            }
            let c = key_index(keys, k, 0);
            if c < keys.len() {
                assert(after[c] == k);
                if b < c {
                    assert(keys[b] == k);
                }
            }
        }
    }
}

/// Assigns `value` to `key`, replacing what was stored under that key.
pub fn assign<T>(entries: &mut Vec<(String, T)>, key: String, value: T)
    ensures
        final(entries)@ == assigned(old(entries)@, keys_of(old(entries)@), key@, (key, value)),
{
    match position(entries, key.as_str()) {
        Some(i) => {
            entries.set(i, (key, value));
        },
        None => {
            proof {
                lemma_key_index(keys_of(entries@), key@, 0);
            }
            entries.push((key, value));
        },
    }
}

/// Whether no key occurs twice.
pub open spec fn distinct(keys: Seq<Seq<char>>) -> bool {
    forall|i: int, j: int| 0 <= i < j < keys.len() ==> keys[i] != keys[j]
}

/// A key that is added behind distinct keys that lack it leaves them
/// distinct.
pub proof fn lemma_pushed_distinct(keys: Seq<Seq<char>>, key: Seq<char>)
    requires
        distinct(keys),
        !has_key(keys, key),
    ensures
        distinct(keys.push(key)),
{
    lemma_key_index(keys, key, 0);
}

/// An assignment leaves distinct keys distinct.
pub proof fn lemma_assigned_distinct(keys: Seq<Seq<char>>, key: Seq<char>)
    requires
        distinct(keys),
    ensures
        distinct(assigned(keys, keys, key, key)),
{
    lemma_key_index(keys, key, 0);
    let i = key_index(keys, key, 0);
    if i < keys.len() {
        assert(assigned(keys, keys, key, key) =~= keys);
    } else {
        lemma_pushed_distinct(keys, key);
    }
}

} // verus!
