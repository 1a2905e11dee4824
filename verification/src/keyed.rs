//! The rule by which the caches hand out identities: each distinct key gets
//! the next free number when it is first asked for, and keeps it.

use vstd::prelude::*;

verus! {

/// No key stands twice in `keys`.
pub open spec fn distinct<K>(keys: Seq<K>) -> bool {
    forall|i: int, j: int| 0 <= i < j < keys.len() ==> keys[i] != keys[j]
}

/// The identity of `key`: its position among `keys`, or the next free
/// position if it is not there yet.
pub open spec fn resolved_id<K>(keys: Seq<K>, key: K) -> int {
    if keys.contains(key) {
        keys.index_of(key)
    } else {
        keys.len() as int
    }
}

/// The keys after `key` was asked for.
pub open spec fn after_resolve<K>(keys: Seq<K>, key: K) -> Seq<K> {
    if keys.contains(key) {
        keys
    } else {
        keys.push(key)
    }
}

/// Asking twice for one key gives the same identity, and the second time
/// adds nothing.
pub proof fn lemma_resolve_twice<K>(keys: Seq<K>, key: K)
    requires
        distinct(keys),
    ensures
        distinct(after_resolve(keys, key)),
        after_resolve(keys, key).contains(key),
        0 <= resolved_id(keys, key) < after_resolve(keys, key).len(),
        after_resolve(keys, key)[resolved_id(keys, key)] == key,
        resolved_id(after_resolve(keys, key), key) == resolved_id(keys, key),
        after_resolve(after_resolve(keys, key), key) == after_resolve(keys, key),
{
    let after = after_resolve(keys, key);
    if keys.contains(key) {
        assert(keys[keys.index_of(key)] == key);
    } else {
        assert(after[keys.len() as int] == key);
        let j = after.index_of(key);
        if j < keys.len() {
            assert(keys[j] == key);
        }
    }
}

/// A key that was asked for keeps its identity whatever is asked for later.
pub proof fn lemma_identity_is_kept<K>(keys: Seq<K>, key: K, later: K)
    requires
        distinct(keys),
        keys.contains(key),
    ensures
        after_resolve(keys, later).contains(key),
        resolved_id(after_resolve(keys, later), key) == resolved_id(keys, key),
{
    let after = after_resolve(keys, later);
    lemma_resolve_twice(keys, later);
    let i = keys.index_of(key);
    assert(after[i] == key);
    let j = after.index_of(key);
    assert(after[j] == key);
}

/// Every key of `earlier` is a key of `later`, with the same identity.
pub open spec fn keys_extend<K>(earlier: Seq<K>, later: Seq<K>) -> bool {
    forall|key: K| #[trigger]
        earlier.contains(key) ==> later.contains(key) && resolved_id(later, key) == resolved_id(
            earlier,
            key,
        )
}

/// Asking for a key changes the identity of no key that was asked for
/// before.
pub proof fn lemma_resolve_extends<K>(keys: Seq<K>, key: K)
    requires
        distinct(keys),
    ensures
        keys_extend(keys, after_resolve(keys, key)),
{
}

/// Two keys get the same identity only if they are equal.
pub proof fn lemma_distinct_keys_distinct_ids<K>(keys: Seq<K>, a: K, b: K)
    requires
        distinct(keys),
        a != b,
    ensures
        resolved_id(keys, a) != resolved_id(after_resolve(keys, a), b),
{
    let after = after_resolve(keys, a);
    lemma_resolve_twice(keys, a);
    let ia = after.index_of(a);
    assert(after[ia] == a);
}

} // verus!
