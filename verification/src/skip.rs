//! The concurrent skip list that backs the catalog, seen as a finite map.
//!
//! Nothing here is proved: each function states what the skip list's
//! documentation and source say of the method that it calls. The list is
//! changed through exclusive references only, so that what a shared
//! reference sees cannot change under it.

use crate::page::{Page, PageView};
use crossbeam_skiplist::SkipMap;
use vstd::prelude::*;

verus! {

/// `crossbeam_skiplist::SkipMap`, whose inside the verifier does not see.
#[verifier::external_type_specification]
#[verifier::external_body]
#[verifier::reject_recursive_types(K)]
#[verifier::reject_recursive_types(V)]
pub struct ExSkipMap<K, V>(SkipMap<K, V>);

/// The key-value pairs that a skip list of pages holds.
pub uninterp spec fn entries_of(map: SkipMap<u64, Page>) -> Map<u64, PageView>;

/// `SkipMap::new`: the fresh list holds nothing.
#[verifier::external_body]
pub(crate) fn skip_new() -> (list: SkipMap<u64, Page>)
    ensures
        entries_of(list).dom() == Set::<u64>::empty(),
{
    SkipMap::new()
}

/// `SkipMap::get` followed by `Entry::value`: a copy of the value stored
/// under `key`, or `None` when the list has no such key.
#[verifier::external_body]
pub(crate) fn skip_get(map: &SkipMap<u64, Page>, key: u64) -> (found: Option<Page>)
    ensures
        found.is_some() == entries_of(*map).contains_key(key),
        found.is_some() ==> found.unwrap()@ == entries_of(*map)[key],
{
    match map.get(&key) {
        Some(entry) => Some(entry.value().clone()),
        None => None,
    }
}

/// `SkipMap::insert`: afterwards `key` maps to `value`, replacing any entry
/// the key had; every other key is untouched.
#[verifier::external_body]
pub(crate) fn skip_insert(map: &mut SkipMap<u64, Page>, key: u64, value: Page)
    ensures
        entries_of(*final(map)) == entries_of(*old(map)).insert(key, value@),
{
    map.insert(key, value);
}

/// `SkipMap::remove`: afterwards `key` is absent and every other key is
/// untouched; the result tells whether an entry was removed.
#[verifier::external_body]
pub(crate) fn skip_remove(map: &mut SkipMap<u64, Page>, key: u64) -> (removed: bool)
    ensures
        removed == entries_of(*old(map)).contains_key(key),
        entries_of(*final(map)) == entries_of(*old(map)).remove(key),
{
    map.remove(&key).is_some()
}

/// `SkipMap::len`: the number of entries. The count is exact where nobody
/// modifies the list during the call, which a shared reference obtained
/// from this library guarantees.
#[verifier::external_body]
pub(crate) fn skip_len(map: &SkipMap<u64, Page>) -> (count: usize)
    ensures
        count == entries_of(*map).dom().len(),
{
    map.len()
}

/// `SkipMap::iter` with `Entry::key`: every key of the list exactly once,
/// in ascending order.
#[verifier::external_body]
pub(crate) fn skip_keys(map: &SkipMap<u64, Page>) -> (keys: Vec<u64>)
    ensures
        forall|i: int, j: int| 0 <= i < j < keys@.len() ==> keys@[i] < keys@[j],
        forall|key: u64| keys@.contains(key) <==> entries_of(*map).contains_key(key),
{
    let mut keys = Vec::new();
    for entry in map.iter() {
        keys.push(*entry.key());
    }
    keys
}

} // verus!
