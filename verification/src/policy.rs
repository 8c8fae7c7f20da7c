//! LRU-K: which of two unpinned pages leaves first.

use crate::page::{Page, PageView};
use vstd::prelude::*;

verus! {

/// Whether at least `k` accesses of the page are on record.
pub open spec fn has_k_accesses(p: PageView, k: nat) -> bool {
    p.history.len() >= k
}

/// Timestamp of the `k`-th most recent access of a page that has one.
pub open spec fn kth_recent_access(p: PageView, k: nat) -> int {
    p.history[p.history.len() - k] as int
}

/// Time elapsed at `now` since the `k`-th most recent access; `None` stands
/// for the infinite distance of a page with fewer than `k` accesses.
pub open spec fn backward_k_distance(p: PageView, k: nat, now: int) -> Option<int> {
    if has_k_accesses(p, k) {
        Some(now - kth_recent_access(p, k))
    } else {
        None
    }
}

/// Timestamp of the oldest access on record, or -1 for a page never accessed.
pub open spec fn first_access(p: PageView) -> int {
    if p.history.len() == 0 {
        -1
    } else {
        p.history[0] as int
    }
}

/// The eviction order: `a` is a better victim than `b`.
///
/// A page with fewer than `k` accesses goes before any page with `k`; two
/// pages with fewer than `k` go by their first access; two pages with `k`
/// go by the older `k`-th most recent access; remaining ties go to the
/// smaller page identifier.
pub open spec fn evicts_before(a: PageView, b: PageView, k: nat) -> bool {
    if has_k_accesses(a, k) != has_k_accesses(b, k) {
        !has_k_accesses(a, k)
    } else if !has_k_accesses(a, k) {
        first_access(a) < first_access(b) || (first_access(a) == first_access(b) && a.page_id
            < b.page_id)
    } else {
        kth_recent_access(a, k) < kth_recent_access(b, k) || (kth_recent_access(a, k)
            == kth_recent_access(b, k) && a.page_id < b.page_id)
    }
}

/// `v` names the unpinned entry that goes before every other unpinned entry.
pub open spec fn is_victim(entries: Map<u64, PageView>, k: nat, v: u64) -> bool {
    &&& entries.contains_key(v)
    &&& entries[v].pin_count == 0
    &&& forall|q: u64|
        entries.contains_key(q) && entries[q].pin_count == 0 && q != v ==> evicts_before(
            entries[v],
            #[trigger] entries[q],
            k,
        )
}

/// Every entry is pinned.
pub open spec fn all_pinned(entries: Map<u64, PageView>) -> bool {
    forall|q: u64| entries.contains_key(q) ==> (#[trigger] entries[q]).pin_count > 0
}

/// Decides [`evicts_before`] for two page records.
pub fn goes_first(a: &Page, b: &Page, k: usize) -> (first: bool)
    requires
        k >= 1,
    ensures
        first == evicts_before(a@, b@, k as nat),
{
    let a_len: usize = a.access_history.len();
    let b_len: usize = b.access_history.len();
    let a_full: bool = a_len >= k;
    let b_full: bool = b_len >= k;
    if a_full != b_full {
        !a_full
    } else if !a_full {
        if a_len == 0 {
            b_len > 0 || a.page_id < b.page_id
        } else if b_len == 0 {
            false
        } else {
            let ta: u64 = a.access_history[0];
            let tb: u64 = b.access_history[0];
            ta < tb || (ta == tb && a.page_id < b.page_id)
        }
    } else {
        let ta: u64 = a.access_history[a_len - k];
        let tb: u64 = b.access_history[b_len - k];
        ta < tb || (ta == tb && a.page_id < b.page_id)
    }
}

/// The order is strict: no page goes before itself, and never both ways.
pub proof fn lemma_order_is_strict(a: PageView, b: PageView, k: nat)
    ensures
        !evicts_before(a, a, k),
        !(evicts_before(a, b, k) && evicts_before(b, a, k)),
{
}

/// The order is total on pages with distinct identifiers.
pub proof fn lemma_order_is_total(a: PageView, b: PageView, k: nat)
    requires
        a.page_id != b.page_id,
    ensures
        evicts_before(a, b, k) || evicts_before(b, a, k),
{
}

/// The order is transitive.
pub proof fn lemma_order_is_transitive(a: PageView, b: PageView, c: PageView, k: nat)
    requires
        evicts_before(a, b, k),
        evicts_before(b, c, k),
    ensures
        evicts_before(a, c, k),
{
}

/// Infinite distance beats finite, and of two finite distances the larger
/// one goes first.
pub proof fn lemma_larger_distance_goes_first(a: PageView, b: PageView, k: nat, now: int)
    requires
        match (backward_k_distance(a, k, now), backward_k_distance(b, k, now)) {
            (None, Some(_)) => true,
            (Some(da), Some(db)) => da > db,
            _ => false,
        },
    ensures
        evicts_before(a, b, k),
        !evicts_before(b, a, k),
{
}

/// At most one page identifier is the victim of a catalog whose entries are
/// filed under their own identifiers.
pub proof fn lemma_victim_is_unique(entries: Map<u64, PageView>, k: nat, v: u64, w: u64)
    requires
        is_victim(entries, k, v),
        is_victim(entries, k, w),
        entries[v].page_id == v,
        entries[w].page_id == w,
    ensures
        v == w,
{
    if v != w {
        assert(evicts_before(entries[v], entries[w], k));
        assert(evicts_before(entries[w], entries[v], k));
        lemma_order_is_strict(entries[v], entries[w], k);
    }
}

/// No entry is both the victim and pinned: when every page is pinned there is no victim.
pub proof fn lemma_pinned_is_never_victim(entries: Map<u64, PageView>, k: nat, v: u64)
    requires
        entries.contains_key(v),
        entries[v].pin_count > 0,
    ensures
        !is_victim(entries, k, v),
{
}

} // verus!
