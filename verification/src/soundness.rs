//! Why every operation keeps the pool's invariant: one lemma per change
//! of the pool's value.

use crate::buffer_pool::{Mode, Phase};
use crate::model::{request_for, PoolView};
use crate::page::PageView;
use vstd::prelude::*;
use vstd::set_lib::{lemma_int_range, lemma_len_subset, lemma_map_size, set_int_range};

verus! {

/// The resident pages never outnumber the frames.
pub proof fn lemma_residents_fit(v: PoolView)
    requires
        v.inv(),
    ensures
        v.resident_count() <= v.capacity(),
{
    reveal(PoolView::inv);
    let pages = v.catalog.dom();
    let frame_of = |p: u64| v.catalog[p].frame_index as int;
    let bound = pages.map(frame_of);
    assert(vstd::relations::injective_on(frame_of, pages)) by {
        assert forall|p: u64, q: u64|
            pages.contains(p) && pages.contains(q) && #[trigger] frame_of(p) == #[trigger] frame_of(
                q,
            ) implies p == q by {
            if p != q {
                assert(v.catalog.contains_key(p) && v.catalog.contains_key(q));
                assert(v.catalog[p].frame_index != v.catalog[q].frame_index);
            }
        }
    }
    lemma_map_size(pages, bound, frame_of);
    let all = set_int_range(0, v.capacity() as int);
    lemma_int_range(0, v.capacity() as int);
    assert(bound.subset_of(all)) by {
        assert forall|f: int| bound.contains(f) implies all.contains(f) by {
            let p = choose|p: u64| pages.contains(p) && frame_of(p) == f;
            assert(v.catalog.contains_key(p));
        }
    }
    lemma_len_subset(bound, all);
}

/// The invariant survives the departure of an unpinned page.
pub proof fn lemma_evict_keeps_invariant(v: PoolView, page_id: u64)
    requires
        v.inv(),
        v.resident(page_id),
        v.catalog[page_id].pin_count == 0,
    ensures
        v.evict(page_id).inv(),
        forall|p: u64| p != page_id ==> v.evict(page_id).marked(p) == v.marked(p),
        !v.marked(page_id),
{
    reveal(PoolView::inv);
    let w = v.evict(page_id);
    let frame = v.catalog[page_id].frame_index;
    assert(v.catalog.contains_key(page_id));
    assert(!v.frames.free.contains(frame));
    assert(w.frames.free.no_duplicates());
    assert forall|p: u64| #[trigger] w.catalog.contains_key(p) implies w.catalog[p].frame_index
        < w.capacity() && !w.frames.free.contains(w.catalog[p].frame_index) by {
        assert(v.catalog.contains_key(p));
        if w.frames.free.contains(w.catalog[p].frame_index) {
            let j = choose|j: int|
                0 <= j < w.frames.free.len() && w.frames.free[j] == w.catalog[p].frame_index;
            if j < v.frames.free.len() {
                assert(v.frames.free[j] == v.catalog[p].frame_index);
            }
        }
    }
    assert forall|i: int|
        0 <= i < w.markers.len() && (#[trigger] w.markers[i]).phase
            == Phase::Loading implies w.markers[i].frame_index < w.capacity()
        && !w.frames.free.contains(w.markers[i].frame_index) by {
        let f = w.markers[i].frame_index;
        if w.frames.free.contains(f) {
            let j = choose|j: int| 0 <= j < w.frames.free.len() && w.frames.free[j] == f;
            if j < v.frames.free.len() {
                assert(v.frames.free[j] == f);
            }
        }
    }
    assert forall|i: int|
        0 <= i < w.markers.len() && (#[trigger] w.markers[i]).phase is Flushing
        implies w.victim_guarded(i) by {
        let victim = w.markers[i].phase->victim;
        assert(v.catalog.contains_key(victim));
    }
    assert forall|h: int| 0 <= h < w.held.len() implies w.held_guarded(#[trigger] w.held[h]) by {
        assert(v.catalog.contains_key(v.held[h]));
    }
    if v.marked(page_id) {
        let i = choose|i: int|
            0 <= i < v.markers.len() && (#[trigger] v.markers[i]).page_id == page_id;
        assert(v.markers[i].phase == (Phase::Flushing { victim: page_id }));
    }
}

/// The invariant survives the start of a write-back of an unpinned page
/// on behalf of a page that is neither resident nor marked.
pub proof fn lemma_start_flush_keeps_invariant(v: PoolView, page_id: u64, mode: Mode, victim: u64)
    requires
        v.inv(),
        !v.resident(page_id),
        !v.marked(page_id),
        page_id * v.page_size() <= u64::MAX,
        v.resident(victim),
        v.catalog[victim].pin_count == 0,
        !v.engine.saturated(),
    ensures
        v.start_flush(page_id, mode, victim).inv(),
{
    reveal(PoolView::inv);
    let w = v.start_flush(page_id, mode, victim);
    let n = v.markers.len() as int;
    assert(v.catalog.contains_key(victim));
    assert(w.catalog.dom() =~= v.catalog.dom());
    assert(w.markers[n].phase == (Phase::Flushing { victim }));
    if v.held.contains(victim) {
        let h = choose|h: int| 0 <= h < v.held.len() && v.held[h] == victim;
        assert(v.catalog[v.held[h]].pin_count >= 1);
    }
    assert forall|i: int|
        0 <= i < w.markers.len() && (#[trigger] w.markers[i]).phase is Flushing
        implies w.victim_guarded(i) by {
        let u = w.markers[i].phase->victim;
        if i < n {
            assert(v.markers[i].phase == (Phase::Flushing { victim: u }));
            assert(v.catalog.contains_key(u));
        }
    }
    assert forall|i: int, j: int|
        0 <= i < j < w.markers.len() && (#[trigger] w.markers[i]).phase
            != Phase::Loading implies w.markers[i].phase != (#[trigger] w.markers[j]).phase by {
        if j == n {
            if w.markers[i].phase == (Phase::Flushing { victim }) {
                assert(v.markers[i].phase == (Phase::Flushing { victim }));
                assert(v.catalog.contains_key(victim));
            }
        } else {
            assert(v.markers[i].phase != v.markers[j].phase);
        }
    }
    assert forall|h: int| 0 <= h < w.held.len() implies w.held_guarded(#[trigger] w.held[h]) by {
        assert(v.catalog.contains_key(v.held[h]));
    }
    assert(w.engine.wf());
    assert(w.aligned());
    assert(w.frames_bound());
    assert(w.markers_sound());
    assert(w.offsets_fit());
    assert(w.entries_filed());
}

/// No two markers carry the same token.
pub proof fn lemma_token_names_one_marker(v: PoolView, token: u64, i: int)
    requires
        v.inv(),
        0 <= i < v.markers.len(),
        v.markers[i].token == token,
    ensures
        v.awaits(token),
        v.token_index(token) == i,
{
    reveal(PoolView::inv);
    let j = v.token_index(token);
    assert(v.engine.pending[i] == request_for(v.markers[i]));
    assert(v.engine.pending[j] == request_for(v.markers[j]));
    assert(v.engine.pending[i].token == v.engine.pending[j].token);
    if i < j {
        assert(v.engine.pending[i].token != v.engine.pending[j].token);
    }
    if j < i {
        assert(v.engine.pending[j].token != v.engine.pending[i].token);
    }
}

/// The invariant survives the removal of a marker with its request.
pub proof fn lemma_without_marker_keeps_invariant(v: PoolView, i: int)
    requires
        v.inv(),
        0 <= i < v.markers.len(),
    ensures
        v.without_marker(i).inv(),
{
    reveal(PoolView::inv);
    let w = v.without_marker(i);
    assert forall|a: int| 0 <= a < w.markers.len() implies #[trigger] w.markers[a] == v.markers[if a
        < i {
        a
    } else {
        a + 1
    }] by {}
    assert forall|a: int| 0 <= a < w.engine.pending.len() implies #[trigger] w.engine.pending[a]
        == v.engine.pending[if a < i {
        a
    } else {
        a + 1
    }] by {}
    assert(w.engine.wf()) by {
        assert forall|a: int, b: int| 0 <= a < b < w.engine.pending.len() implies (
        #[trigger] w.engine.pending[a]).token != (#[trigger] w.engine.pending[b]).token by {
            let a0 = if a < i { a } else { a + 1 };
            let b0 = if b < i { b } else { b + 1 };
            assert(v.engine.pending[a0].token != v.engine.pending[b0].token);
        }
    }
    assert(w.aligned()) by {
        assert forall|a: int| 0 <= a < w.markers.len() implies w.engine.pending[a] == request_for(
            #[trigger] w.markers[a],
        ) by {
            let a0 = if a < i { a } else { a + 1 };
            assert(v.engine.pending[a0] == request_for(v.markers[a0]));
        }
    }
    assert(w.frames_bound()) by {
        assert forall|a: int|
            0 <= a < w.markers.len() && (#[trigger] w.markers[a]).phase
                == Phase::Loading implies w.markers[a].frame_index < w.capacity()
            && !w.frames.free.contains(w.markers[a].frame_index) by {
            let a0 = if a < i { a } else { a + 1 };
            assert(v.markers[a0].phase == Phase::Loading);
        }
        assert forall|a: int, p: u64|
            0 <= a < w.markers.len() && (#[trigger] w.markers[a]).phase == Phase::Loading
                && w.catalog.contains_key(p) implies (#[trigger] w.catalog[p]).frame_index
            != w.markers[a].frame_index by {
            let a0 = if a < i { a } else { a + 1 };
            assert(v.markers[a0].phase == Phase::Loading);
        }
        assert forall|a: int, b: int|
            0 <= a < b < w.markers.len() && (#[trigger] w.markers[a]).phase == Phase::Loading && (
            #[trigger] w.markers[b]).phase == Phase::Loading implies w.markers[a].frame_index
            != w.markers[b].frame_index by {
            let a0 = if a < i { a } else { a + 1 };
            let b0 = if b < i { b } else { b + 1 };
            assert(v.markers[a0].frame_index != v.markers[b0].frame_index);
        }
    }
    assert(w.markers_sound()) by {
        assert forall|a: int, b: int| 0 <= a < b < w.markers.len() implies (
        #[trigger] w.markers[a]).page_id != (#[trigger] w.markers[b]).page_id by {
            let a0 = if a < i { a } else { a + 1 };
            let b0 = if b < i { b } else { b + 1 };
            assert(v.markers[a0].page_id != v.markers[b0].page_id);
        }
        assert forall|a: int|
            0 <= a < w.markers.len() && w.catalog.contains_key(
                (#[trigger] w.markers[a]).page_id,
            ) implies w.markers[a].phase == (Phase::Flushing { victim: w.markers[a].page_id }) by {
            let a0 = if a < i { a } else { a + 1 };
            assert(v.catalog.contains_key(v.markers[a0].page_id));
        }
    }
    assert(w.guards_sound()) by {
        assert forall|a: int|
            0 <= a < w.markers.len() && (#[trigger] w.markers[a]).phase is Flushing
            implies w.victim_guarded(a) by {
            let u = w.markers[a].phase->victim;
            let a0 = if a < i { a } else { a + 1 };
            assert(v.markers[a0].phase == (Phase::Flushing { victim: u }));
            assert(v.catalog.contains_key(u));
        }
        assert forall|a: int, b: int|
            0 <= a < b < w.markers.len() && (#[trigger] w.markers[a]).phase
                != Phase::Loading implies w.markers[a].phase != (#[trigger] w.markers[b]).phase by {
            let a0 = if a < i { a } else { a + 1 };
            let b0 = if b < i { b } else { b + 1 };
            assert(v.markers[a0].phase != v.markers[b0].phase);
        }
    }
    assert(w.offsets_fit()) by {
        assert forall|a: int| 0 <= a < w.markers.len() implies (#[trigger] w.markers[a]).page_id
            * w.page_size() <= u64::MAX by {
            let a0 = if a < i { a } else { a + 1 };
            assert(v.markers[a0].page_id * v.page_size() <= u64::MAX);
        }
    }
}

/// Once the marker of a write-back is gone, its victim carries no pin of the pool.
pub proof fn lemma_settled_victim_is_unguarded(v: PoolView, i: int, victim: u64)
    requires
        v.inv(),
        0 <= i < v.markers.len(),
        v.markers[i].phase == (Phase::Flushing { victim }),
    ensures
        v.without_marker(i).guard(victim) == 0,
        v.catalog.contains_key(victim),
        v.catalog[victim].pin_count >= 1,
        v.catalog[victim].frame_index == v.markers[i].frame_index,
        !v.writers.contains(victim),
{
    reveal(PoolView::inv);
    let w = v.without_marker(i);
    assert(v.catalog.contains_key(victim));
    if w.flushing(victim) {
        let a = choose|a: int|
            0 <= a < w.markers.len() && (#[trigger] w.markers[a]).phase == (Phase::Flushing {
                victim,
            });
        let a0 = if a < i { a } else { a + 1 };
        assert(w.markers[a] == v.markers[a0]);
        if a0 < i {
            assert(v.markers[a0].phase != v.markers[i].phase);
        } else {
            assert(v.markers[i].phase != v.markers[a0].phase);
        }
    }
}

/// The invariant survives putting an unguarded, pinned, resident page on hold.
pub proof fn lemma_hold_keeps_invariant(v: PoolView, page_id: u64)
    requires
        v.inv(),
        v.resident(page_id),
        v.catalog[page_id].pin_count >= 1,
        v.guard(page_id) == 0,
        !v.writers.contains(page_id),
    ensures
        v.hold(page_id).inv(),
{
    reveal(PoolView::inv);
    let w = v.hold(page_id);
    assert(v.catalog.contains_key(page_id));
    assert forall|i: int|
        0 <= i < w.markers.len() && (#[trigger] w.markers[i]).phase is Flushing
        implies w.victim_guarded(i) by {
        let u = w.markers[i].phase->victim;
        assert(v.catalog.contains_key(u));
        assert(!v.held.contains(u));
        if u == page_id {
            assert(v.flushing(page_id));
        }
        if w.held.contains(u) {
            let h = choose|h: int| 0 <= h < w.held.len() && w.held[h] == u;
            if h < v.held.len() {
                assert(v.held[h] == u);
            }
        }
    }
    assert forall|a: int, b: int| 0 <= a < w.held.len() && 0 <= b < w.held.len() && a
        != b implies w.held[a] != w.held[b] by {
        if a < v.held.len() && b < v.held.len() {
        } else if a < v.held.len() {
            assert(v.held[a] == w.held[a]);
            assert(v.held.contains(v.held[a]));
        } else if b < v.held.len() {
            assert(v.held[b] == w.held[b]);
            assert(v.held.contains(v.held[b]));
        }
    }
    assert forall|h: int| 0 <= h < w.held.len() implies w.held_guarded(#[trigger] w.held[h]) by {
        if h < v.held.len() {
            assert(v.catalog.contains_key(v.held[h]));
        }
    }
}

/// The invariant survives a failed read: the marker goes and its frame is free again.
pub proof fn lemma_give_back_keeps_invariant(v: PoolView, i: int)
    requires
        v.inv(),
        0 <= i < v.markers.len(),
        v.markers[i].phase == Phase::Loading,
    ensures
        v.without_marker(i).give_back(v.markers[i].frame_index).inv(),
{
    reveal(PoolView::inv);
    let base = v.without_marker(i);
    let f = v.markers[i].frame_index;
    let w = base.give_back(f);
    lemma_without_marker_keeps_invariant(v, i);
    assert(!v.frames.free.contains(f));
    assert(w.frames.free.no_duplicates());
    assert forall|p: u64| #[trigger] w.catalog.contains_key(p) implies w.catalog[p].frame_index
        < w.capacity() && !w.frames.free.contains(w.catalog[p].frame_index) by {
        assert(v.catalog.contains_key(p));
        assert(v.catalog[p].frame_index != f);
        if w.frames.free.contains(w.catalog[p].frame_index) {
            let j = choose|j: int|
                0 <= j < w.frames.free.len() && w.frames.free[j] == w.catalog[p].frame_index;
            if j < v.frames.free.len() {
                assert(v.frames.free[j] == v.catalog[p].frame_index);
            }
        }
    }
    assert forall|a: int|
        0 <= a < w.markers.len() && (#[trigger] w.markers[a]).phase
            == Phase::Loading implies w.markers[a].frame_index < w.capacity()
        && !w.frames.free.contains(w.markers[a].frame_index) by {
        let a0 = if a < i { a } else { a + 1 };
        assert(w.markers[a] == v.markers[a0]);
        assert(v.markers[a0].phase == Phase::Loading);
        if a0 < i {
            assert(v.markers[a0].frame_index != v.markers[i].frame_index);
        } else {
            assert(v.markers[i].frame_index != v.markers[a0].frame_index);
        }
        let g = w.markers[a].frame_index;
        if w.frames.free.contains(g) {
            let j = choose|j: int| 0 <= j < w.frames.free.len() && w.frames.free[j] == g;
            if j < v.frames.free.len() {
                assert(v.frames.free[j] == g);
            }
        }
    }
}

/// The invariant survives a successful read: the marker goes and its page
/// is resident in the frame that the read had reserved.
pub proof fn lemma_install_keeps_invariant(
    v: PoolView,
    i: int,
    image: Seq<u8>,
    now: u64,
    pins: u32,
)
    requires
        v.inv(),
        0 <= i < v.markers.len(),
        v.markers[i].phase == Phase::Loading,
        image.len() == v.page_size(),
    ensures
        v.without_marker(i).install(
            v.markers[i].page_id,
            v.markers[i].frame_index,
            image,
            now,
            pins,
        ).inv(),
        v.without_marker(i).install(
            v.markers[i].page_id,
            v.markers[i].frame_index,
            image,
            now,
            pins,
        ).guard(v.markers[i].page_id) == 0,
        !v.writers.contains(v.markers[i].page_id),
{
    reveal(PoolView::inv);
    let base = v.without_marker(i);
    let m = v.markers[i];
    let w = base.install(m.page_id, m.frame_index, image, now, pins);
    lemma_without_marker_keeps_invariant(v, i);
    assert(!v.catalog.contains_key(m.page_id));
    lemma_nonresident_is_unclaimed(v, m.page_id);
    if w.flushing(m.page_id) {
        let a = choose|a: int|
            0 <= a < w.markers.len() && (#[trigger] w.markers[a]).phase == (Phase::Flushing {
                victim: m.page_id,
            });
        let a0 = if a < i { a } else { a + 1 };
        assert(w.markers[a] == v.markers[a0]);
        assert(v.markers[a0].phase == (Phase::Flushing { victim: m.page_id }));
        assert(v.flushing(m.page_id));
    }
    assert(w.catalog.dom() =~= v.catalog.dom().insert(m.page_id));
    assert(w.entries_filed());
    assert(w.frames_sized());
    assert(w.aligned());
    assert(w.frames_bound()) by {
        assert forall|a: int|
            0 <= a < w.markers.len() && (#[trigger] w.markers[a]).phase
                == Phase::Loading implies w.markers[a].frame_index != m.frame_index by {
            let a0 = if a < i { a } else { a + 1 };
            assert(w.markers[a] == v.markers[a0]);
            assert(v.markers[a0].phase == Phase::Loading);
            if a0 < i {
                assert(v.markers[a0].frame_index != v.markers[i].frame_index);
            } else {
                assert(v.markers[i].frame_index != v.markers[a0].frame_index);
            }
        }
        assert forall|p: u64, q: u64|
            w.catalog.contains_key(p) && w.catalog.contains_key(q) && p != q implies (
        #[trigger] w.catalog[p]).frame_index != (#[trigger] w.catalog[q]).frame_index by {
            if p != m.page_id {
                assert(v.catalog.contains_key(p));
            }
            if q != m.page_id {
                assert(v.catalog.contains_key(q));
            }
        }
    }
    assert(w.markers_sound()) by {
        assert forall|a: int|
            0 <= a < w.markers.len() && w.catalog.contains_key(
                (#[trigger] w.markers[a]).page_id,
            ) implies w.markers[a].phase == (Phase::Flushing { victim: w.markers[a].page_id }) by {
            let a0 = if a < i { a } else { a + 1 };
            assert(w.markers[a] == v.markers[a0]);
            if a0 < i {
                assert(v.markers[a0].page_id != v.markers[i].page_id);
            } else {
                assert(v.markers[i].page_id != v.markers[a0].page_id);
            }
            assert(base.catalog.contains_key(base.markers[a].page_id));
        }
    }
    assert(w.guards_sound()) by {
        assert forall|a: int|
            0 <= a < w.markers.len() && (#[trigger] w.markers[a]).phase is Flushing
            implies w.victim_guarded(a) by {
            let u = w.markers[a].phase->victim;
            assert(base.catalog.contains_key(u));
        }
        assert forall|h: int| 0 <= h < w.held.len() implies w.held_guarded(
            #[trigger] w.held[h],
        ) by {
            assert(base.catalog.contains_key(base.held[h]));
        }
    }
    assert(w.offsets_fit());
}

/// A page is on hold at one position only.
pub proof fn lemma_held_index(v: PoolView, page_id: u64, h: int)
    requires
        v.inv(),
        0 <= h < v.held.len(),
        v.held[h] == page_id,
    ensures
        v.held.contains(page_id),
        v.held_index(page_id) == h,
{
    reveal(PoolView::inv);
}

/// The invariant survives taking a page off hold; the page is then
/// resident, pinned, unmarked and without a pin of the pool.
pub proof fn lemma_unhold_keeps_invariant(v: PoolView, h: int)
    requires
        v.inv(),
        0 <= h < v.held.len(),
    ensures
        v.unhold(h).inv(),
        v.unhold(h).guard(v.held[h]) == 0,
        v.resident(v.held[h]),
        v.catalog[v.held[h]].pin_count >= 1,
        !v.writers.contains(v.held[h]),
        !v.marked(v.held[h]),
{
    reveal(PoolView::inv);
    let w = v.unhold(h);
    let page_id = v.held[h];
    assert(v.held.contains(page_id));
    assert forall|a: int| 0 <= a < w.held.len() implies #[trigger] w.held[a] == v.held[if a < h {
        a
    } else {
        a + 1
    }] by {}
    assert(w.held.no_duplicates()) by {
        assert forall|a: int, b: int| 0 <= a < w.held.len() && 0 <= b < w.held.len() && a
            != b implies w.held[a] != w.held[b] by {
            let a0 = if a < h { a } else { a + 1 };
            let b0 = if b < h { b } else { b + 1 };
            assert(v.held[a0] != v.held[b0]);
        }
    }
    assert forall|u: u64| w.held.contains(u) implies v.held.contains(u) by {
        let a = choose|a: int| 0 <= a < w.held.len() && w.held[a] == u;
        let a0 = if a < h { a } else { a + 1 };
        assert(v.held[a0] == u);
    }
    assert forall|i: int|
        0 <= i < w.markers.len() && (#[trigger] w.markers[i]).phase is Flushing
        implies w.victim_guarded(i) by {
        let u = w.markers[i].phase->victim;
        assert(v.catalog.contains_key(u));
    }
    assert forall|a: int| 0 <= a < w.held.len() implies w.held_guarded(#[trigger] w.held[a]) by {
        let a0 = if a < h { a } else { a + 1 };
        assert(v.catalog.contains_key(v.held[a0]));
    }
    if w.held.contains(page_id) {
        let a = choose|a: int| 0 <= a < w.held.len() && w.held[a] == page_id;
        let a0 = if a < h { a } else { a + 1 };
        assert(v.held[a0] == v.held[h]);
    }
    if w.flushing(page_id) {
        let i = choose|i: int|
            0 <= i < w.markers.len() && (#[trigger] w.markers[i]).phase == (Phase::Flushing {
                victim: page_id,
            });
        assert(v.catalog.contains_key(page_id));
    }
    if v.marked(page_id) {
        let i = choose|i: int|
            0 <= i < v.markers.len() && (#[trigger] v.markers[i]).page_id == page_id;
        assert(v.markers[i].phase == (Phase::Flushing { victim: page_id }));
        assert(v.catalog.contains_key(page_id));
    }
}

/// The invariant survives the start of a write-back that a resident,
/// pinned, unmarked and unguarded page gets on its own behalf.
pub proof fn lemma_restart_flush_keeps_invariant(v: PoolView, page_id: u64)
    requires
        v.inv(),
        v.resident(page_id),
        v.catalog[page_id].pin_count >= 1,
        v.guard(page_id) == 0,
        !v.writers.contains(page_id),
        !v.marked(page_id),
        !v.engine.saturated(),
    ensures
        v.restart_flush(page_id).inv(),
{
    reveal(PoolView::inv);
    let w = v.restart_flush(page_id);
    let n = v.markers.len() as int;
    assert(v.catalog.contains_key(page_id));
    assert(w.markers[n].phase == (Phase::Flushing { victim: page_id }));
    assert forall|i: int|
        0 <= i < w.markers.len() && (#[trigger] w.markers[i]).phase is Flushing
        implies w.victim_guarded(i) by {
        let u = w.markers[i].phase->victim;
        if i < n {
            assert(v.markers[i].phase == (Phase::Flushing { victim: u }));
            assert(v.catalog.contains_key(u));
        }
    }
    assert forall|i: int, j: int|
        0 <= i < j < w.markers.len() && (#[trigger] w.markers[i]).phase
            != Phase::Loading implies w.markers[i].phase != (#[trigger] w.markers[j]).phase by {
        if j == n {
            if w.markers[i].phase == (Phase::Flushing { victim: page_id }) {
                assert(v.markers[i].phase == (Phase::Flushing { victim: page_id }));
                assert(v.flushing(page_id));
            }
        } else {
            assert(v.markers[i].phase != v.markers[j].phase);
        }
    }
    assert forall|h: int| 0 <= h < w.held.len() implies w.held_guarded(#[trigger] w.held[h]) by {
        assert(v.catalog.contains_key(v.held[h]));
    }
    assert(w.engine.wf());
    assert(w.aligned());
    assert(w.frames_bound());
    assert(w.markers_sound());
    assert(w.offsets_fit());
    assert(w.entries_filed());
}

/// What the invariant says of a resident page.
pub proof fn lemma_resident_facts(v: PoolView, page_id: u64)
    requires
        v.inv(),
        v.resident(page_id),
    ensures
        v.catalog[page_id].page_id == page_id,
        v.catalog[page_id].history.len() <= v.k,
        v.catalog[page_id].frame_index < v.capacity(),
        !v.frames.free.contains(v.catalog[page_id].frame_index),
        v.content(page_id).len() == v.page_size(),
        page_id * v.page_size() <= u64::MAX,
        v.catalog[page_id].pin_count >= v.guard(page_id),
        v.writers.contains(page_id) ==> v.guard(page_id) == 0 && v.catalog[page_id].pin_count
            >= 1,
        v.k >= 1,
{
    reveal(PoolView::inv);
    assert(v.catalog.contains_key(page_id));
    if v.flushing(page_id) {
        let i = choose|i: int|
            0 <= i < v.markers.len() && (#[trigger] v.markers[i]).phase == (Phase::Flushing {
                victim: page_id,
            });
        assert(v.catalog.contains_key(page_id));
    }
    if v.held.contains(page_id) {
        let h = choose|h: int| 0 <= h < v.held.len() && v.held[h] == page_id;
        assert(v.catalog[v.held[h]].pin_count >= 1);
    }
}

/// What the invariant says of a marker.
pub proof fn lemma_marker_facts(v: PoolView, i: int)
    requires
        v.inv(),
        0 <= i < v.markers.len(),
    ensures
        v.engine.ready.len() == 0,
        v.engine.pending.len() == v.markers.len(),
        v.engine.pending[i] == request_for(v.markers[i]),
        v.markers[i].page_id * v.page_size() <= u64::MAX,
        v.marked(v.markers[i].page_id),
        v.marker_token(v.markers[i].page_id) == v.markers[i].token,
        v.markers[i].phase == Phase::Loading ==> !v.resident(v.markers[i].page_id)
            && v.markers[i].frame_index < v.capacity() && !v.frames.free.contains(
            v.markers[i].frame_index,
        ),
{
    reveal(PoolView::inv);
    let p = v.markers[i].page_id;
    let j = choose|j: int| 0 <= j < v.markers.len() && (#[trigger] v.markers[j]).page_id == p;
    if i < j {
        assert(v.markers[i].page_id != v.markers[j].page_id);
    }
    if j < i {
        assert(v.markers[j].page_id != v.markers[i].page_id);
    }
}

/// The invariant survives the start of a read for a page that is neither
/// resident nor marked, into the frame at the end of the free list.
pub proof fn lemma_start_load_keeps_invariant(v: PoolView, page_id: u64, mode: Mode)
    requires
        v.inv(),
        !v.resident(page_id),
        !v.marked(page_id),
        page_id * v.page_size() <= u64::MAX,
        v.has_free_frame(),
        !v.engine.saturated(),
    ensures
        v.start_load(page_id, mode).inv(),
{
    reveal(PoolView::inv);
    let w = v.start_load(page_id, mode);
    let n = v.markers.len() as int;
    let f = v.frames.free.last();
    assert(v.frames.free[v.frames.free.len() - 1] == f);
    assert(w.markers[n].phase == Phase::Loading);
    assert forall|g: usize| w.frames.free.contains(g) implies v.frames.free.contains(g) && g
        != f by {
        let j = choose|j: int| 0 <= j < w.frames.free.len() && w.frames.free[j] == g;
        assert(v.frames.free[j] == g);
    }
    assert(w.frames_sized()) by {
        assert forall|a: int, b: int|
            0 <= a < w.frames.free.len() && 0 <= b < w.frames.free.len() && a
                != b implies w.frames.free[a] != w.frames.free[b] by {
            assert(v.frames.free[a] != v.frames.free[b]);
        }
        assert forall|j: int| 0 <= j < w.frames.free.len() implies (#[trigger] w.frames.free[j])
            < w.capacity() by {
            assert(v.frames.free[j] < v.capacity());
        }
    }
    assert(w.engine.wf());
    assert(w.aligned());
    assert(w.frames_bound()) by {
        assert forall|p: u64| #[trigger] w.catalog.contains_key(p) implies w.catalog[p].frame_index
            < w.capacity() && !w.frames.free.contains(w.catalog[p].frame_index) by {}
        assert forall|i: int|
            0 <= i < w.markers.len() && (#[trigger] w.markers[i]).phase
                == Phase::Loading implies w.markers[i].frame_index < w.capacity()
            && !w.frames.free.contains(w.markers[i].frame_index) by {
            if i < n {
                assert(v.markers[i].phase == Phase::Loading);
            }
        }
        assert forall|i: int, p: u64|
            0 <= i < w.markers.len() && (#[trigger] w.markers[i]).phase == Phase::Loading
                && w.catalog.contains_key(p) implies (#[trigger] w.catalog[p]).frame_index
            != w.markers[i].frame_index by {
            if i < n {
                assert(v.markers[i].phase == Phase::Loading);
            } else {
                assert(v.catalog.contains_key(p));
            }
        }
        assert forall|i: int, j: int|
            0 <= i < j < w.markers.len() && (#[trigger] w.markers[i]).phase == Phase::Loading && (
            #[trigger] w.markers[j]).phase == Phase::Loading implies w.markers[i].frame_index
            != w.markers[j].frame_index by {
            if j < n {
                assert(v.markers[i].frame_index != v.markers[j].frame_index);
            } else {
                assert(v.markers[i].phase == Phase::Loading);
                assert(!v.frames.free.contains(v.markers[i].frame_index));
            }
        }
    }
    assert(w.markers_sound()) by {
        assert forall|i: int, j: int| 0 <= i < j < w.markers.len() implies (
        #[trigger] w.markers[i]).page_id != (#[trigger] w.markers[j]).page_id by {
            if j < n {
                assert(v.markers[i].page_id != v.markers[j].page_id);
            } else {
                assert(v.markers[i].page_id != page_id);
            }
        }
    }
    assert(w.guards_sound()) by {
        assert forall|i: int|
            0 <= i < w.markers.len() && (#[trigger] w.markers[i]).phase is Flushing
            implies w.victim_guarded(i) by {
            let u = w.markers[i].phase->victim;
            assert(v.markers[i].phase == (Phase::Flushing { victim: u }));
            assert(v.catalog.contains_key(u));
        }
        assert forall|i: int, j: int|
            0 <= i < j < w.markers.len() && (#[trigger] w.markers[i]).phase
                != Phase::Loading implies w.markers[i].phase != (#[trigger] w.markers[j]).phase by {
            if j < n {
                assert(v.markers[i].phase != v.markers[j].phase);
            }
        }
    }
    assert(w.offsets_fit());
    assert(w.entries_filed());
}

/// The invariant does not depend on what the frames hold.
pub proof fn lemma_write_keeps_invariant(v: PoolView, frame_index: usize, content: Seq<u8>)
    requires
        v.inv(),
        frame_index < v.capacity(),
        content.len() == v.page_size(),
    ensures
        v.with_content(frame_index, content).inv(),
{
    reveal(PoolView::inv);
    let w = v.with_content(frame_index, content);
    assert forall|i: int|
        0 <= i < w.markers.len() && (#[trigger] w.markers[i]).phase is Flushing
        implies w.victim_guarded(i) by {
        let u = w.markers[i].phase->victim;
        assert(v.catalog.contains_key(u));
    }
}

/// The invariant does not depend on who waits for a transfer.
pub proof fn lemma_abandon_keeps_invariant(v: PoolView, i: int)
    requires
        v.inv(),
        0 <= i < v.markers.len(),
    ensures
        v.abandon(i).inv(),
        forall|p: u64| v.abandon(i).marked(p) == v.marked(p),
        forall|t: u64| v.abandon(i).awaits(t) == v.awaits(t),
{
    reveal(PoolView::inv);
    let w = v.abandon(i);
    assert forall|a: int| 0 <= a < w.markers.len() implies (#[trigger] w.markers[a]).page_id
        == v.markers[a].page_id && w.markers[a].token == v.markers[a].token
        && w.markers[a].frame_index == v.markers[a].frame_index && w.markers[a].phase
        == v.markers[a].phase && request_for(w.markers[a]) == request_for(v.markers[a]) by {}
    assert(w.aligned()) by {
        assert forall|a: int| 0 <= a < w.markers.len() implies w.engine.pending[a] == request_for(
            #[trigger] w.markers[a],
        ) by {
            assert(v.engine.pending[a] == request_for(v.markers[a]));
        }
    }
    assert(w.frames_bound()) by {
        assert forall|a: int|
            0 <= a < w.markers.len() && (#[trigger] w.markers[a]).phase
                == Phase::Loading implies w.markers[a].frame_index < w.capacity()
            && !w.frames.free.contains(w.markers[a].frame_index) by {
            assert(v.markers[a].phase == Phase::Loading);
        }
        assert forall|a: int, p: u64|
            0 <= a < w.markers.len() && (#[trigger] w.markers[a]).phase == Phase::Loading
                && w.catalog.contains_key(p) implies (#[trigger] w.catalog[p]).frame_index
            != w.markers[a].frame_index by {
            assert(v.markers[a].phase == Phase::Loading);
        }
        assert forall|a: int, b: int|
            0 <= a < b < w.markers.len() && (#[trigger] w.markers[a]).phase == Phase::Loading && (
            #[trigger] w.markers[b]).phase == Phase::Loading implies w.markers[a].frame_index
            != w.markers[b].frame_index by {
            assert(v.markers[a].frame_index != v.markers[b].frame_index);
        }
    }
    assert(w.markers_sound()) by {
        assert forall|a: int, b: int| 0 <= a < b < w.markers.len() implies (
        #[trigger] w.markers[a]).page_id != (#[trigger] w.markers[b]).page_id by {
            assert(v.markers[a].page_id != v.markers[b].page_id);
        }
        assert forall|a: int|
            0 <= a < w.markers.len() && w.catalog.contains_key(
                (#[trigger] w.markers[a]).page_id,
            ) implies w.markers[a].phase == (Phase::Flushing { victim: w.markers[a].page_id }) by {
            assert(v.catalog.contains_key(v.markers[a].page_id));
        }
    }
    assert(w.guards_sound()) by {
        assert forall|a: int|
            0 <= a < w.markers.len() && (#[trigger] w.markers[a]).phase is Flushing
            implies w.victim_guarded(a) by {
            assert(v.markers[a].phase is Flushing);
            assert(v.victim_guarded(a));
        }
        assert forall|a: int, b: int|
            0 <= a < b < w.markers.len() && (#[trigger] w.markers[a]).phase
                != Phase::Loading implies w.markers[a].phase != (#[trigger] w.markers[b]).phase by {
            assert(v.markers[a].phase != v.markers[b].phase);
        }
    }
    assert(w.offsets_fit()) by {
        assert forall|a: int| 0 <= a < w.markers.len() implies (#[trigger] w.markers[a]).page_id
            * w.page_size() <= u64::MAX by {
            assert(v.markers[a].page_id * v.page_size() <= u64::MAX);
        }
    }
    assert forall|p: u64| w.marked(p) == v.marked(p) by {
        if w.marked(p) {
            let a = choose|a: int|
                0 <= a < w.markers.len() && (#[trigger] w.markers[a]).page_id == p;
            assert(v.markers[a].page_id == p);
        }
        if v.marked(p) {
            let a = choose|a: int|
                0 <= a < v.markers.len() && (#[trigger] v.markers[a]).page_id == p;
            assert(w.markers[a].page_id == p);
        }
    }
    assert forall|t: u64| w.awaits(t) == v.awaits(t) by {
        if w.awaits(t) {
            let a = choose|a: int| 0 <= a < w.markers.len() && (#[trigger] w.markers[a]).token == t;
            assert(v.markers[a].token == t);
        }
        if v.awaits(t) {
            let a = choose|a: int| 0 <= a < v.markers.len() && (#[trigger] v.markers[a]).token == t;
            assert(w.markers[a].token == t);
        }
    }
}

/// A page that is not resident is held by nobody.
pub proof fn lemma_nonresident_is_unclaimed(v: PoolView, page_id: u64)
    requires
        v.inv(),
        !v.resident(page_id),
    ensures
        !v.writers.contains(page_id),
        v.guard(page_id) == 0,
{
    reveal(PoolView::inv);
    if v.writers.contains(page_id) {
        let j = choose|j: int| 0 <= j < v.writers.len() && v.writers[j] == page_id;
        assert(v.catalog.contains_key(v.writers[j]));
    }
    if v.flushing(page_id) {
        let i = choose|i: int|
            0 <= i < v.markers.len() && (#[trigger] v.markers[i]).phase == (Phase::Flushing {
                victim: page_id,
            });
        assert(v.victim_guarded(i));
    }
    if v.held.contains(page_id) {
        let h = choose|h: int| 0 <= h < v.held.len() && v.held[h] == page_id;
        assert(v.held_guarded(v.held[h]));
    }
}

/// The invariant survives an exclusive claim on a resident page that
/// nobody holds exclusively and that a caller pins.
pub proof fn lemma_claim_keeps_invariant(v: PoolView, page_id: u64)
    requires
        v.inv(),
        v.resident(page_id),
        !v.writers.contains(page_id),
        v.catalog[page_id].pin_count >= 1,
        v.guard(page_id) == 0,
    ensures
        v.claim(page_id, Mode::Exclusive).inv(),
{
    reveal(PoolView::inv);
    let w = v.claim(page_id, Mode::Exclusive);
    let n = v.writers.len() as int;
    assert(v.catalog.contains_key(page_id));
    assert forall|u: u64| w.writers.contains(u) implies v.writers.contains(u) || u == page_id by {
        let j = choose|j: int| 0 <= j < w.writers.len() && w.writers[j] == u;
        if j < n {
            assert(v.writers[j] == u);
        }
    }
    assert forall|i: int|
        0 <= i < w.markers.len() && (#[trigger] w.markers[i]).phase is Flushing
        implies w.victim_guarded(i) by {
        let u = w.markers[i].phase->victim;
        assert(v.victim_guarded(i));
        if u == page_id {
            assert(v.markers[i].phase == (Phase::Flushing { victim: page_id }));
            assert(v.flushing(page_id));
        }
    }
    assert forall|h: int| 0 <= h < w.held.len() implies w.held_guarded(#[trigger] w.held[h]) by {
        assert(v.held_guarded(v.held[h]));
        if v.held[h] == page_id {
            assert(v.held.contains(page_id));
        }
    }
    assert(w.writers_sound()) by {
        assert forall|a: int, b: int| 0 <= a < w.writers.len() && 0 <= b < w.writers.len() && a
            != b implies w.writers[a] != w.writers[b] by {
            if a < n && b < n {
                assert(v.writers[a] != v.writers[b]);
            } else if a < n {
                assert(v.writers.contains(v.writers[a]));
            } else if b < n {
                assert(v.writers.contains(v.writers[b]));
            }
        }
        assert forall|j: int| 0 <= j < w.writers.len() implies w.catalog.contains_key(
            #[trigger] w.writers[j],
        ) && w.catalog[w.writers[j]].pin_count >= 1 by {
            if j < n {
                assert(v.catalog.contains_key(v.writers[j]));
            }
        }
    }
}

/// The invariant survives the end of an exclusive hold; the page is then
/// held exclusively by nobody.
pub proof fn lemma_yield_keeps_invariant(v: PoolView, j: int)
    requires
        v.inv(),
        0 <= j < v.writers.len(),
    ensures
        v.writer_index(v.writers[j]) == j,
        v.yield_claim(v.writers[j], Mode::Exclusive).inv(),
        !v.yield_claim(v.writers[j], Mode::Exclusive).writers.contains(v.writers[j]),
{
    reveal(PoolView::inv);
    let page_id = v.writers[j];
    let w = v.yield_claim(page_id, Mode::Exclusive);
    assert forall|a: int| 0 <= a < w.writers.len() implies #[trigger] w.writers[a]
        == v.writers[if a < j {
        a
    } else {
        a + 1
    }] by {}
    assert forall|u: u64| w.writers.contains(u) implies v.writers.contains(u) && u != page_id by {
        let a = choose|a: int| 0 <= a < w.writers.len() && w.writers[a] == u;
        let a0 = if a < j { a } else { a + 1 };
        assert(v.writers[a0] == u);
    }
    assert forall|i: int|
        0 <= i < w.markers.len() && (#[trigger] w.markers[i]).phase is Flushing
        implies w.victim_guarded(i) by {
        assert(v.victim_guarded(i));
    }
    assert forall|h: int| 0 <= h < w.held.len() implies w.held_guarded(#[trigger] w.held[h]) by {
        assert(v.held_guarded(v.held[h]));
    }
    assert(w.writers_sound()) by {
        assert forall|a: int, b: int| 0 <= a < w.writers.len() && 0 <= b < w.writers.len() && a
            != b implies w.writers[a] != w.writers[b] by {
            let a0 = if a < j { a } else { a + 1 };
            let b0 = if b < j { b } else { b + 1 };
            assert(v.writers[a0] != v.writers[b0]);
        }
        assert forall|a: int| 0 <= a < w.writers.len() implies w.catalog.contains_key(
            #[trigger] w.writers[a],
        ) && w.catalog[w.writers[a]].pin_count >= 1 by {
            let a0 = if a < j { a } else { a + 1 };
            assert(v.catalog.contains_key(v.writers[a0]));
        }
    }
}

/// Replacing the entry of a resident page keeps the invariant as long as
/// the page stays in its frame, under its identifier, with a history
/// within bounds and with the pool's own pin, where it has one.
pub proof fn lemma_entry_update(v: PoolView, page_id: u64, entry: PageView)
    requires
        v.inv(),
        v.resident(page_id),
        entry.page_id == page_id,
        entry.frame_index == v.catalog[page_id].frame_index,
        entry.history.len() <= v.k,
        entry.pin_count >= v.guard(page_id),
        v.writers.contains(page_id) ==> entry.pin_count >= 1,
    ensures
        v.with_entry(page_id, entry).inv(),
        forall|p: u64| v.with_entry(page_id, entry).guard(p) == v.guard(p),
{
    reveal(PoolView::inv);
    let w = v.with_entry(page_id, entry);
    assert(w.catalog.dom() =~= v.catalog.dom());
    assert forall|i: int|
        0 <= i < w.markers.len() && (#[trigger] w.markers[i]).phase is Flushing
        implies w.victim_guarded(i) by {
        let victim = w.markers[i].phase->victim;
        assert(v.catalog.contains_key(victim));
        if victim == page_id {
            assert(v.flushing(page_id));
        }
    }
    assert forall|h: int| 0 <= h < w.held.len() implies w.held_guarded(#[trigger] w.held[h]) by {
        assert(v.catalog.contains_key(v.held[h]));
        if v.held[h] == page_id {
            assert(v.held.contains(page_id));
        }
    }
}

} // verus!
