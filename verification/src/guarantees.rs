//! What holds of the pool in every state that its operations can reach,
//! and across sequences of them. Each statement is over the pool's
//! mathematical value and the outcome relations of its operations.

use crate::buffer_pool::{Completed, FetchStep, Mode, PageHandle, Phase};
use crate::engine::{transfer_outcome, Completion};
use crate::error::PoolError;
use crate::frames::overwritten;
use crate::soundness::{
    lemma_abandon_keeps_invariant, lemma_claim_keeps_invariant, lemma_entry_update,
    lemma_evict_keeps_invariant, lemma_give_back_keeps_invariant, lemma_hold_keeps_invariant,
    lemma_install_keeps_invariant, lemma_marker_facts, lemma_resident_facts,
    lemma_residents_fit, lemma_restart_flush_keeps_invariant,
    lemma_settled_victim_is_unguarded, lemma_start_flush_keeps_invariant,
    lemma_start_load_keeps_invariant, lemma_unhold_keeps_invariant,
    lemma_without_marker_keeps_invariant, lemma_write_keeps_invariant,
    lemma_yield_keeps_invariant,
};
use crate::model::{
    asks_write_back, discard_outcome, fetch_outcome, mark_dirty_outcome, modify_outcome,
    read_outcome, release_outcome, request_for, retry_outcome, timeout_outcome, write_outcome,
    PoolView,
};
use crate::page::PageView;
use crate::policy::all_pinned;
use vstd::prelude::*;

verus! {

/// No frame is bound to two pages, and a bound frame is not free.
pub proof fn lemma_frames_are_exclusive(v: PoolView, p: u64, q: u64)
    requires
        v.inv(),
        v.resident(p),
        v.resident(q),
        p != q,
    ensures
        v.catalog[p].frame_index != v.catalog[q].frame_index,
        !v.frames.free.contains(v.catalog[p].frame_index),
        v.catalog[p].frame_index < v.capacity(),
{
    reveal(PoolView::inv);
    assert(v.catalog.contains_key(p) && v.catalog.contains_key(q));
}

/// A fetch leads from a sound pool to a sound pool.
pub proof fn lemma_fetch_keeps_invariant(
    pre: PoolView,
    page_id: u64,
    mode: Mode,
    now: u64,
    post: PoolView,
    step: Result<FetchStep, PoolError>,
)
    requires
        pre.inv(),
        fetch_outcome(pre, page_id, mode, now, post, step),
    ensures
        post.inv(),
{
    if pre.resident(page_id) {
        if pre.grantable(page_id, mode) && pre.catalog[page_id].pin_count < u32::MAX {
            lemma_resident_facts(pre, page_id);
            lemma_entry_update(pre, page_id, pre.touched(page_id, now));
            if mode == Mode::Exclusive {
                lemma_claim_keeps_invariant(
                    pre.with_entry(page_id, pre.touched(page_id, now)),
                    page_id,
                );
            }
        }
    } else if pre.marked(page_id) {
    } else if page_id * pre.page_size() > u64::MAX {
    } else if pre.has_free_frame() {
        if !pre.engine.saturated() {
            lemma_start_load_keeps_invariant(pre, page_id, mode);
        }
    } else if all_pinned(pre.catalog) {
    } else if pre.engine.saturated() {
    } else {
        let v = pre.victim();
        if pre.catalog[v].is_dirty {
            lemma_start_flush_keeps_invariant(pre, page_id, mode, v);
        } else {
            lemma_evict_keeps_invariant(pre, v);
            lemma_start_load_keeps_invariant(pre.evict(v), page_id, mode);
        }
    }
}

/// The completion of a write leads from a sound pool to a sound pool.
pub proof fn lemma_write_completion_keeps_invariant(
    pre: PoolView,
    token: u64,
    byte_count: usize,
    result: i32,
    post: PoolView,
    done: Result<Completed, PoolError>,
)
    requires
        pre.inv(),
        write_outcome(pre, token, byte_count, result, post, done),
    ensures
        post.inv(),
{
    let i = pre.token_index(token);
    let m = pre.markers[i];
    if pre.awaits(token) && m.phase != Phase::Loading {
        let v = m.phase->victim;
        let base = pre.without_marker(i);
        let report = Completion { request: request_for(m), byte_count, result };
        lemma_without_marker_keeps_invariant(pre, i);
        lemma_settled_victim_is_unguarded(pre, i, v);
        match transfer_outcome(report, pre.page_size()) {
            Err(_) => {
                lemma_hold_keeps_invariant(base, v);
            },
            Ok(_) => {
                lemma_resident_facts(base, v);
                lemma_entry_update(base, v, base.unpinned(v));
                if pre.catalog[v].pin_count == 1 {
                    let mid = base.with_entry(v, base.unpinned(v));
                    lemma_evict_keeps_invariant(mid, v);
                    assert(mid.catalog.remove(v) =~= base.catalog.remove(v));
                    assert(mid.evict(v) == base.evict(v));
                }
            },
        }
    }
}

/// The completion of a read leads from a sound pool to a sound pool.
pub proof fn lemma_read_completion_keeps_invariant(
    pre: PoolView,
    token: u64,
    result: i32,
    image: Seq<u8>,
    now: u64,
    post: PoolView,
    done: Result<Completed, PoolError>,
)
    requires
        pre.inv(),
        read_outcome(pre, token, result, image, now, post, done),
    ensures
        post.inv(),
{
    let i = pre.token_index(token);
    let m = pre.markers[i];
    if pre.awaits(token) && m.phase == Phase::Loading {
        let report = Completion {
            request: request_for(m),
            byte_count: image.len() as usize,
            result,
        };
        match transfer_outcome(report, pre.page_size()) {
            Err(_) => {
                lemma_give_back_keeps_invariant(pre, i);
            },
            Ok(_) => {
                let content = image.subrange(0, pre.page_size() as int);
                if m.claimed {
                    lemma_install_keeps_invariant(pre, i, content, now, 1);
                    if m.mode == Mode::Exclusive {
                        lemma_claim_keeps_invariant(
                            pre.without_marker(i).install(
                                m.page_id,
                                m.frame_index,
                                content,
                                now,
                                1,
                            ),
                            m.page_id,
                        );
                    }
                } else {
                    lemma_install_keeps_invariant(pre, i, content, now, 0);
                }
            },
        }
    }
}

/// A release leads from a sound pool to a sound pool.
pub proof fn lemma_release_keeps_invariant(
    pre: PoolView,
    handle: PageHandle,
    post: PoolView,
    done: Result<(), PoolError>,
)
    requires
        pre.inv(),
        release_outcome(pre, handle, post, done),
    ensures
        post.inv(),
{
    if pre.holds(handle) {
        lemma_resident_facts(pre, handle.page_id);
        if handle.mode == Mode::Exclusive {
            lemma_yield_keeps_invariant(pre, pre.writer_index(handle.page_id));
        }
        lemma_entry_update(
            pre.yield_claim(handle.page_id, handle.mode),
            handle.page_id,
            pre.unpinned(handle.page_id),
        );
    }
}

/// Marking a page dirty leads from a sound pool to a sound pool.
pub proof fn lemma_mark_dirty_keeps_invariant(
    pre: PoolView,
    handle: PageHandle,
    post: PoolView,
    done: Result<(), PoolError>,
)
    requires
        pre.inv(),
        mark_dirty_outcome(pre, handle, post, done),
    ensures
        post.inv(),
{
    if pre.holds(handle) {
        lemma_resident_facts(pre, handle.page_id);
        lemma_entry_update(pre, handle.page_id, pre.dirtied(handle.page_id));
    }
}

/// Writing into a page leads from a sound pool to a sound pool.
pub proof fn lemma_modify_keeps_invariant(
    pre: PoolView,
    handle: PageHandle,
    offset: int,
    data: Seq<u8>,
    post: PoolView,
    written: bool,
)
    requires
        pre.inv(),
        0 <= offset,
        modify_outcome(pre, handle, offset, data, post, written),
    ensures
        post.inv(),
{
    if written {
        lemma_resident_facts(pre, handle.page_id);
        let content = overwritten(pre.content(handle.page_id), offset, data);
        lemma_write_keeps_invariant(pre, handle.frame_index, content);
        lemma_entry_update(
            pre.with_content(handle.frame_index, content),
            handle.page_id,
            pre.dirtied(handle.page_id),
        );
    }
}

/// Discarding a page leads from a sound pool to a sound pool.
pub proof fn lemma_discard_keeps_invariant(
    pre: PoolView,
    page_id: u64,
    post: PoolView,
    done: Option<Completed>,
)
    requires
        pre.inv(),
        discard_outcome(pre, page_id, post, done),
    ensures
        post.inv(),
{
    if pre.held.contains(page_id) {
        let h = pre.held_index(page_id);
        let base = pre.unhold(h);
        lemma_unhold_keeps_invariant(pre, h);
        lemma_resident_facts(base, page_id);
        lemma_entry_update(base, page_id, base.dropped(page_id));
        if pre.catalog[page_id].pin_count == 1 {
            let mid = base.with_entry(page_id, base.dropped(page_id));
            lemma_evict_keeps_invariant(mid, page_id);
            assert(mid.catalog.remove(page_id) =~= base.catalog.remove(page_id));
            assert(mid.evict(page_id) == base.evict(page_id));
        }
    }
}

/// Asking for another write-back leads from a sound pool to a sound pool.
pub proof fn lemma_retry_keeps_invariant(
    pre: PoolView,
    page_id: u64,
    post: PoolView,
    step: Result<FetchStep, PoolError>,
)
    requires
        pre.inv(),
        retry_outcome(pre, page_id, post, step),
    ensures
        post.inv(),
{
    if pre.held.contains(page_id) && !pre.engine.saturated() {
        let h = pre.held_index(page_id);
        lemma_unhold_keeps_invariant(pre, h);
        lemma_restart_flush_keeps_invariant(pre.unhold(h), page_id);
    }
}

/// Giving up a wait leads from a sound pool to a sound pool, frees no
/// frame and removes no marker: the transfer can still be completed, and a
/// later fetch of the page still joins it.
pub proof fn lemma_timeout_leaves_the_transfer(pre: PoolView, token: u64, post: PoolView)
    requires
        pre.inv(),
        timeout_outcome(pre, token, post),
    ensures
        post.inv(),
        post.frames == pre.frames,
        post.catalog == pre.catalog,
        post.engine == pre.engine,
        post.markers.len() == pre.markers.len(),
        forall|t: u64| post.awaits(t) == pre.awaits(t),
        forall|p: u64| post.marked(p) == pre.marked(p),
{
    if pre.awaits(token) {
        lemma_abandon_keeps_invariant(pre, pre.token_index(token));
    }
}

/// Some operation of the pool leads from `pre` to `post`.
pub open spec fn one_call(pre: PoolView, post: PoolView) -> bool {
    ||| exists|page_id: u64, mode: Mode, now: u64, step: Result<FetchStep, PoolError>|
        fetch_outcome(pre, page_id, mode, now, post, step)
    ||| exists|handle: PageHandle, done: Result<(), PoolError>|
        release_outcome(pre, handle, post, done)
    ||| exists|handle: PageHandle, done: Result<(), PoolError>|
        mark_dirty_outcome(pre, handle, post, done)
    ||| exists|handle: PageHandle, offset: int, data: Seq<u8>, written: bool|
        0 <= offset && modify_outcome(pre, handle, offset, data, post, written)
    ||| exists|token: u64, byte_count: usize, result: i32, done: Result<Completed, PoolError>|
        write_outcome(pre, token, byte_count, result, post, done)
    ||| exists|
        token: u64,
        result: i32,
        image: Seq<u8>,
        now: u64,
        done: Result<Completed, PoolError>,
    | read_outcome(pre, token, result, image, now, post, done)
    ||| exists|page_id: u64, done: Option<Completed>| discard_outcome(pre, page_id, post, done)
    ||| exists|page_id: u64, step: Result<FetchStep, PoolError>|
        retry_outcome(pre, page_id, post, step)
    ||| exists|token: u64| timeout_outcome(pre, token, post)
}

/// `states` are the values of a pool over a sequence of operations that
/// starts from a sound pool, such as a new one.
pub open spec fn is_run(states: Seq<PoolView>) -> bool {
    &&& states.len() > 0
    &&& states[0].inv()
    &&& forall|i: int, j: int|
        0 <= i && j == i + 1 && j < states.len() ==> one_call(
            #[trigger] states[i],
            #[trigger] states[j],
        )
}

/// Any operation leads from a sound pool to a sound pool.
pub proof fn lemma_one_call_keeps_invariant(pre: PoolView, post: PoolView)
    requires
        pre.inv(),
        one_call(pre, post),
    ensures
        post.inv(),
{
    if exists|page_id: u64, mode: Mode, now: u64, step: Result<FetchStep, PoolError>|
        fetch_outcome(pre, page_id, mode, now, post, step) {
        let (page_id, mode, now, step) = choose|
            page_id: u64,
            mode: Mode,
            now: u64,
            step: Result<FetchStep, PoolError>,
        | fetch_outcome(pre, page_id, mode, now, post, step);
        lemma_fetch_keeps_invariant(pre, page_id, mode, now, post, step);
    } else if exists|handle: PageHandle, done: Result<(), PoolError>|
        release_outcome(pre, handle, post, done) {
        let (handle, done) = choose|handle: PageHandle, done: Result<(), PoolError>|
            release_outcome(pre, handle, post, done);
        lemma_release_keeps_invariant(pre, handle, post, done);
    } else if exists|handle: PageHandle, done: Result<(), PoolError>|
        mark_dirty_outcome(pre, handle, post, done) {
        let (handle, done) = choose|handle: PageHandle, done: Result<(), PoolError>|
            mark_dirty_outcome(pre, handle, post, done);
        lemma_mark_dirty_keeps_invariant(pre, handle, post, done);
    } else if exists|handle: PageHandle, offset: int, data: Seq<u8>, written: bool|
        0 <= offset && modify_outcome(pre, handle, offset, data, post, written) {
        let (handle, offset, data, written) = choose|
            handle: PageHandle,
            offset: int,
            data: Seq<u8>,
            written: bool,
        | 0 <= offset && modify_outcome(pre, handle, offset, data, post, written);
        lemma_modify_keeps_invariant(pre, handle, offset, data, post, written);
    } else if exists|token: u64, byte_count: usize, result: i32, done: Result<Completed, PoolError>|
        write_outcome(pre, token, byte_count, result, post, done) {
        let (token, byte_count, result, done) = choose|
            token: u64,
            byte_count: usize,
            result: i32,
            done: Result<Completed, PoolError>,
        | write_outcome(pre, token, byte_count, result, post, done);
        lemma_write_completion_keeps_invariant(pre, token, byte_count, result, post, done);
    } else if exists|
        token: u64,
        result: i32,
        image: Seq<u8>,
        now: u64,
        done: Result<Completed, PoolError>,
    | read_outcome(pre, token, result, image, now, post, done) {
        let (token, result, image, now, done) = choose|
            token: u64,
            result: i32,
            image: Seq<u8>,
            now: u64,
            done: Result<Completed, PoolError>,
        | read_outcome(pre, token, result, image, now, post, done);
        lemma_read_completion_keeps_invariant(pre, token, result, image, now, post, done);
    } else if exists|page_id: u64, done: Option<Completed>|
        discard_outcome(pre, page_id, post, done) {
        let (page_id, done) = choose|page_id: u64, done: Option<Completed>|
            discard_outcome(pre, page_id, post, done);
        lemma_discard_keeps_invariant(pre, page_id, post, done);
    } else if exists|page_id: u64, step: Result<FetchStep, PoolError>|
        retry_outcome(pre, page_id, post, step) {
        let (page_id, step) = choose|page_id: u64, step: Result<FetchStep, PoolError>|
            retry_outcome(pre, page_id, post, step);
        lemma_retry_keeps_invariant(pre, page_id, post, step);
    } else {
        let token = choose|token: u64| timeout_outcome(pre, token, post);
        lemma_timeout_leaves_the_transfer(pre, token, post);
    }
}

/// Over every sequence of operations, the pool stays sound: at every
/// point the resident pages are no more than the frames, and no frame is
/// bound to two of them.
pub proof fn lemma_every_run_is_sound(states: Seq<PoolView>, at: int)
    requires
        is_run(states),
        0 <= at < states.len(),
    ensures
        states[at].inv(),
        states[at].resident_count() <= states[at].capacity(),
        forall|p: u64, q: u64|
            states[at].resident(p) && states[at].resident(q) && p != q ==> (
            #[trigger] states[at].catalog[p]).frame_index != (
            #[trigger] states[at].catalog[q]).frame_index,
    decreases at,
{
    if at > 0 {
        lemma_every_run_is_sound(states, at - 1);
        assert(one_call(states[at - 1], states[at]));
        lemma_one_call_keeps_invariant(states[at - 1], states[at]);
    }
    lemma_residents_fit(states[at]);
    assert forall|p: u64, q: u64|
        states[at].resident(p) && states[at].resident(q) && p != q implies (
    #[trigger] states[at].catalog[p]).frame_index != (
    #[trigger] states[at].catalog[q]).frame_index by {
        lemma_frames_are_exclusive(states[at], p, q);
    }
}

/// A fetch never takes a pinned page out of the pool.
pub proof fn lemma_fetch_spares_pinned_pages(
    pre: PoolView,
    page_id: u64,
    mode: Mode,
    now: u64,
    post: PoolView,
    step: Result<FetchStep, PoolError>,
    pinned: u64,
)
    requires
        pre.inv(),
        fetch_outcome(pre, page_id, mode, now, post, step),
        pre.resident(pinned),
        pre.catalog[pinned].pin_count > 0,
    ensures
        post.resident(pinned),
        post.catalog[pinned].frame_index == pre.catalog[pinned].frame_index,
        post.catalog[pinned].pin_count >= pre.catalog[pinned].pin_count,
{
}

/// When every resident page is pinned and no frame is free, the fetch of a
/// page that is neither resident nor awaited reports exhaustion and
/// changes nothing.
pub proof fn lemma_all_pinned_is_exhaustion(
    pre: PoolView,
    page_id: u64,
    mode: Mode,
    now: u64,
    post: PoolView,
    step: Result<FetchStep, PoolError>,
)
    requires
        pre.inv(),
        fetch_outcome(pre, page_id, mode, now, post, step),
        !pre.resident(page_id),
        !pre.marked(page_id),
        page_id * pre.page_size() <= u64::MAX,
        !pre.has_free_frame(),
        all_pinned(pre.catalog),
    ensures
        post == pre,
        step matches Err(e) && e == PoolError::PoolExhausted,
{
}

/// The completion of a write never takes a page out of the pool that a
/// caller pins.
pub proof fn lemma_write_completion_spares_callers_pins(
    pre: PoolView,
    token: u64,
    byte_count: usize,
    result: i32,
    post: PoolView,
    done: Result<Completed, PoolError>,
    pinned: u64,
)
    requires
        pre.inv(),
        write_outcome(pre, token, byte_count, result, post, done),
        pre.resident(pinned),
        pre.catalog[pinned].pin_count > pre.guard(pinned),
    ensures
        post.resident(pinned),
        post.catalog[pinned].frame_index == pre.catalog[pinned].frame_index,
{
    let i = pre.token_index(token);
    let m = pre.markers[i];
    if pre.awaits(token) && m.phase != Phase::Loading {
        let v = m.phase->victim;
        assert(pre.markers[i].phase == (Phase::Flushing { victim: v }));
        if v == pinned {
            assert(pre.flushing(pinned));
        }
    }
}

/// A page that is written back before its frame is reused comes back with
/// the bytes it had: the image that a fetch hands out for the write-back
/// of its victim, delivered again by the read of that page, is the content
/// of the page once it is resident again.
pub proof fn lemma_written_back_bytes_return(
    before: PoolView,
    page_id: u64,
    mode: Mode,
    then: u64,
    flushing: PoolView,
    step: Result<FetchStep, PoolError>,
    victim: u64,
    image: Seq<u8>,
    loading: PoolView,
    token: u64,
    result: i32,
    now: u64,
    after: PoolView,
    handle: PageHandle,
)
    requires
        before.inv(),
        fetch_outcome(before, page_id, mode, then, flushing, step),
        asks_write_back(step, victim, image),
        loading.inv(),
        loading.page_size() == before.page_size(),
        read_outcome(
            loading,
            token,
            result,
            image,
            now,
            after,
            Ok::<Completed, PoolError>(Completed::Loaded(handle)),
        ),
        handle.page_id == victim,
    ensures
        after.resident(victim),
        after.content(victim) == before.content(victim),
{
    assert(victim == before.victim());
    assert(before.catalog.contains_key(victim));
    lemma_resident_facts(before, victim);
    assert(image == before.content(victim));
    assert(image.subrange(0, loading.page_size() as int) =~= image);
    lemma_marker_facts(loading, loading.token_index(token));
}

/// Two fetches of one non-resident page submit one transfer: once a fetch
/// has started a transfer, another fetch of the same page changes nothing
/// and is told to wait for that transfer.
pub proof fn lemma_second_fetch_waits(
    pre: PoolView,
    page_id: u64,
    first_mode: Mode,
    first_now: u64,
    mid: PoolView,
    first: Result<FetchStep, PoolError>,
    second_mode: Mode,
    second_now: u64,
    post: PoolView,
    second: Result<FetchStep, PoolError>,
)
    requires
        pre.inv(),
        fetch_outcome(pre, page_id, first_mode, first_now, mid, first),
        first matches Ok(started) && (started is Load || started is Flush),
        fetch_outcome(mid, page_id, second_mode, second_now, post, second),
    ensures
        post == mid,
        post.engine.next_token == pre.engine.next_token + 1,
        second matches Ok(FetchStep::Wait { token }) && token == pre.engine.next_token,
{
    lemma_fetch_keeps_invariant(pre, page_id, first_mode, first_now, mid, first);
    let n = pre.markers.len() as int;
    assert(!pre.resident(page_id));
    assert(!pre.marked(page_id));
    if !pre.has_free_frame() && !pre.catalog[pre.victim()].is_dirty {
        lemma_evict_keeps_invariant(pre, pre.victim());
    }
    assert(mid.markers.len() == n + 1);
    assert(mid.markers[n].page_id == page_id);
    assert(mid.markers[n].token == pre.engine.next_token);
    assert(!mid.resident(page_id));
    lemma_marker_facts(mid, n);
}

/// The fetch that waited finds the page: once the read that a shared
/// fetch had started has completed, a shared fetch of the page is answered
/// at once with a handle to the frame that the first caller's handle names.
pub proof fn lemma_waiter_finds_the_page(
    loading: PoolView,
    token: u64,
    result: i32,
    image: Seq<u8>,
    now: u64,
    loaded: PoolView,
    first: PageHandle,
    later: u64,
    post: PoolView,
    step: Result<FetchStep, PoolError>,
)
    requires
        loading.inv(),
        read_outcome(
            loading,
            token,
            result,
            image,
            now,
            loaded,
            Ok::<Completed, PoolError>(Completed::Loaded(first)),
        ),
        first.mode == Mode::Shared,
        fetch_outcome(loaded, first.page_id, Mode::Shared, later, post, step),
    ensures
        step matches Ok(FetchStep::Ready(second)) && second.page_id == first.page_id
            && second.frame_index == first.frame_index && post.holds(first) && post.holds(second),
{
    let i = loading.token_index(token);
    lemma_marker_facts(loading, i);
    lemma_read_completion_keeps_invariant(
        loading,
        token,
        result,
        image,
        now,
        loaded,
        Ok::<Completed, PoolError>(Completed::Loaded(first)),
    );
    lemma_install_keeps_invariant(
        loading,
        i,
        image.subrange(0, loading.page_size() as int),
        now,
        1,
    );
    lemma_resident_facts(loaded, first.page_id);
}

/// Releasing twice what was pinned once is refused the second time: the
/// pin count does not go below the pins that callers hold.
pub proof fn lemma_second_release_is_refused(
    pre: PoolView,
    handle: PageHandle,
    mid: PoolView,
    first: Result<(), PoolError>,
    post: PoolView,
    second: Result<(), PoolError>,
)
    requires
        pre.inv(),
        pre.holds(handle),
        pre.catalog[handle.page_id].pin_count == pre.guard(handle.page_id) + 1,
        release_outcome(pre, handle, mid, first),
        release_outcome(mid, handle, post, second),
    ensures
        first is Ok,
        second == Err::<(), PoolError>(PoolError::UnbalancedPin),
        post == mid,
        post.catalog[handle.page_id].pin_count == pre.guard(handle.page_id),
{
    assert(mid.guard(handle.page_id) == pre.guard(handle.page_id));
}

/// While a caller holds a page exclusively, every fetch of the page is
/// told that the page is busy and changes nothing.
pub proof fn lemma_exclusive_holder_excludes(
    pre: PoolView,
    page_id: u64,
    mode: Mode,
    now: u64,
    post: PoolView,
    step: Result<FetchStep, PoolError>,
)
    requires
        pre.inv(),
        pre.writers.contains(page_id),
        fetch_outcome(pre, page_id, mode, now, post, step),
    ensures
        post == pre,
        step matches Ok(answer) && answer is Busy,
{
    reveal(PoolView::inv);
    let j = choose|j: int| 0 <= j < pre.writers.len() && pre.writers[j] == page_id;
    assert(pre.catalog.contains_key(pre.writers[j]));
}

/// A page with an outstanding write-back, or on hold after a failed one,
/// is held exclusively by nobody, and nothing is written into it: what is
/// written back is what the page holds when the write-back completes.
pub proof fn lemma_nothing_changes_during_write_back(
    pre: PoolView,
    handle: PageHandle,
    offset: int,
    data: Seq<u8>,
    post: PoolView,
    written: bool,
)
    requires
        pre.inv(),
        pre.resident(handle.page_id),
        pre.guard(handle.page_id) == 1,
        modify_outcome(pre, handle, offset, data, post, written),
    ensures
        !pre.writers.contains(handle.page_id),
        !written,
        post == pre,
{
    lemma_resident_facts(pre, handle.page_id);
}

/// Only one transfer is outstanding on any page: no two requests that the
/// engine holds name the same page.
pub proof fn lemma_one_transfer_per_page(v: PoolView, i: int, j: int)
    requires
        v.inv(),
        0 <= i < j < v.engine.pending.len(),
    ensures
        v.engine.pending[i].page_id != v.engine.pending[j].page_id,
{
    reveal(PoolView::inv);
    let a = v.markers[i];
    let b = v.markers[j];
    assert(v.engine.pending[i] == request_for(a));
    assert(v.engine.pending[j] == request_for(b));
    assert(a.page_id != b.page_id);
    if a.phase is Flushing {
        assert(v.victim_guarded(i));
        assert(a.phase != b.phase);
    }
    if b.phase is Flushing {
        assert(v.victim_guarded(j));
    }
}

/// While a page is written back, it stays resident in the frame that is
/// written, and that frame is not free: no frame is reused before the
/// write-back of its page has completed.
pub proof fn lemma_frame_is_kept_during_write_back(v: PoolView, i: int)
    requires
        v.inv(),
        0 <= i < v.markers.len(),
        v.markers[i].phase is Flushing,
    ensures
        v.resident(v.markers[i].phase->victim),
        v.catalog[v.markers[i].phase->victim].frame_index == v.markers[i].frame_index,
        v.catalog[v.markers[i].phase->victim].pin_count >= 1,
        !v.frames.free.contains(v.markers[i].frame_index),
{
    reveal(PoolView::inv);
    assert(v.victim_guarded(i));
    assert(v.catalog.contains_key(v.markers[i].phase->victim));
}

/// A write-back that fails discards nothing: its page stays resident, in
/// its frame, with its content and its dirty flag, pinned by the pool and
/// on hold.
pub proof fn lemma_failed_write_back_keeps_the_page(
    pre: PoolView,
    token: u64,
    byte_count: usize,
    result: i32,
    post: PoolView,
    error: PoolError,
)
    requires
        pre.inv(),
        write_outcome(pre, token, byte_count, result, post, Err::<Completed, PoolError>(error)),
        error != PoolError::UnknownToken,
    ensures
        error matches PoolError::IoFailure { page_id, .. } && post.resident(page_id)
            && post.held.contains(page_id) && post.guard(page_id) == 1 && post.catalog[page_id]
            == pre.catalog[page_id] && post.content(page_id) == pre.content(page_id)
            && post.frames == pre.frames,
{
    let i = pre.token_index(token);
    let m = pre.markers[i];
    let v = m.phase->victim;
    lemma_marker_facts(pre, i);
    lemma_settled_victim_is_unguarded(pre, i, v);
    assert(post.held[pre.held.len() as int] == v);
}

/// A fetch makes no page resident by itself: a page becomes resident only
/// when its read has completed.
pub proof fn lemma_fetch_installs_nothing(
    pre: PoolView,
    page_id: u64,
    mode: Mode,
    now: u64,
    post: PoolView,
    step: Result<FetchStep, PoolError>,
    other: u64,
)
    requires
        pre.inv(),
        fetch_outcome(pre, page_id, mode, now, post, step),
        post.resident(other),
    ensures
        pre.resident(other),
{
}

/// The completion of a read makes at most the page of that read resident,
/// and a failed read makes none.
pub proof fn lemma_read_installs_its_page_only(
    pre: PoolView,
    token: u64,
    result: i32,
    image: Seq<u8>,
    now: u64,
    post: PoolView,
    done: Result<Completed, PoolError>,
    other: u64,
)
    requires
        pre.inv(),
        read_outcome(pre, token, result, image, now, post, done),
        post.resident(other),
        !pre.resident(other),
    ensures
        done is Ok,
        pre.awaits(token),
        other == pre.markers[pre.token_index(token)].page_id,
{
}

/// While any caller holds a page, an exclusive fetch of it is told that
/// the page is busy and changes nothing.
pub proof fn lemma_holders_exclude_exclusive_use(
    pre: PoolView,
    handle: PageHandle,
    now: u64,
    post: PoolView,
    step: Result<FetchStep, PoolError>,
)
    requires
        pre.inv(),
        pre.holds(handle),
        fetch_outcome(pre, handle.page_id, Mode::Exclusive, now, post, step),
    ensures
        post == pre,
        step matches Ok(answer) && answer is Busy,
{
}

/// The caller that is granted a page exclusively is its only holder: the
/// page then carries one pin, the caller's, and none of the pool.
pub proof fn lemma_exclusive_grant_is_alone(
    pre: PoolView,
    page_id: u64,
    now: u64,
    post: PoolView,
    handle: PageHandle,
)
    requires
        pre.inv(),
        fetch_outcome(
            pre,
            page_id,
            Mode::Exclusive,
            now,
            post,
            Ok::<FetchStep, PoolError>(FetchStep::Ready(handle)),
        ),
    ensures
        post.holds(handle),
        post.writers.contains(page_id),
        post.catalog[page_id].pin_count == 1,
        post.guard(page_id) == 0,
{
    lemma_resident_facts(pre, page_id);
    let mid = pre.with_entry(page_id, pre.touched(page_id, now));
    assert(post.writers == mid.writers.push(page_id));
    assert(post.writers[mid.writers.len() as int] == page_id);
}

} // verus!
