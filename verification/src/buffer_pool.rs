//! The coordinator: fetch, eviction and flush as a protocol over the
//! catalog, the frame store and the I/O engine.
//!
//! The pool never touches a device. A fetch that needs a transfer returns
//! a step that names it; the caller performs the transfer and reports its
//! completion, and the pool decides what follows.

use crate::catalog::Catalog;
use crate::engine::{
    lemma_token_is_pending_once, lemma_token_is_ready_once, Completion, IoEngine, IoOp, Request,
    Waited,
};
use crate::error::{IoCause, PoolError};
use crate::frames::{all_free, overwritten, zeroed, FrameStore};
use crate::soundness::{
    lemma_abandon_keeps_invariant, lemma_claim_keeps_invariant, lemma_entry_update,
    lemma_evict_keeps_invariant, lemma_give_back_keeps_invariant, lemma_held_index,
    lemma_hold_keeps_invariant, lemma_install_keeps_invariant, lemma_marker_facts,
    lemma_resident_facts, lemma_restart_flush_keeps_invariant, lemma_residents_fit,
    lemma_settled_victim_is_unguarded, lemma_start_flush_keeps_invariant,
    lemma_start_load_keeps_invariant, lemma_token_names_one_marker,
    lemma_unhold_keeps_invariant, lemma_without_marker_keeps_invariant,
    lemma_write_keeps_invariant, lemma_yield_keeps_invariant,
};
use crate::model::{
    discard_outcome, fetch_outcome, loads, mark_dirty_outcome, modify_outcome, read_outcome,
    release_outcome, request_for, retry_outcome, timeout_outcome, write_outcome, PoolView,
};
use crate::page::{Page, PageView};
use crate::payload::{bytes_of, image_len, image_of, into_vec};
use crate::policy::{all_pinned, lemma_victim_is_unique};
use bytes::Bytes;
use vstd::prelude::*;

verus! {

/// How a caller means to use a page.
#[derive(Debug, Clone, Copy, PartialEq, Eq)]
pub enum Mode {
    /// Read-only; any number of shared holders may coexist.
    Shared,
    /// Read and write; nobody else holds the page meanwhile, and the page
    /// is not being written back.
    Exclusive,
}

/// A pin on a resident page, handed to the caller of a fetch.
#[derive(Debug, Clone, Copy, PartialEq, Eq)]
pub struct PageHandle {
    pub page_id: u64,
    pub frame_index: usize,
    pub mode: Mode,
}

/// What the outstanding transfer of a marker does.
#[derive(Debug, Clone, Copy, PartialEq, Eq)]
pub enum Phase {
    /// The frame of `victim` is being written back to make room.
    Flushing { victim: u64 },
    /// The page is being read into its frame.
    Loading,
}

/// Record of the one transfer that is outstanding on behalf of a page.
#[derive(Debug, Clone, Copy, PartialEq, Eq)]
pub struct Marker {
    /// The page whose fetch owns the transfer.
    pub page_id: u64,
    /// Token of the transfer.
    pub token: u64,
    /// The frame that the transfer reads into or writes from.
    pub frame_index: usize,
    /// Mode of the fetch that started the transfer.
    pub mode: Mode,
    /// Whether the fetch that started the transfer still waits for it.
    pub claimed: bool,
    pub phase: Phase,
}

/// What the caller of a fetch has to do next.
#[derive(Debug, PartialEq, Eq)]
pub enum FetchStep {
    /// The page is resident and pinned.
    Ready(PageHandle),
    /// A transfer for this page is outstanding: suspend until `token`
    /// completes, then fetch again.
    Wait { token: u64 },
    /// The page is resident, but a holder excludes the requested use:
    /// suspend until a handle to the page is released, then fetch again.
    Busy,
    /// Read `len` bytes at `offset` of the store, report the completion of
    /// `token` with them, and the page is resident.
    /// `evicted` names the clean page that left to make room, if one did.
    Load {
        token: u64,
        page_id: u64,
        frame_index: usize,
        offset: u64,
        len: usize,
        evicted: Option<u64>,
    },
    /// Write `data` at `offset` of the store and report the completion of
    /// `token`; then fetch again.
    Flush { token: u64, victim: u64, frame_index: usize, offset: u64, data: Bytes },
}

/// What the completion of a transfer led to.
#[derive(Debug, Clone, Copy, PartialEq, Eq)]
pub enum Completed {
    /// The page is resident; the handle is the pin of the fetch that started the read.
    Loaded(PageHandle),
    /// The victim has been written back and has left the pool.
    Evicted { page_id: u64 },
    /// The page keeps its frame because callers pin it.
    Kept { page_id: u64 },
    /// The page is resident and unpinned: the fetch that started the read
    /// had given up waiting.
    Unclaimed { page_id: u64 },
}

/// A fixed set of frames in front of a block store, with the catalog of
/// the pages that they hold and the transfers that are under way.
pub struct BufferPool {
    catalog: Catalog,
    frames: FrameStore,
    engine: IoEngine,
    markers: Vec<Marker>,
    held: Vec<u64>,
    writers: Vec<u64>,
}

impl View for BufferPool {
    type V = PoolView;

    closed spec fn view(&self) -> PoolView {
        PoolView {
            k: self.catalog.history_depth(),
            catalog: self.catalog@,
            frames: self.frames@,
            engine: self.engine@,
            markers: self.markers@,
            held: self.held@,
            writers: self.writers@,
        }
    }
}

impl BufferPool {
    /// The components are well formed and the protocol's invariant holds.
    pub closed spec fn wf(&self) -> bool {
        &&& self.catalog.wf()
        &&& self.frames.wf()
        &&& self.engine.wf()
        &&& self@.inv()
    }

    /// A pool of `capacity` zero-filled frames of `page_size` bytes with no
    /// resident page, LRU-K history depth `k_value` and room for
    /// `queue_depth` outstanding transfers. A history depth of zero is refused.
    pub fn new(capacity: usize, page_size: usize, k_value: usize, queue_depth: usize) -> (made:
        Option<BufferPool>)
        ensures
            made.is_some() == (k_value >= 1),
            made.is_some() ==> {
                let pool = made.unwrap();
                &&& pool.wf()
                &&& pool@.k == k_value
                &&& pool@.capacity() == capacity
                &&& pool@.page_size() == page_size
                &&& pool@.engine.depth == queue_depth
                &&& pool@.catalog == Map::<u64, PageView>::empty()
                &&& pool@.frames.frames == Seq::new(
                    capacity as nat,
                    |i: int| zeroed(page_size as nat),
                )
                &&& pool@.frames.free == all_free(capacity as nat)
                &&& pool@.engine.next_token == 0
                &&& pool@.engine.in_flight() == 0
                &&& pool@.markers.len() == 0
                &&& pool@.held.len() == 0
                &&& pool@.writers.len() == 0
            },
    {
        match Catalog::new(k_value) {
            None => None,
            Some(catalog) => {
                let pool = BufferPool {
                    catalog,
                    frames: FrameStore::new(capacity, page_size),
                    engine: IoEngine::new(queue_depth),
                    markers: Vec::new(),
                    held: Vec::new(),
                    writers: Vec::new(),
                };
                proof {
                    assert(pool@.inv()) by {
                        reveal(PoolView::inv);
                    }
                }
                Some(pool)
            },
        }
    }

    /// Number of frames.
    pub fn capacity(&self) -> (n: usize)
        ensures
            n == self@.capacity(),
    {
        self.frames.capacity()
    }

    /// Size of a page in bytes.
    pub fn page_size(&self) -> (n: usize)
        ensures
            n == self@.page_size(),
    {
        self.frames.page_size()
    }

    /// Number of resident pages; never more than there are frames.
    pub fn resident_count(&self) -> (n: usize)
        requires
            self.wf(),
        ensures
            n == self@.resident_count(),
            n <= self@.capacity(),
    {
        proof {
            lemma_residents_fit(self@);
        }
        self.catalog.len()
    }

    /// Number of frames that no page is bound to and no read has reserved.
    pub fn free_frames(&self) -> (n: usize)
        ensures
            n == self@.frames.free.len(),
    {
        self.frames.free_count()
    }

    /// Number of transfers that are outstanding.
    pub fn in_flight(&self) -> (n: usize)
        ensures
            n == self@.markers.len(),
    {
        self.markers.len()
    }

    /// A copy of the catalog's entry of `page_id`, if the page is resident.
    pub fn entry(&self, page_id: u64) -> (found: Option<Page>)
        ensures
            found.is_some() == self@.resident(page_id),
            found.is_some() ==> found.unwrap()@ == self@.catalog[page_id],
    {
        self.catalog.lookup(page_id)
    }

    /// Whether `page_id` is resident.
    pub fn is_resident(&self, page_id: u64) -> (resident: bool)
        ensures
            resident == self@.resident(page_id),
    {
        self.catalog.contains(page_id)
    }

    /// What a well-formed pool's value satisfies.
    pub proof fn lemma_invariant(&self)
        requires
            self.wf(),
        ensures
            self@.inv(),
    {
    }

    /// Index of the marker of `page_id`.
    fn find_marker(&self, page_id: u64) -> (at: Option<usize>)
        ensures
            at.is_some() == self@.marked(page_id),
            at.is_some() ==> at.unwrap() < self@.markers.len()
                && self@.markers[at.unwrap() as int].page_id == page_id,
    {
        let mut i: usize = 0;
        while i < self.markers.len()
            invariant
                i <= self.markers@.len(),
                forall|j: int| 0 <= j < i ==> (#[trigger] self.markers@[j]).page_id != page_id,
            decreases self.markers.len() - i,
        {
            if self.markers[i].page_id == page_id {
                return Some(i);
            }
            i = i + 1;
        }
        None
    }

    /// Index of the marker whose transfer carries `token`.
    fn find_token(&self, token: u64) -> (at: Option<usize>)
        ensures
            at.is_some() == (exists|i: int|
                0 <= i < self@.markers.len() && (#[trigger] self@.markers[i]).token == token),
            at.is_some() ==> at.unwrap() < self@.markers.len()
                && self@.markers[at.unwrap() as int].token == token,
    {
        let mut i: usize = 0;
        while i < self.markers.len()
            invariant
                i <= self.markers@.len(),
                forall|j: int| 0 <= j < i ==> (#[trigger] self.markers@[j]).token != token,
            decreases self.markers.len() - i,
        {
            if self.markers[i].token == token {
                return Some(i);
            }
            i = i + 1;
        }
        None
    }

    /// Whether `page_id` is being written back.
    fn is_flushing(&self, page_id: u64) -> (flushing: bool)
        ensures
            flushing == self@.flushing(page_id),
    {
        let mut i: usize = 0;
        while i < self.markers.len()
            invariant
                i <= self.markers@.len(),
                forall|j: int|
                    0 <= j < i ==> (#[trigger] self.markers@[j]).phase != (Phase::Flushing {
                        victim: page_id,
                    }),
            decreases self.markers.len() - i,
        {
            match self.markers[i].phase {
                Phase::Flushing { victim } => {
                    if victim == page_id {
                        return true;
                    }
                },
                Phase::Loading => {},
            }
            i = i + 1;
        }
        false
    }

    /// Index of `page_id` in the list of pages whose write-back failed.
    fn find_held(&self, page_id: u64) -> (at: Option<usize>)
        ensures
            at.is_some() == self@.held.contains(page_id),
            at.is_some() ==> at.unwrap() < self@.held.len() && self@.held[at.unwrap() as int]
                == page_id,
    {
        let mut i: usize = 0;
        while i < self.held.len()
            invariant
                i <= self.held@.len(),
                forall|j: int| 0 <= j < i ==> #[trigger] self.held@[j] != page_id,
            decreases self.held.len() - i,
        {
            if self.held[i] == page_id {
                return Some(i);
            }
            i = i + 1;
        }
        None
    }

    /// Queues the read of a page that is neither resident nor marked.
    fn begin_load(&mut self, page_id: u64, mode: Mode, gone: Option<u64>) -> (step: Result<
        FetchStep,
        PoolError,
    >)
        requires
            old(self).wf(),
            !old(self)@.resident(page_id),
            !old(self)@.marked(page_id),
            page_id * old(self)@.page_size() <= u64::MAX,
            old(self)@.has_free_frame(),
            !old(self)@.engine.saturated(),
        ensures
            final(self).wf(),
            loads(old(self)@, page_id, mode, gone, final(self)@, step),
    {
        let len: usize = self.frames.page_size();
        let offset: u64 = page_id * (len as u64);
        let frame_index: usize = match self.frames.acquire_frame() {
            Ok(frame_index) => frame_index,
            Err(_) => 0,
        };
        let token: u64 = match self.engine.submit_read(page_id, frame_index) {
            Ok(token) => token,
            Err(_) => 0,
        };
        self.markers.push(
            Marker { page_id, token, frame_index, mode, claimed: true, phase: Phase::Loading },
        );
        proof {
            assert(self@ =~= old(self)@.start_load(page_id, mode));
            lemma_start_load_keeps_invariant(old(self)@, page_id, mode);
        }
        Ok(FetchStep::Load { token, page_id, frame_index, offset, len, evicted: gone })
    }

    /// Takes an unpinned page out of the catalog and frees its frame.
    fn evict_now(&mut self, v: u64)
        requires
            old(self).wf(),
            old(self)@.resident(v),
            old(self)@.catalog[v].pin_count == 0,
        ensures
            final(self).wf(),
            final(self)@ == old(self)@.evict(v),
    {
        let frame_index: usize = match self.catalog.remove(v) {
            Ok(frame_index) => frame_index,
            Err(_) => 0,
        };
        let ghost pre = old(self)@;
        proof {
            lemma_resident_facts(pre, v);
        }
        let _ = self.frames.release_frame(frame_index);
        proof {
            assert(self@ =~= pre.evict(v));
            lemma_evict_keeps_invariant(pre, v);
        }
    }

    /// Queues the write-back of the unpinned page `v` on behalf of a fetch
    /// of `page_id` and puts the pool's pin on `v`.
    fn begin_flush(&mut self, page_id: u64, mode: Mode, v: u64) -> (step: Result<
        FetchStep,
        PoolError,
    >)
        requires
            old(self).wf(),
            !old(self)@.resident(page_id),
            !old(self)@.marked(page_id),
            page_id * old(self)@.page_size() <= u64::MAX,
            old(self)@.resident(v),
            old(self)@.catalog[v].pin_count == 0,
            !old(self)@.engine.saturated(),
        ensures
            final(self).wf(),
            final(self)@ == old(self)@.start_flush(page_id, mode, v),
            step matches Ok(FetchStep::Flush { token, victim, frame_index, offset, data })
                && token == old(self)@.engine.next_token && victim == v && frame_index == old(
                self,
            )@.catalog[v].frame_index && offset == v * old(self)@.page_size() && bytes_of(data)
                == old(self)@.content(v),
    {
        let ghost pre = old(self)@;
        proof {
            lemma_resident_facts(pre, v);
        }
        let len: usize = self.frames.page_size();
        let offset: u64 = v * (len as u64);
        let frame_index: usize = match self.catalog.lookup(v) {
            Some(entry) => entry.frame_index,
            None => 0,
        };
        let token: u64 = match self.engine.submit_write(v, frame_index) {
            Ok(token) => token,
            Err(_) => 0,
        };
        let _ = self.catalog.pin(v);
        self.markers.push(
            Marker {
                page_id,
                token,
                frame_index,
                mode,
                claimed: true,
                phase: Phase::Flushing { victim: v },
            },
        );
        let data = image_of(self.frames.frame(frame_index));
        proof {
            assert(self@ =~= pre.start_flush(page_id, mode, v));
            lemma_start_flush_keeps_invariant(pre, page_id, mode, v);
        }
        Ok(FetchStep::Flush { token, victim: v, frame_index, offset, data })
    }

    /// Fetches `page_id` for use in `mode` at time `now`: one step of the
    /// fetch protocol, as [`fetch_outcome`] describes it.
    pub fn get_page(&mut self, page_id: u64, mode: Mode, now: u64) -> (step: Result<
        FetchStep,
        PoolError,
    >)
        requires
            old(self).wf(),
        ensures
            final(self).wf(),
            fetch_outcome(old(self)@, page_id, mode, now, final(self)@, step),
    {
        let ghost pre = old(self)@;
        match self.catalog.lookup(page_id) {
            Some(entry) => {
                let exclusive: bool = match mode {
                    Mode::Exclusive => true,
                    Mode::Shared => false,
                };
                if self.find_writer(page_id).is_some() || (exclusive && entry.pin_count > 0) {
                    return Ok(FetchStep::Busy);
                }
                if entry.pin_count == u32::MAX {
                    return Err(PoolError::PinLimit);
                }
                let _ = self.catalog.record_access(page_id, now);
                let _ = self.catalog.pin(page_id);
                let ghost mid = pre.with_entry(page_id, pre.touched(page_id, now));
                proof {
                    assert(self@.catalog =~= pre.catalog.insert(
                        page_id,
                        pre.touched(page_id, now),
                    ));
                    assert(self@ =~= mid);
                    lemma_resident_facts(pre, page_id);
                    lemma_entry_update(pre, page_id, pre.touched(page_id, now));
                }
                if exclusive {
                    self.writers.push(page_id);
                    proof {
                        assert(self@ =~= mid.claim(page_id, mode));
                        lemma_claim_keeps_invariant(mid, page_id);
                    }
                }
                return Ok(
                    FetchStep::Ready(
                        PageHandle { page_id, frame_index: entry.frame_index, mode },
                    ),
                );
            },
            None => {},
        }
        match self.find_marker(page_id) {
            Some(i) => {
                proof {
                    lemma_marker_facts(pre, i as int);
                }
                return Ok(FetchStep::Wait { token: self.markers[i].token });
            },
            None => {},
        }
        let len: usize = self.frames.page_size();
        if page_id.checked_mul(len as u64).is_none() {
            return Err(PoolError::IoFailure { page_id, cause: IoCause::OffsetOverflow });
        }
        if self.frames.free_count() > 0 {
            if self.engine.is_saturated() {
                return Err(PoolError::QueueSaturated);
            }
            return self.begin_load(page_id, mode, None);
        }
        match self.catalog.select_victim() {
            None => Err(PoolError::PoolExhausted),
            Some(v) => {
                proof {
                    assert(pre.catalog.contains_key(v));
                    assert(!all_pinned(pre.catalog));
                    lemma_resident_facts(pre, v);
                    lemma_resident_facts(pre, pre.victim());
                    lemma_victim_is_unique(pre.catalog, pre.k, v, pre.victim());
                }
                if self.engine.is_saturated() {
                    return Err(PoolError::QueueSaturated);
                }
                let dirty: bool = match self.catalog.lookup(v) {
                    Some(entry) => entry.is_dirty,
                    None => false,
                };
                if dirty {
                    self.begin_flush(page_id, mode, v)
                } else {
                    self.evict_now(v);
                    proof {
                        assert(pre.frames.free.push(pre.catalog[v].frame_index).len() > 0);
                    }
                    self.begin_load(page_id, mode, Some(v))
                }
            },
        }
    }

    /// Files the device's report for the transfer of the marker at `i`,
    /// takes the completion back from the engine and drops the marker.
    fn settle(&mut self, i: usize, byte_count: usize, result: i32) -> (report: Completion)
        requires
            old(self).wf(),
            i < old(self)@.markers.len(),
        ensures
            final(self).wf(),
            final(self)@ == old(self)@.without_marker(i as int),
            report == (Completion {
                request: request_for(old(self)@.markers[i as int]),
                byte_count,
                result,
            }),
    {
        let ghost pre = old(self)@;
        let marker: Marker = self.markers.remove(i);
        let token: u64 = marker.token;
        proof {
            lemma_marker_facts(pre, i as int);
            assert(pre.engine.pending[i as int].token == token);
        }
        proof {
            lemma_token_is_pending_once(pre.engine, token, i as int);
        }
        let _ = self.engine.complete(token, byte_count, result);
        let ghost mid = self.engine@;
        proof {
            assert(mid.ready =~= seq![
                Completion { request: request_for(pre.markers[i as int]), byte_count, result },
            ]);
            lemma_token_is_ready_once(mid, token, 0);
        }
        let waited = self.engine.wait_for(token);
        let report: Completion = match waited {
            Waited::Ready(report) => report,
            _ => Completion { request: request_for_marker(marker), byte_count, result },
        };
        proof {
            assert(waited is Ready);
            assert(mid.ready_index(token) == 0);
            assert(self.engine@ == mid.taken(0));
            assert(self.engine@.ready =~= pre.engine.ready);
            assert(self@.markers =~= pre.markers.remove(i as int));
            assert(self@.engine.pending =~= pre.engine.pending.remove(i as int));
            assert(self@.engine.depth == pre.engine.depth);
            assert(self@.engine.next_token == pre.engine.next_token);
            assert(self@ =~= pre.without_marker(i as int));
            lemma_without_marker_keeps_invariant(pre, i as int);
        }
        report
    }

    /// Acts on the outcome of the write-back of `v`, whose marker is gone.
    fn after_write(&mut self, v: u64, outcome: Result<(), PoolError>) -> (done: Result<
        Completed,
        PoolError,
    >)
        requires
            old(self).wf(),
            old(self)@.resident(v),
            old(self)@.catalog[v].pin_count >= 1,
            old(self)@.guard(v) == 0,
            !old(self)@.writers.contains(v),
        ensures
            final(self).wf(),
            match outcome {
                Err(e) => final(self)@ == old(self)@.hold(v) && done == Err::<
                    Completed,
                    PoolError,
                >(e),
                Ok(_) => if old(self)@.catalog[v].pin_count == 1 {
                    final(self)@ == old(self)@.evict(v) && done == Ok::<Completed, PoolError>(
                        Completed::Evicted { page_id: v },
                    )
                } else {
                    final(self)@ == old(self)@.with_entry(v, old(self)@.unpinned(v)) && done
                        == Ok::<Completed, PoolError>(Completed::Kept { page_id: v })
                },
            },
    {
        match outcome {
            Err(e) => {
                self.put_on_hold(v);
                Err(e)
            },
            Ok(_) => {
                let left: bool = self.drop_pin(v);
                if left {
                    let ghost base = old(self)@;
                    let ghost mid = self@;
                    self.evict_now(v);
                    proof {
                        assert(mid.catalog.remove(v) =~= base.catalog.remove(v));
                        assert(self@.catalog == base.evict(v).catalog);
                        assert(self@.frames == base.evict(v).frames);
                    }
                    Ok(Completed::Evicted { page_id: v })
                } else {
                    Ok(Completed::Kept { page_id: v })
                }
            },
        }
    }

    /// Records that the write-back of `v` has failed.
    fn put_on_hold(&mut self, v: u64)
        requires
            old(self).wf(),
            old(self)@.resident(v),
            old(self)@.catalog[v].pin_count >= 1,
            old(self)@.guard(v) == 0,
            !old(self)@.writers.contains(v),
        ensures
            final(self).wf(),
            final(self)@ == old(self)@.hold(v),
    {
        self.held.push(v);
        proof {
            assert(self@ =~= old(self)@.hold(v));
            lemma_hold_keeps_invariant(old(self)@, v);
        }
    }

    /// Takes the pool's pin off `v` and tells whether `v` is now unpinned.
    fn drop_pin(&mut self, v: u64) -> (unpinned: bool)
        requires
            old(self).wf(),
            old(self)@.resident(v),
            old(self)@.catalog[v].pin_count >= 1,
            old(self)@.guard(v) == 0,
            !old(self)@.writers.contains(v),
        ensures
            final(self).wf(),
            final(self)@ == old(self)@.with_entry(v, old(self)@.unpinned(v)),
            unpinned == (old(self)@.catalog[v].pin_count == 1),
    {
        let before: u32 = match self.catalog.lookup(v) {
            Some(entry) => entry.pin_count,
            None => 0,
        };
        let _ = self.catalog.unpin(v);
        proof {
            assert(self@ =~= old(self)@.with_entry(v, old(self)@.unpinned(v)));
            lemma_entry_update(old(self)@, v, old(self)@.unpinned(v));
        }
        before == 1
    }

    /// Reports the completion of the write under `token`: the device
    /// transferred `byte_count` bytes with status `result`. The pool acts
    /// as [`write_outcome`] describes.
    pub fn complete_write(&mut self, token: u64, byte_count: usize, result: i32) -> (done: Result<
        Completed,
        PoolError,
    >)
        requires
            old(self).wf(),
        ensures
            final(self).wf(),
            write_outcome(old(self)@, token, byte_count, result, final(self)@, done),
    {
        let ghost pre = old(self)@;
        let i: usize = match self.find_token(token) {
            Some(i) => i,
            None => {
                return Err(PoolError::UnknownToken);
            },
        };
        proof {
            lemma_token_names_one_marker(pre, token, i as int);
        }
        let v: u64 = match self.markers[i].phase {
            Phase::Flushing { victim } => victim,
            Phase::Loading => {
                return Err(PoolError::UnknownToken);
            },
        };
        let page_size: usize = self.frames.page_size();
        let report = self.settle(i, byte_count, result);
        proof {
            assert(pre.markers[i as int].phase == (Phase::Flushing { victim: v }));
            lemma_settled_victim_is_unguarded(pre, i as int, v);
        }
        self.after_write(v, report.outcome(page_size))
    }

    /// Reports the completion of the read under `token`: the device
    /// answered with status `result` and delivered `data`. The pool acts as
    /// [`read_outcome`] describes.
    pub fn complete_read(&mut self, token: u64, result: i32, data: Bytes, now: u64) -> (done:
        Result<Completed, PoolError>)
        requires
            old(self).wf(),
        ensures
            final(self).wf(),
            read_outcome(old(self)@, token, result, bytes_of(data), now, final(self)@, done),
    {
        let ghost pre = old(self)@;
        let i: usize = match self.find_token(token) {
            Some(i) => i,
            None => {
                return Err(PoolError::UnknownToken);
            },
        };
        proof {
            lemma_token_names_one_marker(pre, token, i as int);
        }
        let marker: Marker = self.markers[i];
        match marker.phase {
            Phase::Flushing { victim } => {
                return Err(PoolError::UnknownToken);
            },
            Phase::Loading => {},
        }
        let page_size: usize = self.frames.page_size();
        let byte_count: usize = image_len(&data);
        let report = self.settle(i, byte_count, result);
        let ghost base = self@;
        match report.outcome(page_size) {
            Err(e) => {
                proof {
                    lemma_marker_facts(pre, i as int);
                }
                let _ = self.frames.release_frame(marker.frame_index);
                proof {
                    assert(self@ =~= base.give_back(marker.frame_index));
                    lemma_give_back_keeps_invariant(pre, i as int);
                }
                Err(e)
            },
            Ok(_) => {
                let mut image: Vec<u8> = into_vec(data);
                image.truncate(page_size);
                proof {
                    assert(image@ =~= bytes_of(data).subrange(0, page_size as int));
                    lemma_marker_facts(pre, i as int);
                }
                let _ = self.frames.store(marker.frame_index, image);
                let _ = self.catalog.insert(marker.page_id, marker.frame_index);
                let _ = self.catalog.record_access(marker.page_id, now);
                if marker.claimed {
                    let _ = self.catalog.pin(marker.page_id);
                }
                let ghost pins: u32 = if marker.claimed { 1 } else { 0 };
                proof {
                    let target = base.install(
                        marker.page_id,
                        marker.frame_index,
                        bytes_of(data).subrange(0, page_size as int),
                        now,
                        pins,
                    );
                    assert(Seq::<u64>::empty().push(now) =~= seq![now]);
                    assert(self@.catalog =~= target.catalog);
                    assert(self@ =~= target);
                    lemma_install_keeps_invariant(
                        pre,
                        i as int,
                        bytes_of(data).subrange(0, page_size as int),
                        now,
                        pins,
                    );
                }
                if marker.claimed {
                    let exclusive: bool = match marker.mode {
                        Mode::Exclusive => true,
                        Mode::Shared => false,
                    };
                    if exclusive {
                        let ghost mid = self@;
                        self.writers.push(marker.page_id);
                        proof {
                            assert(self@ =~= mid.claim(marker.page_id, marker.mode));
                            lemma_claim_keeps_invariant(mid, marker.page_id);
                        }
                    }
                    Ok(
                        Completed::Loaded(
                            PageHandle {
                                page_id: marker.page_id,
                                frame_index: marker.frame_index,
                                mode: marker.mode,
                            },
                        ),
                    )
                } else {
                    Ok(Completed::Unclaimed { page_id: marker.page_id })
                }
            },
        }
    }

    /// Takes the page at position `h` off the pages on hold; it keeps its pins.
    fn take_off_hold(&mut self, h: usize) -> (page_id: u64)
        requires
            old(self).wf(),
            h < old(self)@.held.len(),
        ensures
            final(self).wf(),
            final(self)@ == old(self)@.unhold(h as int),
            page_id == old(self)@.held[h as int],
            final(self)@.guard(page_id) == 0,
            final(self)@.resident(page_id),
            final(self)@.catalog[page_id].pin_count >= 1,
            !final(self)@.writers.contains(page_id),
            !final(self)@.marked(page_id),
    {
        let page_id: u64 = self.held.remove(h);
        proof {
            assert(self@ =~= old(self)@.unhold(h as int));
            lemma_unhold_keeps_invariant(old(self)@, h as int);
        }
        page_id
    }

    /// Gives up the content of a page whose write-back has failed, as
    /// [`discard_outcome`] describes.
    pub fn discard(&mut self, page_id: u64) -> (done: Option<Completed>)
        requires
            old(self).wf(),
        ensures
            final(self).wf(),
            discard_outcome(old(self)@, page_id, final(self)@, done),
    {
        let ghost pre = old(self)@;
        let h: usize = match self.find_held(page_id) {
            Some(h) => h,
            None => {
                return None;
            },
        };
        proof {
            lemma_held_index(pre, page_id, h as int);
        }
        let _ = self.take_off_hold(h);
        let ghost base = self@;
        let _ = self.catalog.clear_dirty(page_id);
        proof {
            let clean = PageView { is_dirty: false, ..base.catalog[page_id] };
            assert(self@ =~= base.with_entry(page_id, clean));
            lemma_entry_update(base, page_id, clean);
        }
        let ghost mid = self@;
        let left: bool = self.drop_pin(page_id);
        proof {
            assert(self@.catalog =~= base.catalog.insert(page_id, base.dropped(page_id)));
            assert(self@ =~= base.with_entry(page_id, base.dropped(page_id)));
        }
        if left {
            let ghost last = self@;
            self.evict_now(page_id);
            proof {
                assert(last.catalog.remove(page_id) =~= base.catalog.remove(page_id));
                assert(self@.catalog == base.evict(page_id).catalog);
                assert(self@.frames == base.evict(page_id).frames);
            }
            Some(Completed::Evicted { page_id })
        } else {
            Some(Completed::Kept { page_id })
        }
    }

    /// Queues another write-back of a page whose write-back has failed, as
    /// [`retry_outcome`] describes.
    pub fn retry_flush(&mut self, page_id: u64) -> (step: Result<FetchStep, PoolError>)
        requires
            old(self).wf(),
        ensures
            final(self).wf(),
            retry_outcome(old(self)@, page_id, final(self)@, step),
    {
        let ghost pre = old(self)@;
        let h: usize = match self.find_held(page_id) {
            Some(h) => h,
            None => {
                return Err(PoolError::NotHeld);
            },
        };
        if self.engine.is_saturated() {
            return Err(PoolError::QueueSaturated);
        }
        proof {
            lemma_held_index(pre, page_id, h as int);
        }
        let _ = self.take_off_hold(h);
        let ghost base = self@;
        proof {
            lemma_resident_facts(base, page_id);
        }
        let len: usize = self.frames.page_size();
        let offset: u64 = page_id * (len as u64);
        let frame_index: usize = match self.catalog.lookup(page_id) {
            Some(entry) => entry.frame_index,
            None => 0,
        };
        let token: u64 = match self.engine.submit_write(page_id, frame_index) {
            Ok(token) => token,
            Err(_) => 0,
        };
        self.markers.push(
            Marker {
                page_id,
                token,
                frame_index,
                mode: Mode::Shared,
                claimed: false,
                phase: Phase::Flushing { victim: page_id },
            },
        );
        let data = image_of(self.frames.frame(frame_index));
        proof {
            assert(self@ =~= base.restart_flush(page_id));
            lemma_restart_flush_keeps_invariant(base, page_id);
        }
        Ok(FetchStep::Flush { token, victim: page_id, frame_index, offset, data })
    }

    /// Notes that the fetch that started the transfer under `token` has
    /// given up waiting, as [`timeout_outcome`] describes, and hands back
    /// the error for its caller. The transfer is still owned by the device:
    /// its completion is reported as usual.
    pub fn time_out(&mut self, token: u64) -> (error: PoolError)
        requires
            old(self).wf(),
        ensures
            final(self).wf(),
            error == PoolError::Timeout,
            timeout_outcome(old(self)@, token, final(self)@),
    {
        match self.find_token(token) {
            Some(i) => {
                proof {
                    lemma_token_names_one_marker(old(self)@, token, i as int);
                }
                let marker: Marker = self.markers[i];
                self.markers.set(i, Marker { claimed: false, ..marker });
                proof {
                    assert(self@ =~= old(self)@.abandon(i as int));
                    lemma_abandon_keeps_invariant(old(self)@, i as int);
                }
            },
            None => {},
        }
        PoolError::Timeout
    }

    /// Index of `page_id` in the list of pages held exclusively.
    fn find_writer(&self, page_id: u64) -> (at: Option<usize>)
        ensures
            at.is_some() == self@.writers.contains(page_id),
            at.is_some() ==> at.unwrap() < self@.writers.len() && self@.writers[at.unwrap() as int]
                == page_id,
    {
        let mut i: usize = 0;
        while i < self.writers.len()
            invariant
                i <= self.writers@.len(),
                forall|j: int| 0 <= j < i ==> #[trigger] self.writers@[j] != page_id,
            decreases self.writers.len() - i,
        {
            if self.writers[i] == page_id {
                return Some(i);
            }
            i = i + 1;
        }
        None
    }

    /// Number of pins that the pool itself keeps on `page_id`.
    fn guard_of(&self, page_id: u64) -> (pins: u32)
        ensures
            pins == self@.guard(page_id),
    {
        if self.is_flushing(page_id) || self.find_held(page_id).is_some() {
            1
        } else {
            0
        }
    }

    /// Whether `handle` is backed by a pin of a caller, taken in the
    /// handle's mode.
    pub fn holds(&self, handle: &PageHandle) -> (held: bool)
        requires
            self.wf(),
        ensures
            held == self@.holds(*handle),
    {
        match self.catalog.lookup(handle.page_id) {
            None => false,
            Some(entry) => {
                let exclusive: bool = match handle.mode {
                    Mode::Exclusive => true,
                    Mode::Shared => false,
                };
                entry.frame_index == handle.frame_index && entry.pin_count > self.guard_of(
                    handle.page_id,
                ) && exclusive == self.find_writer(handle.page_id).is_some()
            },
        }
    }

    /// Gives back the pin of `handle`. A handle that no pin backs, because
    /// it was released before or its page has left, reports `UnbalancedPin`
    /// and changes nothing.
    pub fn release(&mut self, handle: PageHandle) -> (done: Result<(), PoolError>)
        requires
            old(self).wf(),
        ensures
            final(self).wf(),
            release_outcome(old(self)@, handle, final(self)@, done),
    {
        if !self.holds(&handle) {
            return Err(PoolError::UnbalancedPin);
        }
        let ghost pre = old(self)@;
        match self.find_writer(handle.page_id) {
            Some(j) => {
                proof {
                    lemma_yield_keeps_invariant(pre, j as int);
                }
                let _ = self.writers.remove(j);
            },
            None => {},
        }
        let ghost mid = self@;
        proof {
            assert(mid =~= pre.yield_claim(handle.page_id, handle.mode));
            lemma_resident_facts(pre, handle.page_id);
        }
        let _ = self.catalog.unpin(handle.page_id);
        proof {
            assert(self@ =~= mid.with_entry(handle.page_id, pre.unpinned(handle.page_id)));
            lemma_entry_update(mid, handle.page_id, pre.unpinned(handle.page_id));
        }
        Ok(())
    }

    /// Records that the holder of `handle` has changed the page, so that
    /// the page is written back before its frame is reused.
    pub fn mark_dirty(&mut self, handle: &PageHandle) -> (done: Result<(), PoolError>)
        requires
            old(self).wf(),
        ensures
            final(self).wf(),
            mark_dirty_outcome(old(self)@, *handle, final(self)@, done),
    {
        if !self.holds(handle) {
            return Err(PoolError::UnbalancedPin);
        }
        let _ = self.catalog.mark_dirty(handle.page_id);
        proof {
            lemma_entry_update(old(self)@, handle.page_id, self@.catalog[handle.page_id]);
            assert(self@ =~= old(self)@.with_entry(
                handle.page_id,
                self@.catalog[handle.page_id],
            ));
        }
        Ok(())
    }

    /// The bytes of the page that `handle` pins.
    pub fn bytes(&self, handle: &PageHandle) -> (content: Option<&Vec<u8>>)
        requires
            self.wf(),
        ensures
            content.is_some() == self@.holds(*handle),
            content.is_some() ==> content.unwrap()@ == self@.content(handle.page_id),
    {
        if self.holds(handle) {
            proof {
                lemma_resident_facts(self@, handle.page_id);
            }
            self.frames.bytes(handle.frame_index)
        } else {
            None
        }
    }

    /// Writes `data` into the page that `handle` pins, from byte `offset`
    /// on, and marks the page dirty. Only an exclusive handle may write,
    /// and only inside the page.
    pub fn write(&mut self, handle: &PageHandle, offset: usize, data: &Vec<u8>) -> (written: bool)
        requires
            old(self).wf(),
        ensures
            final(self).wf(),
            modify_outcome(old(self)@, *handle, offset as int, data@, final(self)@, written),
    {
        let exclusive: bool = match handle.mode {
            Mode::Exclusive => true,
            Mode::Shared => false,
        };
        if !exclusive || !self.holds(handle) {
            return false;
        }
        proof {
            lemma_resident_facts(old(self)@, handle.page_id);
        }
        let ghost pre = old(self)@;
        let ghost content = overwritten(pre.content(handle.page_id), offset as int, data@);
        let written = self.frames.write_at(handle.frame_index, offset, data);
        proof {
            assert(self@.frames.frames.len() == pre.frames.frames.len());
            if written {
                assert(self@ =~= pre.with_content(handle.frame_index, content));
                lemma_write_keeps_invariant(pre, handle.frame_index, content);
            } else {
                assert(self@ =~= pre);
            }
        }
        if written {
            let ghost mid = self@;
            let _ = self.catalog.mark_dirty(handle.page_id);
            proof {
                assert(self@ =~= mid.with_entry(handle.page_id, pre.dirtied(handle.page_id)));
                lemma_entry_update(mid, handle.page_id, pre.dirtied(handle.page_id));
            }
        }
        written
    }
}

/// Decides [`request_for`].
fn request_for_marker(m: Marker) -> (request: Request)
    ensures
        request == request_for(m),
{
    match m.phase {
        Phase::Loading => Request {
            token: m.token,
            op: IoOp::Read,
            page_id: m.page_id,
            frame_index: m.frame_index,
        },
        Phase::Flushing { victim } => Request {
            token: m.token,
            op: IoOp::Write,
            page_id: victim,
            frame_index: m.frame_index,
        },
    }
}

} // verus!
