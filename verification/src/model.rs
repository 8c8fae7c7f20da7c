//! The pool as a mathematical value: what it holds, what must hold of it,
//! and what each operation does to it.

use crate::buffer_pool::{Completed, FetchStep, Marker, Mode, PageHandle, Phase};
use crate::engine::{transfer_outcome, Completion, EngineView, IoOp, Request};
use crate::error::{IoCause, PoolError};
use crate::frames::{overwritten, FrameStoreView};
use crate::page::{most_recent, PageView};
use crate::payload::bytes_of;
use crate::policy::{all_pinned, is_victim};
use vstd::prelude::*;

verus! {

/// Mathematical value of a [`BufferPool`](crate::buffer_pool::BufferPool).
pub struct PoolView {
    /// History depth of LRU-K.
    pub k: nat,
    /// The resident pages.
    pub catalog: Map<u64, PageView>,
    pub frames: FrameStoreView,
    pub engine: EngineView,
    /// One marker per pending request of the engine, in the same order.
    pub markers: Seq<Marker>,
    /// Dirty pages whose write-back failed; each keeps one pin of the pool.
    pub held: Seq<u64>,
    /// Pages that a caller holds exclusively.
    pub writers: Seq<u64>,
}

/// The request that the engine holds for a marker.
pub open spec fn request_for(m: Marker) -> Request {
    match m.phase {
        Phase::Loading => Request {
            token: m.token,
            op: IoOp::Read,
            page_id: m.page_id,
            frame_index: m.frame_index,
        },
        Phase::Flushing { victim } => Request {
            token: m.token,
            op: IoOp::Write,
            page_id: victim,
            frame_index: m.frame_index,
        },
    }
}

impl PoolView {
    /// Number of frames.
    pub open spec fn capacity(self) -> nat {
        self.frames.frames.len()
    }

    /// Size of a page in bytes.
    pub open spec fn page_size(self) -> nat {
        self.frames.page_size
    }

    /// Whether `page_id` has a catalog entry.
    pub open spec fn resident(self, page_id: u64) -> bool {
        self.catalog.contains_key(page_id)
    }

    /// Number of resident pages.
    pub open spec fn resident_count(self) -> nat {
        self.catalog.dom().len()
    }

    /// The in-memory bytes of a resident page.
    pub open spec fn content(self, page_id: u64) -> Seq<u8> {
        self.frames.frames[self.catalog[page_id].frame_index as int]
    }

    /// Whether a transfer is outstanding on behalf of `page_id`.
    pub open spec fn marked(self, page_id: u64) -> bool {
        exists|i: int|
            0 <= i < self.markers.len() && (#[trigger] self.markers[i]).page_id == page_id
    }

    /// Whether `page_id` is being written back.
    pub open spec fn flushing(self, page_id: u64) -> bool {
        exists|i: int|
            0 <= i < self.markers.len() && (#[trigger] self.markers[i]).phase == (Phase::Flushing {
                victim: page_id,
            })
    }

    /// Pins that the pool itself keeps on `page_id`: one while the page is
    /// written back, and one after a write-back has failed.
    pub open spec fn guard(self, page_id: u64) -> nat {
        if self.flushing(page_id) || self.held.contains(page_id) {
            1
        } else {
            0
        }
    }

    /// Whether `handle` is backed by a pin of a caller, taken in the
    /// handle's mode.
    pub open spec fn holds(self, handle: PageHandle) -> bool {
        &&& self.resident(handle.page_id)
        &&& self.catalog[handle.page_id].frame_index == handle.frame_index
        &&& self.catalog[handle.page_id].pin_count > self.guard(handle.page_id)
        &&& (handle.mode == Mode::Exclusive) == self.writers.contains(handle.page_id)
    }

    /// Whether a caller may get the resident page `page_id` for use in
    /// `mode`: nobody holds it exclusively, and an exclusive use finds no
    /// pin at all on it, neither a caller's nor the pool's, so that no
    /// page changes while it is written back.
    pub open spec fn grantable(self, page_id: u64, mode: Mode) -> bool {
        &&& !self.writers.contains(page_id)
        &&& mode == Mode::Exclusive ==> self.catalog[page_id].pin_count == 0
    }

    /// The pool after a caller has got `page_id` for use in `mode`.
    pub open spec fn claim(self, page_id: u64, mode: Mode) -> PoolView {
        if mode == Mode::Exclusive {
            PoolView { writers: self.writers.push(page_id), ..self }
        } else {
            self
        }
    }

    /// Position of `page_id` among the pages held exclusively.
    pub open spec fn writer_index(self, page_id: u64) -> int {
        choose|j: int| 0 <= j < self.writers.len() && self.writers[j] == page_id
    }

    /// The pool after the holder of `page_id` in `mode` has let go.
    pub open spec fn yield_claim(self, page_id: u64, mode: Mode) -> PoolView {
        if mode == Mode::Exclusive {
            PoolView { writers: self.writers.remove(self.writer_index(page_id)), ..self }
        } else {
            self
        }
    }

    /// Whether a frame is free.
    pub open spec fn has_free_frame(self) -> bool {
        self.frames.free.len() > 0
    }

    /// Token of the transfer that is outstanding on behalf of `page_id`.
    pub open spec fn marker_token(self, page_id: u64) -> u64 {
        self.markers[choose|i: int|
            0 <= i < self.markers.len() && (#[trigger] self.markers[i]).page_id == page_id].token
    }

    /// The page that LRU-K evicts first.
    pub open spec fn victim(self) -> u64 {
        choose|v: u64| is_victim(self.catalog, self.k, v)
    }

    /// The entry of a resident page after one more access at `now` and one more pin.
    pub open spec fn touched(self, page_id: u64, now: u64) -> PageView {
        PageView {
            pin_count: (self.catalog[page_id].pin_count + 1) as u32,
            history: most_recent(self.catalog[page_id].history.push(now), self.k),
            ..self.catalog[page_id]
        }
    }

    /// The pool after the unpinned page `v` has left and its frame is free.
    pub open spec fn evict(self, v: u64) -> PoolView {
        PoolView {
            catalog: self.catalog.remove(v),
            frames: FrameStoreView {
                free: self.frames.free.push(self.catalog[v].frame_index),
                ..self.frames
            },
            ..self
        }
    }

    /// The pool after a read of `page_id` into the next free frame has been queued.
    pub open spec fn start_load(self, page_id: u64, mode: Mode) -> PoolView {
        let frame_index = self.frames.free.last();
        PoolView {
            frames: FrameStoreView { free: self.frames.free.drop_last(), ..self.frames },
            engine: self.engine.accept(IoOp::Read, page_id, frame_index),
            markers: self.markers.push(
                Marker {
                    page_id,
                    token: self.engine.next_token,
                    frame_index,
                    mode,
                    claimed: true,
                    phase: Phase::Loading,
                },
            ),
            ..self
        }
    }

    /// The pool after a write-back of the unpinned page `v` has been queued
    /// on behalf of a fetch of `page_id`: `v` carries the pool's pin.
    pub open spec fn start_flush(self, page_id: u64, mode: Mode, v: u64) -> PoolView {
        PoolView {
            catalog: self.catalog.insert(
                v,
                PageView {
                    pin_count: (self.catalog[v].pin_count + 1) as u32,
                    ..self.catalog[v]
                },
            ),
            engine: self.engine.accept(IoOp::Write, v, self.catalog[v].frame_index),
            markers: self.markers.push(
                Marker {
                    page_id,
                    token: self.engine.next_token,
                    frame_index: self.catalog[v].frame_index,
                    mode,
                    claimed: true,
                    phase: Phase::Flushing { victim: v },
                },
            ),
            ..self
        }
    }

    /// Whether a transfer with `token` is outstanding.
    pub open spec fn awaits(self, token: u64) -> bool {
        exists|i: int| 0 <= i < self.markers.len() && (#[trigger] self.markers[i]).token == token
    }

    /// Position of the marker whose transfer carries `token`.
    pub open spec fn token_index(self, token: u64) -> int {
        choose|i: int| 0 <= i < self.markers.len() && (#[trigger] self.markers[i]).token == token
    }

    /// The pool after the transfer of the marker at `i` has completed and
    /// its completion has been taken.
    pub open spec fn without_marker(self, i: int) -> PoolView {
        PoolView {
            markers: self.markers.remove(i),
            engine: EngineView { pending: self.engine.pending.remove(i), ..self.engine },
            ..self
        }
    }

    /// The pool after the fetch that started the transfer at `i` has given
    /// up waiting: the transfer stays outstanding.
    pub open spec fn abandon(self, i: int) -> PoolView {
        PoolView {
            markers: self.markers.update(i, Marker { claimed: false, ..self.markers[i] }),
            ..self
        }
    }

    /// The pool after the write-back of `v` has failed: `v` keeps the pool's pin.
    pub open spec fn hold(self, v: u64) -> PoolView {
        PoolView { held: self.held.push(v), ..self }
    }

    /// The entry of `v` with its dirty flag set.
    pub open spec fn dirtied(self, v: u64) -> PageView {
        PageView { is_dirty: true, ..self.catalog[v] }
    }

    /// The entry of `v` without one pin.
    pub open spec fn unpinned(self, v: u64) -> PageView {
        PageView { pin_count: (self.catalog[v].pin_count - 1) as u32, ..self.catalog[v] }
    }

    /// The pool after a failed read has given its frame back.
    pub open spec fn give_back(self, frame_index: usize) -> PoolView {
        PoolView {
            frames: FrameStoreView { free: self.frames.free.push(frame_index), ..self.frames },
            ..self
        }
    }

    /// The pool after `image` has been installed in `frame_index` as page
    /// `page_id`, accessed at `now` and pinned `pins` times.
    pub open spec fn install(
        self,
        page_id: u64,
        frame_index: usize,
        image: Seq<u8>,
        now: u64,
        pins: u32,
    ) -> PoolView {
        PoolView {
            catalog: self.catalog.insert(
                page_id,
                PageView {
                    page_id,
                    frame_index,
                    pin_count: pins,
                    is_dirty: false,
                    history: most_recent(seq![now], self.k),
                },
            ),
            frames: FrameStoreView {
                frames: self.frames.frames.update(frame_index as int, image),
                ..self.frames
            },
            ..self
        }
    }

    /// Position of `page_id` among the pages on hold.
    pub open spec fn held_index(self, page_id: u64) -> int {
        choose|h: int| 0 <= h < self.held.len() && self.held[h] == page_id
    }

    /// The pool after the page at position `h` has left the pages on hold.
    pub open spec fn unhold(self, h: int) -> PoolView {
        PoolView { held: self.held.remove(h), ..self }
    }

    /// The entry of `v` without one pin and without its dirty flag.
    pub open spec fn dropped(self, v: u64) -> PageView {
        PageView {
            pin_count: (self.catalog[v].pin_count - 1) as u32,
            is_dirty: false,
            ..self.catalog[v]
        }
    }

    /// The pool after a write-back of the resident page `v` has been queued
    /// on its own behalf; `v` keeps the pin that it has.
    pub open spec fn restart_flush(self, v: u64) -> PoolView {
        PoolView {
            engine: self.engine.accept(IoOp::Write, v, self.catalog[v].frame_index),
            markers: self.markers.push(
                Marker {
                    page_id: v,
                    token: self.engine.next_token,
                    frame_index: self.catalog[v].frame_index,
                    mode: Mode::Shared,
                    claimed: false,
                    phase: Phase::Flushing { victim: v },
                },
            ),
            ..self
        }
    }

    /// The protocol's invariant.
    #[verifier::opaque]
    pub open spec fn inv(self) -> bool {
        &&& self.k >= 1
        &&& self.engine.wf()
        &&& self.entries_filed()
        &&& self.frames_sized()
        &&& self.aligned()
        &&& self.frames_bound()
        &&& self.markers_sound()
        &&& self.guards_sound()
        &&& self.writers_sound()
        &&& self.offsets_fit()
    }

    /// Every entry is filed under its own identifier with a bounded history.
    pub open spec fn entries_filed(self) -> bool {
        &&& self.catalog.dom().finite()
        &&& forall|p: u64| #[trigger]
            self.catalog.contains_key(p) ==> self.catalog[p].page_id == p
                && self.catalog[p].history.len() <= self.k
    }

    /// Every frame has the page size; the free list names existing frames, each once.
    pub open spec fn frames_sized(self) -> bool {
        &&& self.frames.free.no_duplicates()
        &&& forall|j: int|
            0 <= j < self.frames.free.len() ==> (#[trigger] self.frames.free[j]) < self.capacity()
        &&& forall|i: int|
            0 <= i < self.capacity() ==> (#[trigger] self.frames.frames[i]).len()
                == self.page_size()
    }

    /// The pool with the content of frame `frame_index` replaced by `content`.
    pub open spec fn with_content(self, frame_index: usize, content: Seq<u8>) -> PoolView {
        PoolView {
            frames: FrameStoreView {
                frames: self.frames.frames.update(frame_index as int, content),
                ..self.frames
            },
            ..self
        }
    }

    /// The pool with the entry of `page_id` replaced by `entry`.
    pub open spec fn with_entry(self, page_id: u64, entry: PageView) -> PoolView {
        PoolView { catalog: self.catalog.insert(page_id, entry), ..self }
    }

    /// Markers and pending requests correspond, and no completion lies around.
    pub open spec fn aligned(self) -> bool {
        &&& self.engine.ready.len() == 0
        &&& self.markers.len() == self.engine.pending.len()
        &&& forall|i: int|
            0 <= i < self.markers.len() ==> self.engine.pending[i] == request_for(
                #[trigger] self.markers[i],
            )
    }

    /// A frame is free, or bound to one resident page, or reserved by one load.
    pub open spec fn frames_bound(self) -> bool {
        &&& forall|p: u64| #[trigger]
            self.catalog.contains_key(p) ==> self.catalog[p].frame_index < self.capacity()
                && !self.frames.free.contains(self.catalog[p].frame_index)
        &&& forall|p: u64, q: u64|
            self.catalog.contains_key(p) && self.catalog.contains_key(q) && p != q ==> (
            #[trigger] self.catalog[p]).frame_index != (#[trigger] self.catalog[q]).frame_index
        &&& forall|i: int|
            0 <= i < self.markers.len() && (#[trigger] self.markers[i]).phase == Phase::Loading
                ==> self.markers[i].frame_index < self.capacity() && !self.frames.free.contains(
                self.markers[i].frame_index,
            )
        &&& forall|i: int, p: u64|
            0 <= i < self.markers.len() && (#[trigger] self.markers[i]).phase == Phase::Loading
                && self.catalog.contains_key(p) ==> (#[trigger] self.catalog[p]).frame_index
                != self.markers[i].frame_index
        &&& forall|i: int, j: int|
            0 <= i < j < self.markers.len() && (#[trigger] self.markers[i]).phase
                == Phase::Loading && (#[trigger] self.markers[j]).phase == Phase::Loading
                ==> self.markers[i].frame_index != self.markers[j].frame_index
    }

    /// At most one marker per page, and only a page that is written back
    /// on its own behalf is resident while marked.
    pub open spec fn markers_sound(self) -> bool {
        &&& forall|i: int, j: int|
            0 <= i < j < self.markers.len() ==> (#[trigger] self.markers[i]).page_id != (
            #[trigger] self.markers[j]).page_id
        &&& forall|i: int|
            0 <= i < self.markers.len() && self.catalog.contains_key(
                (#[trigger] self.markers[i]).page_id,
            ) ==> self.markers[i].phase == (Phase::Flushing { victim: self.markers[i].page_id })
    }

    /// The victim of the write-back at `i` is resident in the frame that is
    /// written, carries the pool's pin, is not on hold and is held
    /// exclusively by nobody.
    pub open spec fn victim_guarded(self, i: int) -> bool {
        let v = self.markers[i].phase->victim;
        &&& self.catalog.contains_key(v)
        &&& self.catalog[v].pin_count >= 1
        &&& self.catalog[v].frame_index == self.markers[i].frame_index
        &&& !self.held.contains(v)
        &&& !self.writers.contains(v)
    }

    /// The page `v`, which is on hold, is resident, carries the pool's pin
    /// and is held exclusively by nobody.
    pub open spec fn held_guarded(self, v: u64) -> bool {
        &&& self.catalog.contains_key(v)
        &&& self.catalog[v].pin_count >= 1
        &&& !self.writers.contains(v)
    }

    /// A page that a caller holds exclusively is resident and pinned.
    pub open spec fn writers_sound(self) -> bool {
        &&& self.writers.no_duplicates()
        &&& forall|j: int|
            0 <= j < self.writers.len() ==> self.catalog.contains_key(#[trigger] self.writers[j])
                && self.catalog[self.writers[j]].pin_count >= 1
    }

    /// A page that is written back, or whose write-back failed, is
    /// resident and carries the pool's pin.
    pub open spec fn guards_sound(self) -> bool {
        &&& forall|i: int|
            0 <= i < self.markers.len() && (#[trigger] self.markers[i]).phase is Flushing
                ==> self.victim_guarded(i)
        &&& forall|i: int, j: int|
            0 <= i < j < self.markers.len() && (#[trigger] self.markers[i]).phase
                != Phase::Loading ==> self.markers[i].phase != (#[trigger] self.markers[j]).phase
        &&& self.held.no_duplicates()
        &&& forall|h: int| 0 <= h < self.held.len() ==> self.held_guarded(#[trigger] self.held[h])
    }

    /// The byte offset of every page that the pool knows fits the device's range.
    pub open spec fn offsets_fit(self) -> bool {
        &&& forall|p: u64| #[trigger]
            self.catalog.contains_key(p) ==> p * self.page_size() <= u64::MAX
        &&& forall|i: int|
            0 <= i < self.markers.len() ==> (#[trigger] self.markers[i]).page_id * self.page_size()
                <= u64::MAX
    }
}

/// A fetch of `page_id` that finds a free frame in `pre` queues a read into it.
pub open spec fn loads(
    pre: PoolView,
    page_id: u64,
    mode: Mode,
    gone: Option<u64>,
    post: PoolView,
    step: Result<FetchStep, PoolError>,
) -> bool {
    &&& post == pre.start_load(page_id, mode)
    &&& step matches Ok(FetchStep::Load { token, page_id: p, frame_index, offset, len, evicted })
    &&& token == pre.engine.next_token
    &&& p == page_id
    &&& frame_index == pre.frames.free.last()
    &&& offset == page_id * pre.page_size()
    &&& len == pre.page_size()
    &&& evicted == gone
}

/// The fetch is refused with `error` and the pool stays as it was.
pub open spec fn refused(
    pre: PoolView,
    post: PoolView,
    step: Result<FetchStep, PoolError>,
    error: PoolError,
) -> bool {
    &&& post == pre
    &&& step matches Err(e)
    &&& e == error
}

/// What a fetch of `page_id` at time `now` does to the pool and answers,
/// case by case.
///
/// A resident page is touched and pinned, unless a holder excludes the
/// requested use. A page with an outstanding transfer makes the caller
/// wait on it. Otherwise the fetch needs a frame:
/// a free one, or that of the LRU-K victim, which leaves at once when it is
/// clean and is written back first when it is dirty. Whatever is refused
/// leaves the pool as it was.
pub open spec fn fetch_outcome(
    pre: PoolView,
    page_id: u64,
    mode: Mode,
    now: u64,
    post: PoolView,
    step: Result<FetchStep, PoolError>,
) -> bool {
    if pre.resident(page_id) {
        if !pre.grantable(page_id, mode) {
            &&& post == pre
            &&& step matches Ok(answer)
            &&& answer is Busy
        } else if pre.catalog[page_id].pin_count == u32::MAX {
            refused(pre, post, step, PoolError::PinLimit)
        } else {
            &&& post == pre.with_entry(page_id, pre.touched(page_id, now)).claim(page_id, mode)
            &&& step matches Ok(FetchStep::Ready(handle))
            &&& handle == (PageHandle {
                page_id,
                frame_index: pre.catalog[page_id].frame_index,
                mode,
            })
        }
    } else if pre.marked(page_id) {
        &&& post == pre
        &&& step matches Ok(FetchStep::Wait { token })
        &&& token == pre.marker_token(page_id)
    } else if page_id * pre.page_size() > u64::MAX {
        refused(
            pre,
            post,
            step,
            PoolError::IoFailure { page_id, cause: IoCause::OffsetOverflow },
        )
    } else if pre.has_free_frame() {
        if pre.engine.saturated() {
            refused(pre, post, step, PoolError::QueueSaturated)
        } else {
            loads(pre, page_id, mode, None, post, step)
        }
    } else if all_pinned(pre.catalog) {
        refused(pre, post, step, PoolError::PoolExhausted)
    } else if pre.engine.saturated() {
        refused(pre, post, step, PoolError::QueueSaturated)
    } else if pre.catalog[pre.victim()].is_dirty {
        let v = pre.victim();
        &&& is_victim(pre.catalog, pre.k, v)
        &&& post == pre.start_flush(page_id, mode, v)
        &&& step matches Ok(FetchStep::Flush { token, victim, frame_index, offset, data })
        &&& token == pre.engine.next_token
        &&& victim == v
        &&& frame_index == pre.catalog[v].frame_index
        &&& offset == v * pre.page_size()
        &&& bytes_of(data) == pre.content(v)
    } else {
        &&& is_victim(pre.catalog, pre.k, pre.victim())
        &&& loads(pre.evict(pre.victim()), page_id, mode, Some(pre.victim()), post, step)
    }
}

/// What the completion of the write under `token` does, case by case.
///
/// A failed write leaves the victim resident, dirty and pinned by the pool.
/// After a successful write the pool's pin goes; the victim leaves if no
/// caller pins it, and stays otherwise.
pub open spec fn write_outcome(
    pre: PoolView,
    token: u64,
    byte_count: usize,
    result: i32,
    post: PoolView,
    done: Result<Completed, PoolError>,
) -> bool {
    let i = pre.token_index(token);
    let m = pre.markers[i];
    if !pre.awaits(token) || m.phase == Phase::Loading {
        post == pre && done == Err::<Completed, PoolError>(PoolError::UnknownToken)
    } else {
        let v = m.phase->victim;
        let report = Completion { request: request_for(m), byte_count, result };
        let base = pre.without_marker(i);
        match transfer_outcome(report, pre.page_size()) {
            Err(e) => post == base.hold(v) && done == Err::<Completed, PoolError>(e),
            Ok(_) => if pre.catalog[v].pin_count == 1 {
                post == base.evict(v) && done == Ok::<Completed, PoolError>(
                    Completed::Evicted { page_id: v },
                )
            } else {
                post == base.with_entry(v, base.unpinned(v)) && done == Ok::<
                    Completed,
                    PoolError,
                >(Completed::Kept { page_id: v })
            },
        }
    }
}

/// What the completion of the read under `token` does, given the bytes
/// `image` that it delivered, case by case.
///
/// A failed read gives the frame back and leaves the page non-resident. A
/// successful one installs the first page of `image`, records the access
/// at `now` and pins the page for the fetch that started the read, unless
/// that fetch has given up waiting.
pub open spec fn read_outcome(
    pre: PoolView,
    token: u64,
    result: i32,
    image: Seq<u8>,
    now: u64,
    post: PoolView,
    done: Result<Completed, PoolError>,
) -> bool {
    let i = pre.token_index(token);
    let m = pre.markers[i];
    if !pre.awaits(token) || m.phase != Phase::Loading {
        post == pre && done == Err::<Completed, PoolError>(PoolError::UnknownToken)
    } else {
        let report = Completion {
            request: request_for(m),
            byte_count: image.len() as usize,
            result,
        };
        let base = pre.without_marker(i);
        match transfer_outcome(report, pre.page_size()) {
            Err(e) => post == base.give_back(m.frame_index) && done == Err::<
                Completed,
                PoolError,
            >(e),
            Ok(_) => if m.claimed {
                post == base.install(
                    m.page_id,
                    m.frame_index,
                    image.subrange(0, pre.page_size() as int),
                    now,
                    1,
                ).claim(m.page_id, m.mode) && done == Ok::<Completed, PoolError>(
                    Completed::Loaded(
                        PageHandle {
                            page_id: m.page_id,
                            frame_index: m.frame_index,
                            mode: m.mode,
                        },
                    ),
                )
            } else {
                post == base.install(
                    m.page_id,
                    m.frame_index,
                    image.subrange(0, pre.page_size() as int),
                    now,
                    0,
                ) && done == Ok::<Completed, PoolError>(
                    Completed::Unclaimed { page_id: m.page_id },
                )
            },
        }
    }
}

/// The step asks the caller to write `image` back as page `victim`.
pub open spec fn asks_write_back(
    step: Result<FetchStep, PoolError>,
    victim: u64,
    image: Seq<u8>,
) -> bool {
    &&& step matches Ok(FetchStep::Flush { victim: v, data, .. })
    &&& v == victim
    &&& bytes_of(data) == image
}

/// What giving up the wait for `token` does: the marker notes that nobody
/// claims the transfer, and everything else, the marker's place and the
/// frame that the transfer uses included, stays as it was.
pub open spec fn timeout_outcome(pre: PoolView, token: u64, post: PoolView) -> bool {
    if pre.awaits(token) {
        post == pre.abandon(pre.token_index(token))
    } else {
        post == pre
    }
}

/// What releasing `handle` does: a handle that a caller's pin backs gives
/// that pin back; any other handle is refused with `UnbalancedPin` and the
/// pool stays as it was.
pub open spec fn release_outcome(
    pre: PoolView,
    handle: PageHandle,
    post: PoolView,
    done: Result<(), PoolError>,
) -> bool {
    if pre.holds(handle) {
        post == pre.yield_claim(handle.page_id, handle.mode).with_entry(
            handle.page_id,
            pre.unpinned(handle.page_id),
        ) && done == Ok::<(), PoolError>(())
    } else {
        post == pre && done == Err::<(), PoolError>(PoolError::UnbalancedPin)
    }
}

/// What marking the page of `handle` dirty does: the page of a handle
/// that a caller's pin backs is flagged; any other handle is refused with
/// `UnbalancedPin` and the pool stays as it was.
pub open spec fn mark_dirty_outcome(
    pre: PoolView,
    handle: PageHandle,
    post: PoolView,
    done: Result<(), PoolError>,
) -> bool {
    if pre.holds(handle) {
        post == pre.with_entry(handle.page_id, pre.dirtied(handle.page_id)) && done == Ok::<
            (),
            PoolError,
        >(())
    } else {
        post == pre && done == Err::<(), PoolError>(PoolError::UnbalancedPin)
    }
}

/// What writing `data` at `offset` through `handle` does: an exclusive
/// handle that a caller's pin backs overwrites that range of its page, if
/// the range lies inside the page, and the page is dirty from then on;
/// anything else is refused and the pool stays as it was.
pub open spec fn modify_outcome(
    pre: PoolView,
    handle: PageHandle,
    offset: int,
    data: Seq<u8>,
    post: PoolView,
    written: bool,
) -> bool {
    if pre.holds(handle) && handle.mode == Mode::Exclusive && offset + data.len()
        <= pre.page_size() {
        written && post == pre.with_content(
            handle.frame_index,
            overwritten(pre.content(handle.page_id), offset, data),
        ).with_entry(handle.page_id, pre.dirtied(handle.page_id))
    } else {
        !written && post == pre
    }
}

/// What discarding the content of `page_id` does. Only a page on hold can
/// be discarded: it loses the pool's pin and its dirty flag, and leaves
/// the pool unless a caller pins it.
pub open spec fn discard_outcome(
    pre: PoolView,
    page_id: u64,
    post: PoolView,
    done: Option<Completed>,
) -> bool {
    if !pre.held.contains(page_id) {
        post == pre && done == None::<Completed>
    } else {
        let base = pre.unhold(pre.held_index(page_id));
        if pre.catalog[page_id].pin_count == 1 {
            post == base.evict(page_id) && done == Some(Completed::Evicted { page_id })
        } else {
            post == base.with_entry(page_id, base.dropped(page_id)) && done == Some(
                Completed::Kept { page_id },
            )
        }
    }
}

/// What asking for another write-back of `page_id` does. Only a page on
/// hold can be written back again; it stays pinned by the pool while the
/// write is outstanding.
pub open spec fn retry_outcome(
    pre: PoolView,
    page_id: u64,
    post: PoolView,
    step: Result<FetchStep, PoolError>,
) -> bool {
    if !pre.held.contains(page_id) {
        refused(pre, post, step, PoolError::NotHeld)
    } else if pre.engine.saturated() {
        refused(pre, post, step, PoolError::QueueSaturated)
    } else {
        &&& post == pre.unhold(pre.held_index(page_id)).restart_flush(page_id)
        &&& step matches Ok(FetchStep::Flush { token, victim, frame_index, offset, data })
        &&& token == pre.engine.next_token
        &&& victim == page_id
        &&& frame_index == pre.catalog[page_id].frame_index
        &&& offset == page_id * pre.page_size()
        &&& bytes_of(data) == pre.content(page_id)
    }
}

} // verus!
