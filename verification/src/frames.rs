//! The frame store: a fixed set of page-sized buffers and the list of
//! those that no page is bound to.

use vstd::prelude::*;

verus! {

/// Reported by [`FrameStore::acquire_frame`] when no frame is free.
#[derive(Debug, Clone, Copy, PartialEq, Eq)]
pub struct Exhausted;

/// Owner of the pool's memory.
pub struct FrameStore {
    frames: Vec<Vec<u8>>,
    free: Vec<usize>,
    is_free: Vec<bool>,
    page_size: usize,
}

/// Mathematical value of a [`FrameStore`].
pub struct FrameStoreView {
    /// Length of every frame.
    pub page_size: nat,
    /// Content of each frame, by index.
    pub frames: Seq<Seq<u8>>,
    /// The free frames; the last one is handed out next.
    pub free: Seq<usize>,
}

/// A buffer of `len` zero bytes.
pub open spec fn zeroed(len: nat) -> Seq<u8> {
    Seq::new(len, |i: int| 0u8)
}

/// The free list of a new store of `capacity` frames: frame 0 is handed out first.
pub open spec fn all_free(capacity: nat) -> Seq<usize> {
    Seq::new(capacity, |i: int| (capacity - 1 - i) as usize)
}

/// `old` with `data` written over the bytes from `offset` on.
pub open spec fn overwritten(old: Seq<u8>, offset: int, data: Seq<u8>) -> Seq<u8> {
    Seq::new(
        old.len(),
        |i: int|
            if offset <= i < offset + data.len() {
                data[i - offset]
            } else {
                old[i]
            },
    )
}

impl View for FrameStore {
    type V = FrameStoreView;

    closed spec fn view(&self) -> FrameStoreView {
        FrameStoreView {
            page_size: self.page_size as nat,
            frames: Seq::new(self.frames@.len(), |i: int| self.frames@[i]@),
            free: self.free@,
        }
    }
}

impl FrameStore {
    /// The bitmap agrees with the free list.
    pub closed spec fn repr(&self) -> bool {
        &&& self.is_free@.len() == self.frames@.len()
        &&& forall|i: int|
            0 <= i < self.frames@.len() ==> (#[trigger] self.is_free@[i] <==> self.free@.contains(
                i as usize,
            ))
    }

    /// Every frame has the page size, and the free list names existing
    /// frames, each at most once.
    pub open spec fn wf(&self) -> bool {
        &&& self.repr()
        &&& self@.free.no_duplicates()
        &&& forall|j: int|
            0 <= j < self@.free.len() ==> (#[trigger] self@.free[j]) < self@.frames.len()
        &&& forall|i: int|
            0 <= i < self@.frames.len() ==> (#[trigger] self@.frames[i]).len() == self@.page_size
    }

    /// Number of frames.
    pub open spec fn spec_capacity(&self) -> nat {
        self@.frames.len()
    }

    /// Whether frame `frame_index` exists and is bound to no page.
    pub open spec fn spec_is_free(&self, frame_index: usize) -> bool {
        self@.free.contains(frame_index)
    }

    /// `capacity` zero-filled frames of `page_size` bytes, all free.
    pub fn new(capacity: usize, page_size: usize) -> (store: FrameStore)
        ensures
            store.wf(),
            store@.page_size == page_size,
            store@.frames == Seq::new(capacity as nat, |i: int| zeroed(page_size as nat)),
            store@.free == all_free(capacity as nat),
    {
        let mut frames: Vec<Vec<u8>> = Vec::new();
        let mut free: Vec<usize> = Vec::new();
        let mut is_free: Vec<bool> = Vec::new();
        let mut i: usize = 0;
        while i < capacity
            invariant
                i <= capacity,
                frames@.len() == i,
                free@.len() == i,
                is_free@.len() == i,
                forall|j: int| 0 <= j < i ==> (#[trigger] frames@[j])@ == zeroed(page_size as nat),
                forall|j: int| 0 <= j < i ==> #[trigger] free@[j] == capacity - 1 - j,
                forall|j: int| 0 <= j < i ==> #[trigger] is_free@[j],
            decreases capacity - i,
        {
            let mut frame: Vec<u8> = Vec::new();
            let mut n: usize = 0;
            while n < page_size
                invariant
                    n <= page_size,
                    frame@.len() == n,
                    forall|b: int| 0 <= b < n ==> #[trigger] frame@[b] == 0u8,
                decreases page_size - n,
            {
                frame.push(0u8);
                n = n + 1;
            }
            assert(frame@ =~= zeroed(page_size as nat));
            frames.push(frame);
            free.push(capacity - 1 - i);
            is_free.push(true);
            i = i + 1;
        }
        let store = FrameStore { frames, free, is_free, page_size };
        proof {
            assert(store@.frames =~= Seq::new(capacity as nat, |i: int| zeroed(page_size as nat)));
            assert(store@.free =~= all_free(capacity as nat));
            assert forall|i: int| 0 <= i < store.frames@.len() implies (
            #[trigger] store.is_free@[i] <==> store.free@.contains(i as usize)) by {
                assert(store.free@[capacity - 1 - i] == i as usize);
            }
        }
        store
    }

    /// Number of frames.
    pub fn capacity(&self) -> (n: usize)
        ensures
            n == self.spec_capacity(),
    {
        self.frames.len()
    }

    /// Length of every frame.
    pub fn page_size(&self) -> (n: usize)
        ensures
            n == self@.page_size,
    {
        self.page_size
    }

    /// Number of free frames.
    pub fn free_count(&self) -> (n: usize)
        ensures
            n == self@.free.len(),
    {
        self.free.len()
    }

    /// Whether frame `frame_index` exists and is bound to no page.
    pub fn is_free(&self, frame_index: usize) -> (free: bool)
        requires
            self.wf(),
        ensures
            free == self.spec_is_free(frame_index),
    {
        if frame_index < self.is_free.len() {
            self.is_free[frame_index]
        } else {
            false
        }
    }

    /// Takes the frame at the end of the free list.
    pub fn acquire_frame(&mut self) -> (got: Result<usize, Exhausted>)
        requires
            old(self).wf(),
        ensures
            final(self).wf(),
            final(self)@.page_size == old(self)@.page_size,
            final(self)@.frames == old(self)@.frames,
            got.is_ok() == (old(self)@.free.len() > 0),
            got.is_ok() ==> got.unwrap() == old(self)@.free.last() && final(self)@.free == old(
                self,
            )@.free.drop_last(),
            got.is_err() ==> final(self)@.free == old(self)@.free,
    {
        let capacity: usize = self.frames.len();
        match self.free.pop() {
            Some(frame_index) => {
                self.is_free.set(frame_index, false);
                proof {
                    assert(self.frames@.len() == capacity);
                    let before = old(self).free@;
                    let after = self.free@;
                    assert(after =~= before.drop_last());
                    assert(before[before.len() - 1] == frame_index);
                    assert(self@.frames =~= old(self)@.frames);
                    assert forall|i: int| 0 <= i < self.frames@.len() implies (
                    #[trigger] self.is_free@[i] <==> after.contains(i as usize)) by {
                        let was_free = old(self).is_free@[i];
                        assert(was_free <==> before.contains(i as usize));
                        if i == frame_index {
                            if after.contains(i as usize) {
                                let j = choose|j: int|
                                    0 <= j < after.len() && after[j] == i as usize;
                                assert(before[j] == before[before.len() - 1]);
                            }
                        } else {
                            if before.contains(i as usize) {
                                let j = choose|j: int|
                                    0 <= j < before.len() && before[j] == i as usize;
                                assert(after[j] == i as usize);
                            }
                            if after.contains(i as usize) {
                                let j = choose|j: int|
                                    0 <= j < after.len() && after[j] == i as usize;
                                assert(before[j] == i as usize);
                            }
                        }
                    }
                }
                Ok(frame_index)
            },
            None => {
                proof {
                    assert(self@.frames =~= old(self)@.frames);
                }
                Err(Exhausted)
            },
        }
    }

    /// Puts frame `frame_index` back on the free list; a frame that does
    /// not exist or is already free is refused.
    pub fn release_frame(&mut self, frame_index: usize) -> (released: bool)
        requires
            old(self).wf(),
        ensures
            final(self).wf(),
            final(self)@.page_size == old(self)@.page_size,
            final(self)@.frames == old(self)@.frames,
            released == (frame_index < old(self).spec_capacity() && !old(self).spec_is_free(
                frame_index,
            )),
            released ==> final(self)@.free == old(self)@.free.push(frame_index),
            !released ==> final(self)@.free == old(self)@.free,
    {
        if frame_index >= self.frames.len() {
            proof {
                if self@.free.contains(frame_index) {
                    let j = choose|j: int|
                        0 <= j < self@.free.len() && self@.free[j] == frame_index;
                    assert(self@.free[j] < self@.frames.len());
                }
            }
            false
        } else if self.is_free[frame_index] {
            false
        } else {
            let capacity: usize = self.frames.len();
            self.free.push(frame_index);
            self.is_free.set(frame_index, true);
            proof {
                assert(self.frames@.len() == capacity);
                let before = old(self).free@;
                let after = self.free@;
                assert(self@.frames =~= old(self)@.frames);
                assert(after[after.len() - 1] == frame_index);
                assert forall|i: int| 0 <= i < self.frames@.len() implies (
                #[trigger] self.is_free@[i] <==> after.contains(i as usize)) by {
                    let was_free = old(self).is_free@[i];
                    assert(was_free <==> before.contains(i as usize));
                    if before.contains(i as usize) {
                        let j = choose|j: int| 0 <= j < before.len() && before[j] == i as usize;
                        assert(after[j] == i as usize);
                    }
                    if after.contains(i as usize) && i != frame_index {
                        let j = choose|j: int| 0 <= j < after.len() && after[j] == i as usize;
                        assert(before[j] == i as usize);
                    }
                }
            }
            true
        }
    }

    /// The content of frame `frame_index`, if the frame exists.
    pub fn bytes(&self, frame_index: usize) -> (content: Option<&Vec<u8>>)
        ensures
            content.is_some() == (frame_index < self.spec_capacity()),
            content.is_some() ==> content.unwrap()@ == self@.frames[frame_index as int],
    {
        if frame_index < self.frames.len() {
            Some(&self.frames[frame_index])
        } else {
            None
        }
    }

    /// The content of a frame that exists.
    pub(crate) fn frame(&self, frame_index: usize) -> (content: &Vec<u8>)
        requires
            frame_index < self.spec_capacity(),
        ensures
            content@ == self@.frames[frame_index as int],
    {
        &self.frames[frame_index]
    }

    /// Replaces the whole content of frame `frame_index` by `data`, which
    /// must be exactly one page long.
    pub fn store(&mut self, frame_index: usize, data: Vec<u8>) -> (stored: bool)
        requires
            old(self).wf(),
        ensures
            final(self).wf(),
            final(self)@.page_size == old(self)@.page_size,
            final(self)@.free == old(self)@.free,
            stored == (frame_index < old(self).spec_capacity() && data@.len() == old(
                self,
            )@.page_size),
            stored ==> final(self)@.frames == old(self)@.frames.update(frame_index as int, data@),
            !stored ==> final(self)@.frames == old(self)@.frames,
    {
        if frame_index < self.frames.len() && data.len() == self.page_size {
            self.frames.set(frame_index, data);
            proof {
                assert(self@.frames =~= old(self)@.frames.update(frame_index as int, data@));
            }
            true
        } else {
            proof {
                assert(self@.frames =~= old(self)@.frames);
            }
            false
        }
    }

    /// Writes `data` into frame `frame_index` from byte `offset` on; a
    /// write that would leave the frame is refused.
    pub fn write_at(&mut self, frame_index: usize, offset: usize, data: &Vec<u8>) -> (written:
        bool)
        requires
            old(self).wf(),
        ensures
            final(self).wf(),
            final(self)@.page_size == old(self)@.page_size,
            final(self)@.free == old(self)@.free,
            written == (frame_index < old(self).spec_capacity() && offset + data@.len() <= old(
                self,
            )@.page_size),
            written ==> final(self)@.frames == old(self)@.frames.update(
                frame_index as int,
                overwritten(old(self)@.frames[frame_index as int], offset as int, data@),
            ),
            !written ==> final(self)@.frames == old(self)@.frames,
    {
        if frame_index >= self.frames.len() || offset > self.page_size || data.len()
            > self.page_size - offset {
            proof {
                assert(self@.frames =~= old(self)@.frames);
            }
            return false;
        }
        let ghost before = self.frames@[frame_index as int]@;
        assert(before == self@.frames[frame_index as int]);
        let mut frame: Vec<u8> = Vec::new();
        let mut i: usize = 0;
        while i < self.page_size
            invariant
                i <= self.page_size,
                frame_index < self.frames@.len(),
                self.frames@[frame_index as int]@ == before,
                before.len() == self.page_size,
                offset + data@.len() <= self.page_size,
                frame@.len() == i,
                forall|b: int|
                    0 <= b < i ==> #[trigger] frame@[b] == overwritten(
                        before,
                        offset as int,
                        data@,
                    )[b],
            decreases self.page_size - i,
        {
            if offset <= i && i - offset < data.len() {
                frame.push(data[i - offset]);
            } else {
                frame.push(self.frames[frame_index][i]);
            }
            i = i + 1;
        }
        assert(frame@ =~= overwritten(before, offset as int, data@));
        self.frames.set(frame_index, frame);
        proof {
            assert(self@.frames =~= old(self)@.frames.update(
                frame_index as int,
                overwritten(old(self)@.frames[frame_index as int], offset as int, data@),
            ));
        }
        true
    }
}

} // verus!
