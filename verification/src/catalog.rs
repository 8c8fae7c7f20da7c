//! The page catalog: which pages are resident, in which frame, and how
//! they are pinned.

use crate::error::PoolError;
use crate::page::{most_recent, Page, PageView};
use crate::policy::{all_pinned, evicts_before, goes_first, is_victim};
use crate::skip::{entries_of, skip_get, skip_insert, skip_keys, skip_len, skip_new, skip_remove};
use crossbeam_skiplist::SkipMap;
use vstd::prelude::*;

verus! {

/// The single source of truth for residency, keyed by page identifier.
pub struct Catalog {
    entries: SkipMap<u64, Page>,
    k: usize,
}

/// The entry that [`Catalog::insert`] files for a page that has just been loaded.
pub open spec fn fresh_entry(page_id: u64, frame_index: usize) -> PageView {
    PageView { page_id, frame_index, pin_count: 0, is_dirty: false, history: Seq::empty() }
}

impl View for Catalog {
    type V = Map<u64, PageView>;

    closed spec fn view(&self) -> Map<u64, PageView> {
        entries_of(self.entries)
    }
}

impl Catalog {
    /// The number of access timestamps kept per page (the K of LRU-K).
    pub closed spec fn history_depth(&self) -> nat {
        self.k as nat
    }

    /// Every entry is filed under its own identifier and keeps no more than
    /// `history_depth` timestamps; the catalog is finite.
    pub open spec fn wf(&self) -> bool {
        &&& self.history_depth() >= 1
        &&& self@.dom().finite()
        &&& forall|pid: u64| #[trigger]
            self@.contains_key(pid) ==> self@[pid].page_id == pid && self@[pid].history.len()
                <= self.history_depth()
    }

    /// An empty catalog that keeps `history_depth` timestamps per page; a
    /// depth of zero is refused.
    pub fn new(history_depth: usize) -> (made: Option<Catalog>)
        ensures
            made.is_some() == (history_depth >= 1),
            made.is_some() ==> made.unwrap().wf() && made.unwrap()@ == Map::<
                u64,
                PageView,
            >::empty() && made.unwrap().history_depth() == history_depth,
    {
        if history_depth == 0 {
            None
        } else {
            let catalog = Catalog { entries: skip_new(), k: history_depth };
            assert(catalog@ =~= Map::<u64, PageView>::empty());
            Some(catalog)
        }
    }

    /// The configured history depth.
    pub fn depth(&self) -> (k: usize)
        ensures
            k == self.history_depth(),
    {
        self.k
    }

    /// The number of resident pages.
    pub fn len(&self) -> (count: usize)
        ensures
            count == self@.dom().len(),
    {
        skip_len(&self.entries)
    }

    /// Whether `page_id` is resident.
    pub fn contains(&self, page_id: u64) -> (resident: bool)
        ensures
            resident == self@.contains_key(page_id),
    {
        skip_get(&self.entries, page_id).is_some()
    }

    /// A copy of the entry of `page_id`, if the page is resident. No I/O.
    pub fn lookup(&self, page_id: u64) -> (found: Option<Page>)
        ensures
            found.is_some() == self@.contains_key(page_id),
            found.is_some() ==> found.unwrap()@ == self@[page_id],
    {
        skip_get(&self.entries, page_id)
    }

    /// Files a fresh entry binding `page_id` to `frame_index`; refused when
    /// the page is already resident.
    pub fn insert(&mut self, page_id: u64, frame_index: usize) -> (done: Result<(), PoolError>)
        requires
            old(self).wf(),
        ensures
            final(self).wf(),
            final(self).history_depth() == old(self).history_depth(),
            done.is_err() == old(self)@.contains_key(page_id),
            done.is_err() ==> done == Err::<(), PoolError>(PoolError::AlreadyResident)
                && final(self)@ == old(self)@,
            done.is_ok() ==> final(self)@ == old(self)@.insert(
                page_id,
                fresh_entry(page_id, frame_index),
            ),
    {
        if skip_get(&self.entries, page_id).is_some() {
            Err(PoolError::AlreadyResident)
        } else {
            let entry = Page {
                page_id,
                frame_index,
                pin_count: 0,
                is_dirty: false,
                access_history: Vec::new(),
            };
            skip_insert(&mut self.entries, page_id, entry);
            Ok(())
        }
    }

    /// Takes the entry of `page_id` out of the catalog and returns its
    /// frame; refused while the page is pinned.
    pub fn remove(&mut self, page_id: u64) -> (done: Result<usize, PoolError>)
        requires
            old(self).wf(),
        ensures
            final(self).wf(),
            final(self).history_depth() == old(self).history_depth(),
            match done {
                Ok(frame_index) => {
                    &&& old(self)@.contains_key(page_id)
                    &&& old(self)@[page_id].pin_count == 0
                    &&& frame_index == old(self)@[page_id].frame_index
                    &&& final(self)@ == old(self)@.remove(page_id)
                },
                Err(e) => {
                    &&& final(self)@ == old(self)@
                    &&& e == if old(self)@.contains_key(page_id) {
                        PoolError::PinnedEvictionAttempt
                    } else {
                        PoolError::NotResident
                    }
                    &&& old(self)@.contains_key(page_id) ==> old(self)@[page_id].pin_count > 0
                },
            },
    {
        match skip_get(&self.entries, page_id) {
            None => Err(PoolError::NotResident),
            Some(entry) => {
                if entry.pin_count > 0 {
                    Err(PoolError::PinnedEvictionAttempt)
                } else {
                    let _ = skip_remove(&mut self.entries, page_id);
                    Ok(entry.frame_index)
                }
            },
        }
    }

    /// Adds one pin to `page_id`.
    pub fn pin(&mut self, page_id: u64) -> (done: Result<(), PoolError>)
        requires
            old(self).wf(),
        ensures
            final(self).wf(),
            final(self).history_depth() == old(self).history_depth(),
            match done {
                Ok(_) => {
                    &&& old(self)@.contains_key(page_id)
                    &&& old(self)@[page_id].pin_count < u32::MAX
                    &&& final(self)@ == old(self)@.insert(
                        page_id,
                        PageView {
                            pin_count: (old(self)@[page_id].pin_count + 1) as u32,
                            ..old(self)@[page_id]
                        },
                    )
                },
                Err(e) => {
                    &&& final(self)@ == old(self)@
                    &&& e == if old(self)@.contains_key(page_id) {
                        PoolError::PinLimit
                    } else {
                        PoolError::NotResident
                    }
                    &&& old(self)@.contains_key(page_id) ==> old(self)@[page_id].pin_count
                        == u32::MAX
                },
            },
    {
        match skip_get(&self.entries, page_id) {
            None => Err(PoolError::NotResident),
            Some(entry) => {
                if entry.pin_count == u32::MAX {
                    Err(PoolError::PinLimit)
                } else {
                    let mut entry = entry;
                    entry.pin_count = entry.pin_count + 1;
                    skip_insert(&mut self.entries, page_id, entry);
                    Ok(())
                }
            },
        }
    }

    /// Takes one pin off `page_id`; a page without pins, resident or not,
    /// reports `UnbalancedPin` and stays as it is.
    pub fn unpin(&mut self, page_id: u64) -> (done: Result<(), PoolError>)
        requires
            old(self).wf(),
        ensures
            final(self).wf(),
            final(self).history_depth() == old(self).history_depth(),
            done.is_ok() == (old(self)@.contains_key(page_id) && old(self)@[page_id].pin_count
                > 0),
            done.is_ok() ==> final(self)@ == old(self)@.insert(
                page_id,
                PageView {
                    pin_count: (old(self)@[page_id].pin_count - 1) as u32,
                    ..old(self)@[page_id]
                },
            ),
            done.is_err() ==> done == Err::<(), PoolError>(PoolError::UnbalancedPin)
                && final(self)@ == old(self)@,
    {
        match skip_get(&self.entries, page_id) {
            None => Err(PoolError::UnbalancedPin),
            Some(entry) => {
                if entry.pin_count == 0 {
                    Err(PoolError::UnbalancedPin)
                } else {
                    let mut entry = entry;
                    entry.pin_count = entry.pin_count - 1;
                    skip_insert(&mut self.entries, page_id, entry);
                    Ok(())
                }
            },
        }
    }

    /// Sets the dirty flag of `page_id` to `dirty`.
    fn set_dirty(&mut self, page_id: u64, dirty: bool) -> (done: Result<(), PoolError>)
        requires
            old(self).wf(),
        ensures
            final(self).wf(),
            final(self).history_depth() == old(self).history_depth(),
            done.is_ok() == old(self)@.contains_key(page_id),
            done.is_ok() ==> final(self)@ == old(self)@.insert(
                page_id,
                PageView { is_dirty: dirty, ..old(self)@[page_id] },
            ),
            done.is_err() ==> done == Err::<(), PoolError>(PoolError::NotResident)
                && final(self)@ == old(self)@,
    {
        match skip_get(&self.entries, page_id) {
            None => Err(PoolError::NotResident),
            Some(entry) => {
                let mut entry = entry;
                entry.is_dirty = dirty;
                skip_insert(&mut self.entries, page_id, entry);
                Ok(())
            },
        }
    }

    /// Records that the in-memory content of `page_id` differs from the store.
    pub fn mark_dirty(&mut self, page_id: u64) -> (done: Result<(), PoolError>)
        requires
            old(self).wf(),
        ensures
            final(self).wf(),
            final(self).history_depth() == old(self).history_depth(),
            done.is_ok() == old(self)@.contains_key(page_id),
            done.is_ok() ==> final(self)@ == old(self)@.insert(
                page_id,
                PageView { is_dirty: true, ..old(self)@[page_id] },
            ),
            done.is_err() ==> done == Err::<(), PoolError>(PoolError::NotResident)
                && final(self)@ == old(self)@,
    {
        self.set_dirty(page_id, true)
    }

    /// Records that the content of `page_id` has reached the store.
    pub fn clear_dirty(&mut self, page_id: u64) -> (done: Result<(), PoolError>)
        requires
            old(self).wf(),
        ensures
            final(self).wf(),
            final(self).history_depth() == old(self).history_depth(),
            done.is_ok() == old(self)@.contains_key(page_id),
            done.is_ok() ==> final(self)@ == old(self)@.insert(
                page_id,
                PageView { is_dirty: false, ..old(self)@[page_id] },
            ),
            done.is_err() ==> done == Err::<(), PoolError>(PoolError::NotResident)
                && final(self)@ == old(self)@,
    {
        self.set_dirty(page_id, false)
    }

    /// Appends `timestamp` to the access history of `page_id`, dropping the
    /// oldest timestamp once `history_depth` are on record.
    pub fn record_access(&mut self, page_id: u64, timestamp: u64) -> (done: Result<
        (),
        PoolError,
    >)
        requires
            old(self).wf(),
        ensures
            final(self).wf(),
            final(self).history_depth() == old(self).history_depth(),
            done.is_ok() == old(self)@.contains_key(page_id),
            done.is_ok() ==> final(self)@ == old(self)@.insert(
                page_id,
                PageView {
                    history: most_recent(
                        old(self)@[page_id].history.push(timestamp),
                        old(self).history_depth(),
                    ),
                    ..old(self)@[page_id]
                },
            ),
            done.is_err() ==> done == Err::<(), PoolError>(PoolError::NotResident)
                && final(self)@ == old(self)@,
    {
        match skip_get(&self.entries, page_id) {
            None => Err(PoolError::NotResident),
            Some(entry) => {
                let mut entry = entry;
                entry.record_access(timestamp, self.k);
                skip_insert(&mut self.entries, page_id, entry);
                Ok(())
            },
        }
    }

    /// The unpinned page that LRU-K evicts first, or `None` when every
    /// resident page is pinned.
    pub fn select_victim(&self) -> (victim: Option<u64>)
        requires
            self.wf(),
        ensures
            match victim {
                Some(v) => is_victim(self@, self.history_depth(), v),
                None => all_pinned(self@),
            },
    {
        let keys = skip_keys(&self.entries);
        let mut best: Option<Page> = None;
        let mut i: usize = 0;
        while i < keys.len()
            invariant
                i <= keys.len(),
                self.wf(),
                forall|key: u64| keys@.contains(key) <==> self@.contains_key(key),
                match best {
                    Some(b) => {
                        &&& self@.contains_key(b.page_id)
                        &&& b@ == self@[b.page_id]
                        &&& b.pin_count == 0
                        &&& forall|j: int|
                            0 <= j < i && self@[#[trigger] keys@[j]].pin_count == 0 && keys@[j]
                                != b.page_id ==> evicts_before(
                                b@,
                                self@[keys@[j]],
                                self.history_depth(),
                            )
                    },
                    None => forall|j: int|
                        0 <= j < i ==> self@[#[trigger] keys@[j]].pin_count > 0,
                },
            decreases keys.len() - i,
        {
            let key: u64 = keys[i];
            assert(keys@.contains(key));
            match skip_get(&self.entries, key) {
                Some(entry) => {
                    if entry.pin_count == 0 {
                        let replace: bool = match &best {
                            Some(b) => goes_first(&entry, b, self.k),
                            None => true,
                        };
                        if replace {
                            best = Some(entry);
                        }
                    }
                },
                None => {},
            }
            i = i + 1;
        }
        match best {
            Some(b) => {
                assert forall|q: u64|
                    self@.contains_key(q) && self@[q].pin_count == 0 && q != b.page_id
                    implies evicts_before(
                    self@[b.page_id],
                    #[trigger] self@[q],
                    self.history_depth(),
                ) by {
                    assert(keys@.contains(q));
                    let j = choose|j: int| 0 <= j < keys@.len() && keys@[j] == q;
                    assert(self@[keys@[j]].pin_count == 0);
                }
                Some(b.page_id)
            },
            None => {
                assert forall|q: u64| self@.contains_key(q) implies (#[trigger] self@[q]).pin_count
                    > 0 by {
                    assert(keys@.contains(q));
                    let j = choose|j: int| 0 <= j < keys@.len() && keys@[j] == q;
                    assert(self@[keys@[j]].pin_count > 0);
                }
                None
            },
        }
    }
}

} // verus!
