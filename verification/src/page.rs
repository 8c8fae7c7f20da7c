//! The catalog's per-page record and its bounded access history.

use vstd::prelude::*;

verus! {

/// Size in bytes of one page in the default configuration.
pub const PAGE_SIZE: usize = 4096;

/// Metadata of one resident page.
#[derive(Debug, Clone)]
pub struct Page {
    pub page_id: u64,
    pub frame_index: usize,
    pub pin_count: u32,
    pub is_dirty: bool,
    /// The most recent access timestamps, oldest first.
    pub access_history: Vec<u64>,
}

/// Mathematical value of a [`Page`].
pub struct PageView {
    pub page_id: u64,
    pub frame_index: usize,
    pub pin_count: u32,
    pub is_dirty: bool,
    pub history: Seq<u64>,
}

impl View for Page {
    type V = PageView;

    open spec fn view(&self) -> PageView {
        PageView {
            page_id: self.page_id,
            frame_index: self.frame_index,
            pin_count: self.pin_count,
            is_dirty: self.is_dirty,
            history: self.access_history@,
        }
    }
}

/// The last `k` elements of `s`, or all of `s` when it has no more than `k`.
pub open spec fn most_recent(s: Seq<u64>, k: nat) -> Seq<u64> {
    if s.len() <= k {
        s
    } else {
        s.subrange(s.len() - k, s.len() as int)
    }
}

impl Page {
    /// A clean, unpinned record for page 0 in frame 0 with no recorded access.
    pub fn new() -> (p: Page)
        ensures
            p@ == (PageView {
                page_id: 0,
                frame_index: 0,
                pin_count: 0,
                is_dirty: false,
                history: Seq::empty(),
            }),
    {
        Page {
            page_id: 0,
            frame_index: 0,
            pin_count: 0,
            is_dirty: false,
            access_history: Vec::new(),
        }
    }

    /// The same record under another page identifier.
    pub fn with_page_id(self, page_id: u64) -> (p: Page)
        ensures
            p@ == (PageView { page_id, ..self@ }),
    {
        Page { page_id, ..self }
    }

    /// The same record bound to another frame.
    pub fn with_frame_index(self, frame_index: usize) -> (p: Page)
        ensures
            p@ == (PageView { frame_index, ..self@ }),
    {
        Page { frame_index, ..self }
    }

    /// The same record with another number of pins.
    pub fn with_pin_count(self, pin_count: u32) -> (p: Page)
        ensures
            p@ == (PageView { pin_count, ..self@ }),
    {
        Page { pin_count, ..self }
    }

    /// The same record with the dirty flag set to `is_dirty`.
    pub fn with_is_dirty(self, is_dirty: bool) -> (p: Page)
        ensures
            p@ == (PageView { is_dirty, ..self@ }),
    {
        Page { is_dirty, ..self }
    }

    /// The same record with another access history.
    pub fn with_access_history(self, access_history: Vec<u64>) -> (p: Page)
        ensures
            p@ == (PageView { history: access_history@, ..self@ }),
    {
        Page { access_history, ..self }
    }

    /// Appends `timestamp` to the history and keeps only the `k` most recent entries.
    pub fn record_access(&mut self, timestamp: u64, k: usize)
        ensures
            final(self)@ == (PageView {
                history: most_recent(old(self)@.history.push(timestamp), k as nat),
                ..old(self)@
            }),
    {
        self.access_history.push(timestamp);
        let ghost full = self.access_history@;
        while self.access_history.len() > k
            invariant
                self.page_id == old(self).page_id,
                self.frame_index == old(self).frame_index,
                self.pin_count == old(self).pin_count,
                self.is_dirty == old(self).is_dirty,
                full == old(self)@.history.push(timestamp),
                self.access_history@.len() <= full.len(),
                self.access_history@.len() >= k || self.access_history@.len() == full.len(),
                self.access_history@ == full.subrange(
                    full.len() - self.access_history@.len(),
                    full.len() as int,
                ),
            decreases self.access_history.len(),
        {
            self.access_history.remove(0);
        }
        assert(self.access_history@ =~= most_recent(full, k as nat));
    }
}

} // verus!
