//! Error taxonomy of the pool and its components.

use vstd::prelude::*;

verus! {

/// Why a block transfer did not deliver a whole page.
#[derive(Debug, Clone, Copy, PartialEq, Eq)]
pub enum IoCause {
    /// The device reported a negative status code.
    Device { code: i32 },
    /// The device transferred fewer bytes than one page.
    ShortTransfer { transferred: usize, expected: usize },
    /// The byte offset of the page does not fit the device's address range.
    OffsetOverflow,
}

/// Everything a pool operation can report instead of its result.
#[derive(Debug, Clone, Copy, PartialEq, Eq)]
pub enum PoolError {
    /// No free frame and no unpinned page to evict; release a pin and retry.
    PoolExhausted,
    /// A read or write of `page_id` failed; the pool never retries by itself.
    IoFailure { page_id: u64, cause: IoCause },
    /// The submission queue is full; drain completions and retry.
    QueueSaturated,
    /// An entry with live pins was asked to leave the catalog.
    PinnedEvictionAttempt,
    /// A pin was released that nobody held.
    UnbalancedPin,
    /// A caller-side wait exceeded its deadline; the I/O is still owned by the device.
    Timeout,
    /// The page has no catalog entry.
    NotResident,
    /// The page already has a catalog entry.
    AlreadyResident,
    /// The pin counter of the page is at its machine limit.
    PinLimit,
    /// No transfer of the reported kind is outstanding under the token.
    UnknownToken,
    /// The page is not waiting for another attempt to write it back.
    NotHeld,
}

} // verus!
