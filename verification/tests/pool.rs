use bufpool::buffer_pool::{BufferPool, Completed, FetchStep, Mode, PageHandle};
use bufpool::error::{IoCause, PoolError};
use bytes::Bytes;
use std::collections::HashMap;

const PAGE: usize = 8;

fn image(page_id: u64) -> Vec<u8> {
    (0..PAGE).map(|i| (page_id as u8).wrapping_mul(16).wrapping_add(i as u8)).collect()
}

fn disk_with(pages: &[u64]) -> HashMap<u64, Vec<u8>> {
    pages.iter().map(|p| (*p, image(*p))).collect()
}

/// Runs one fetch to its end against `disk`, with no other caller around.
fn fetch(
    pool: &mut BufferPool,
    disk: &mut HashMap<u64, Vec<u8>>,
    page_id: u64,
    mode: Mode,
    now: u64,
) -> Result<PageHandle, PoolError> {
    loop {
        match pool.get_page(page_id, mode, now)? {
            FetchStep::Ready(handle) => return Ok(handle),
            FetchStep::Wait { token } => panic!("nobody else is fetching, yet told to wait for {}", token),
            FetchStep::Busy => panic!("page {} is held by somebody else", page_id),
            FetchStep::Load { token, page_id: loaded, offset, len, .. } => {
                assert_eq!(offset, loaded * len as u64);
                let bytes = disk.get(&loaded).cloned().unwrap_or(vec![0u8; len]);
                match pool.complete_read(token, len as i32, Bytes::from(bytes), now)? {
                    Completed::Loaded(handle) => return Ok(handle),
                    other => panic!("a read completed as {:?}", other),
                }
            }
            FetchStep::Flush { token, victim, offset, data, .. } => {
                assert_eq!(offset, victim * data.len() as u64);
                disk.insert(victim, data.to_vec());
                pool.complete_write(token, data.len(), data.len() as i32)?;
            }
        }
    }
}

#[test]
fn zero_history_depth_makes_no_pool() {
    assert!(BufferPool::new(4, PAGE, 0, 8).is_none());
    assert!(BufferPool::new(4, PAGE, 1, 8).is_some());
}

#[test]
fn new_pool_is_empty() {
    let pool = BufferPool::new(4, PAGE, 2, 8).unwrap();
    assert_eq!(pool.capacity(), 4);
    assert_eq!(pool.page_size(), PAGE);
    assert_eq!(pool.resident_count(), 0);
    assert!(!pool.is_resident(0));
}

#[test]
fn miss_loads_into_the_first_free_frame() {
    let mut pool = BufferPool::new(2, PAGE, 2, 8).unwrap();
    let step = pool.get_page(5, Mode::Shared, 1).unwrap();
    assert_eq!(
        step,
        FetchStep::Load {
            token: 0,
            page_id: 5,
            frame_index: 0,
            offset: 5 * PAGE as u64,
            len: PAGE,
            evicted: None,
        }
    );
    assert!(!pool.is_resident(5));
    let done = pool.complete_read(0, PAGE as i32, Bytes::from(image(5)), 1);
    let handle = PageHandle { page_id: 5, frame_index: 0, mode: Mode::Shared };
    assert_eq!(done, Ok(Completed::Loaded(handle)));
    assert!(pool.is_resident(5));
    assert_eq!(pool.resident_count(), 1);
    assert_eq!(pool.bytes(&handle), Some(&image(5)));
}

#[test]
fn hit_returns_at_once_and_pins() {
    let mut pool = BufferPool::new(2, PAGE, 2, 8).unwrap();
    let mut disk = disk_with(&[5]);
    let first = fetch(&mut pool, &mut disk, 5, Mode::Shared, 1).unwrap();
    let step = pool.get_page(5, Mode::Shared, 2).unwrap();
    let second = PageHandle { page_id: 5, frame_index: first.frame_index, mode: Mode::Shared };
    assert_eq!(step, FetchStep::Ready(second));
    assert_eq!(pool.entry(5).unwrap().pin_count, 2);
    assert_eq!(pool.release(first), Ok(()));
    assert_eq!(pool.release(second), Ok(()));
    assert_eq!(pool.release(second), Err(PoolError::UnbalancedPin));
}

#[test]
fn release_of_an_unpinned_handle_signals_unbalanced_pin() {
    let mut pool = BufferPool::new(2, PAGE, 2, 8).unwrap();
    let mut disk = disk_with(&[5]);
    let handle = fetch(&mut pool, &mut disk, 5, Mode::Shared, 1).unwrap();
    assert!(pool.holds(&handle));
    assert_eq!(pool.release(handle), Ok(()));
    assert!(!pool.holds(&handle));
    assert_eq!(pool.release(handle), Err(PoolError::UnbalancedPin));
    assert_eq!(pool.release(handle), Err(PoolError::UnbalancedPin));
    assert!(pool.is_resident(5));
    let again = fetch(&mut pool, &mut disk, 5, Mode::Shared, 2).unwrap();
    assert_eq!(pool.release(again), Ok(()));
    assert_eq!(pool.release(again), Err(PoolError::UnbalancedPin));
}

#[test]
fn release_of_a_handle_to_a_missing_page_is_refused() {
    let mut pool = BufferPool::new(2, PAGE, 2, 8).unwrap();
    let stray = PageHandle { page_id: 9, frame_index: 0, mode: Mode::Shared };
    assert_eq!(pool.release(stray), Err(PoolError::UnbalancedPin));
    assert_eq!(pool.mark_dirty(&stray), Err(PoolError::UnbalancedPin));
    assert_eq!(pool.bytes(&stray), None);
    assert!(!pool.write(&stray, 0, &vec![1]));
}

#[test]
fn stale_handle_to_another_frame_is_refused() {
    let mut pool = BufferPool::new(2, PAGE, 2, 8).unwrap();
    let mut disk = disk_with(&[5]);
    let handle = fetch(&mut pool, &mut disk, 5, Mode::Shared, 1).unwrap();
    let stale = PageHandle { page_id: 5, frame_index: handle.frame_index + 1, mode: Mode::Shared };
    assert_eq!(pool.release(stale), Err(PoolError::UnbalancedPin));
    assert_eq!(pool.release(handle), Ok(()));
}

#[test]
fn resident_pages_never_exceed_capacity() {
    let mut pool = BufferPool::new(3, PAGE, 2, 8).unwrap();
    let mut disk = disk_with(&[]);
    for round in 0..40u64 {
        let page_id = (round * 7) % 11;
        let handle = fetch(&mut pool, &mut disk, page_id, Mode::Shared, round).unwrap();
        assert!(pool.resident_count() <= pool.capacity());
        assert!(pool.is_resident(page_id));
        assert_eq!(pool.release(handle), Ok(()));
    }
    assert_eq!(pool.resident_count(), 3);
}

#[test]
fn frames_of_resident_pages_are_distinct() {
    let mut pool = BufferPool::new(3, PAGE, 2, 8).unwrap();
    let mut disk = disk_with(&[]);
    let a = fetch(&mut pool, &mut disk, 1, Mode::Shared, 1).unwrap();
    let b = fetch(&mut pool, &mut disk, 2, Mode::Shared, 2).unwrap();
    let c = fetch(&mut pool, &mut disk, 3, Mode::Shared, 3).unwrap();
    assert_ne!(a.frame_index, b.frame_index);
    assert_ne!(a.frame_index, c.frame_index);
    assert_ne!(b.frame_index, c.frame_index);
    pool.release(b).unwrap();
    let d = fetch(&mut pool, &mut disk, 4, Mode::Shared, 4).unwrap();
    assert_eq!(d.frame_index, b.frame_index);
    assert!(!pool.is_resident(2));
}

#[test]
fn all_pages_pinned_is_pool_exhaustion() {
    let mut pool = BufferPool::new(2, PAGE, 2, 8).unwrap();
    let mut disk = disk_with(&[1, 2, 3]);
    let a = fetch(&mut pool, &mut disk, 1, Mode::Shared, 1).unwrap();
    let _b = fetch(&mut pool, &mut disk, 2, Mode::Shared, 2).unwrap();
    assert_eq!(pool.get_page(3, Mode::Shared, 3), Err(PoolError::PoolExhausted));
    assert_eq!(pool.get_page(3, Mode::Shared, 4), Err(PoolError::PoolExhausted));
    assert!(pool.is_resident(1));
    assert!(pool.is_resident(2));
    assert_eq!(pool.resident_count(), 2);
    pool.release(a).unwrap();
    let c = fetch(&mut pool, &mut disk, 3, Mode::Shared, 5).unwrap();
    assert_eq!(c.frame_index, a.frame_index);
    assert!(!pool.is_resident(1));
    assert!(pool.is_resident(2));
}

#[test]
fn pool_without_frames_is_exhausted() {
    let mut pool = BufferPool::new(0, PAGE, 2, 8).unwrap();
    assert_eq!(pool.get_page(3, Mode::Shared, 3), Err(PoolError::PoolExhausted));
}

#[test]
fn clean_victim_leaves_without_a_write() {
    let mut pool = BufferPool::new(2, PAGE, 2, 8).unwrap();
    let mut disk = disk_with(&[1, 2, 3]);
    let a = fetch(&mut pool, &mut disk, 1, Mode::Shared, 1).unwrap();
    let b = fetch(&mut pool, &mut disk, 2, Mode::Shared, 2).unwrap();
    pool.release(a).unwrap();
    pool.release(b).unwrap();
    let step = pool.get_page(3, Mode::Shared, 3).unwrap();
    assert_eq!(
        step,
        FetchStep::Load {
            token: 2,
            page_id: 3,
            frame_index: a.frame_index,
            offset: 3 * PAGE as u64,
            len: PAGE,
            evicted: Some(1),
        }
    );
    assert!(!pool.is_resident(1));
    assert_eq!(pool.resident_count(), 1);
}

#[test]
fn eviction_follows_lru_k() {
    let mut pool = BufferPool::new(3, PAGE, 2, 8).unwrap();
    let mut disk = disk_with(&[]);
    let a1 = fetch(&mut pool, &mut disk, 10, Mode::Shared, 1).unwrap();
    let b = fetch(&mut pool, &mut disk, 11, Mode::Shared, 2).unwrap();
    let c1 = fetch(&mut pool, &mut disk, 12, Mode::Shared, 3).unwrap();
    let c2 = fetch(&mut pool, &mut disk, 12, Mode::Shared, 4).unwrap();
    let a2 = fetch(&mut pool, &mut disk, 10, Mode::Shared, 5).unwrap();
    let a3 = fetch(&mut pool, &mut disk, 10, Mode::Shared, 9).unwrap();
    for handle in [a1, a2, a3, b, c1, c2] {
        pool.release(handle).unwrap();
    }
    let d = fetch(&mut pool, &mut disk, 13, Mode::Shared, 10).unwrap();
    assert!(!pool.is_resident(11));
    assert!(pool.is_resident(10) && pool.is_resident(12));
    pool.release(d).unwrap();
    let e = fetch(&mut pool, &mut disk, 14, Mode::Shared, 11).unwrap();
    assert!(!pool.is_resident(13));
    pool.release(e).unwrap();
    fetch(&mut pool, &mut disk, 15, Mode::Shared, 12).unwrap();
    assert!(!pool.is_resident(14));
    assert!(pool.is_resident(10) && pool.is_resident(12));
}

#[test]
fn written_bytes_survive_eviction() {
    let mut pool = BufferPool::new(1, PAGE, 2, 8).unwrap();
    let mut disk = disk_with(&[1, 2]);
    let writer = fetch(&mut pool, &mut disk, 1, Mode::Exclusive, 1).unwrap();
    assert!(pool.write(&writer, 2, &vec![0xAA, 0xBB, 0xCC]));
    assert_eq!(pool.mark_dirty(&writer), Ok(()));
    let mut expected = image(1);
    expected[2] = 0xAA;
    expected[3] = 0xBB;
    expected[4] = 0xCC;
    assert_eq!(pool.bytes(&writer), Some(&expected));
    pool.release(writer).unwrap();

    let step = pool.get_page(2, Mode::Shared, 2).unwrap();
    let (token, data) = match step {
        FetchStep::Flush { token, victim, frame_index, offset, data } => {
            assert_eq!(victim, 1);
            assert_eq!(frame_index, 0);
            assert_eq!(offset, PAGE as u64);
            (token, data)
        }
        other => panic!("expected a write-back, got {:?}", other),
    };
    assert_eq!(data.to_vec(), expected);
    assert!(pool.is_resident(1));
    disk.insert(1, data.to_vec());
    assert_eq!(pool.complete_write(token, PAGE, PAGE as i32), Ok(Completed::Evicted { page_id: 1 }));
    assert!(!pool.is_resident(1));

    let other = fetch(&mut pool, &mut disk, 2, Mode::Shared, 3).unwrap();
    assert_eq!(pool.bytes(&other), Some(&image(2)));
    pool.release(other).unwrap();

    let reader = fetch(&mut pool, &mut disk, 1, Mode::Shared, 4).unwrap();
    assert_eq!(pool.bytes(&reader), Some(&expected));
}

#[test]
fn shared_handle_cannot_write() {
    let mut pool = BufferPool::new(1, PAGE, 2, 8).unwrap();
    let mut disk = disk_with(&[1]);
    let reader = fetch(&mut pool, &mut disk, 1, Mode::Shared, 1).unwrap();
    assert!(!pool.write(&reader, 0, &vec![1, 2, 3]));
    assert_eq!(pool.bytes(&reader), Some(&image(1)));
}

#[test]
fn write_outside_the_page_is_refused() {
    let mut pool = BufferPool::new(1, PAGE, 2, 8).unwrap();
    let mut disk = disk_with(&[1]);
    let writer = fetch(&mut pool, &mut disk, 1, Mode::Exclusive, 1).unwrap();
    assert!(!pool.write(&writer, PAGE - 1, &vec![1, 2]));
    assert!(pool.write(&writer, PAGE - 1, &vec![1]));
    let mut expected = image(1);
    expected[PAGE - 1] = 1;
    assert_eq!(pool.bytes(&writer), Some(&expected));
}

#[test]
fn second_fetch_of_a_loading_page_waits() {
    let mut pool = BufferPool::new(2, PAGE, 2, 8).unwrap();
    let first = pool.get_page(5, Mode::Shared, 1).unwrap();
    let token = match first {
        FetchStep::Load { token, .. } => token,
        other => panic!("expected a read, got {:?}", other),
    };
    assert_eq!(pool.get_page(5, Mode::Shared, 2), Ok(FetchStep::Wait { token }));
    assert_eq!(pool.get_page(5, Mode::Exclusive, 3), Ok(FetchStep::Wait { token }));
    let done = pool.complete_read(token, PAGE as i32, Bytes::from(image(5)), 4).unwrap();
    let first_handle = match done {
        Completed::Loaded(handle) => handle,
        other => panic!("expected a loaded page, got {:?}", other),
    };
    let second_handle = match pool.get_page(5, Mode::Shared, 5).unwrap() {
        FetchStep::Ready(handle) => handle,
        other => panic!("expected a hit, got {:?}", other),
    };
    assert_eq!(second_handle.page_id, first_handle.page_id);
    assert_eq!(second_handle.frame_index, first_handle.frame_index);
    assert_eq!(pool.resident_count(), 1);
    // One read was submitted: the next token is the second one.
    match pool.get_page(6, Mode::Shared, 6).unwrap() {
        FetchStep::Load { token: next, .. } => assert_eq!(next, token + 1),
        other => panic!("expected a read, got {:?}", other),
    }
    assert_eq!(pool.release(first_handle), Ok(()));
    assert_eq!(pool.release(second_handle), Ok(()));
    assert_eq!(pool.release(second_handle), Err(PoolError::UnbalancedPin));
}

#[test]
fn second_fetch_during_a_write_back_waits() {
    let mut pool = BufferPool::new(1, PAGE, 2, 8).unwrap();
    let mut disk = disk_with(&[1]);
    let writer = fetch(&mut pool, &mut disk, 1, Mode::Exclusive, 1).unwrap();
    pool.mark_dirty(&writer).unwrap();
    pool.release(writer).unwrap();
    let token = match pool.get_page(2, Mode::Shared, 2).unwrap() {
        FetchStep::Flush { token, .. } => token,
        other => panic!("expected a write-back, got {:?}", other),
    };
    assert_eq!(pool.get_page(2, Mode::Shared, 3), Ok(FetchStep::Wait { token }));
    // The victim is pinned by the pool: a third page finds nothing to evict.
    assert_eq!(pool.get_page(3, Mode::Shared, 3), Err(PoolError::PoolExhausted));
}

#[test]
fn failed_read_leaves_the_page_out_and_frees_the_frame() {
    let mut pool = BufferPool::new(1, PAGE, 2, 8).unwrap();
    let token = match pool.get_page(5, Mode::Shared, 1).unwrap() {
        FetchStep::Load { token, .. } => token,
        other => panic!("expected a read, got {:?}", other),
    };
    assert_eq!(
        pool.complete_read(token, -5, Bytes::new(), 2),
        Err(PoolError::IoFailure { page_id: 5, cause: IoCause::Device { code: -5 } })
    );
    assert!(!pool.is_resident(5));
    assert_eq!(pool.resident_count(), 0);
    match pool.get_page(6, Mode::Shared, 3).unwrap() {
        FetchStep::Load { frame_index, evicted, .. } => {
            assert_eq!(frame_index, 0);
            assert_eq!(evicted, None);
        }
        other => panic!("expected a read, got {:?}", other),
    }
}

#[test]
fn short_read_is_a_failure() {
    let mut pool = BufferPool::new(1, PAGE, 2, 8).unwrap();
    let token = match pool.get_page(5, Mode::Shared, 1).unwrap() {
        FetchStep::Load { token, .. } => token,
        other => panic!("expected a read, got {:?}", other),
    };
    assert_eq!(
        pool.complete_read(token, 3, Bytes::from(vec![1u8, 2, 3]), 2),
        Err(PoolError::IoFailure {
            page_id: 5,
            cause: IoCause::ShortTransfer { transferred: 3, expected: PAGE },
        })
    );
    assert!(!pool.is_resident(5));
    assert_eq!(
        pool.complete_read(token, 0, Bytes::from(image(5)), 3),
        Err(PoolError::UnknownToken)
    );
}

#[test]
fn long_read_installs_the_first_page() {
    let mut pool = BufferPool::new(1, PAGE, 2, 8).unwrap();
    let token = match pool.get_page(5, Mode::Shared, 1).unwrap() {
        FetchStep::Load { token, .. } => token,
        other => panic!("expected a read, got {:?}", other),
    };
    let mut long = image(5);
    long.extend_from_slice(&[9, 9, 9]);
    let handle = match pool.complete_read(token, 0, Bytes::from(long), 2).unwrap() {
        Completed::Loaded(handle) => handle,
        other => panic!("expected a loaded page, got {:?}", other),
    };
    assert_eq!(pool.bytes(&handle), Some(&image(5)));
}

#[test]
fn completion_of_the_wrong_kind_is_refused() {
    let mut pool = BufferPool::new(1, PAGE, 2, 8).unwrap();
    let token = match pool.get_page(5, Mode::Shared, 1).unwrap() {
        FetchStep::Load { token, .. } => token,
        other => panic!("expected a read, got {:?}", other),
    };
    assert_eq!(pool.complete_write(token, PAGE, 0), Err(PoolError::UnknownToken));
    assert_eq!(pool.complete_write(token + 1, PAGE, 0), Err(PoolError::UnknownToken));
    assert_eq!(pool.get_page(5, Mode::Shared, 2), Ok(FetchStep::Wait { token }));
}

#[test]
fn saturated_queue_refuses_a_fetch_and_changes_nothing() {
    let mut pool = BufferPool::new(4, PAGE, 2, 1).unwrap();
    let token = match pool.get_page(1, Mode::Shared, 1).unwrap() {
        FetchStep::Load { token, .. } => token,
        other => panic!("expected a read, got {:?}", other),
    };
    assert_eq!(pool.get_page(2, Mode::Shared, 2), Err(PoolError::QueueSaturated));
    assert_eq!(pool.get_page(2, Mode::Shared, 3), Err(PoolError::QueueSaturated));
    pool.complete_read(token, 0, Bytes::from(image(1)), 4).unwrap();
    match pool.get_page(2, Mode::Shared, 5).unwrap() {
        FetchStep::Load { token: next, frame_index, .. } => {
            assert_eq!(next, token + 1);
            assert_eq!(frame_index, 1);
        }
        other => panic!("expected a read, got {:?}", other),
    }
}

#[test]
fn offset_beyond_the_device_range_is_refused() {
    let mut pool = BufferPool::new(1, PAGE, 2, 8).unwrap();
    assert_eq!(
        pool.get_page(u64::MAX, Mode::Shared, 1),
        Err(PoolError::IoFailure { page_id: u64::MAX, cause: IoCause::OffsetOverflow })
    );
    assert!(matches!(
        pool.get_page(u64::MAX / PAGE as u64, Mode::Shared, 1),
        Ok(FetchStep::Load { .. })
    ));
}

fn pool_with_dirty_page_one() -> BufferPool {
    let mut pool = BufferPool::new(1, PAGE, 2, 8).unwrap();
    let mut disk = disk_with(&[1]);
    let writer = fetch(&mut pool, &mut disk, 1, Mode::Exclusive, 1).unwrap();
    assert!(pool.write(&writer, 0, &vec![7, 7]));
    pool.mark_dirty(&writer).unwrap();
    pool.release(writer).unwrap();
    pool
}

#[test]
fn failed_write_back_keeps_the_page() {
    let mut pool = pool_with_dirty_page_one();
    let token = match pool.get_page(2, Mode::Shared, 2).unwrap() {
        FetchStep::Flush { token, .. } => token,
        other => panic!("expected a write-back, got {:?}", other),
    };
    assert_eq!(
        pool.complete_write(token, 0, -28),
        Err(PoolError::IoFailure { page_id: 1, cause: IoCause::Device { code: -28 } })
    );
    assert!(pool.is_resident(1));
    // The page stays pinned by the pool: nothing can be evicted.
    assert_eq!(pool.get_page(2, Mode::Shared, 3), Err(PoolError::PoolExhausted));
    // A caller can still use it, and cannot release the pool's pin.
    let reader = match pool.get_page(1, Mode::Shared, 4).unwrap() {
        FetchStep::Ready(handle) => handle,
        other => panic!("expected a hit, got {:?}", other),
    };
    assert_eq!(pool.release(reader), Ok(()));
    assert_eq!(pool.release(reader), Err(PoolError::UnbalancedPin));
    assert_eq!(pool.get_page(2, Mode::Shared, 5), Err(PoolError::PoolExhausted));
}

#[test]
fn short_write_back_is_a_failure() {
    let mut pool = pool_with_dirty_page_one();
    let token = match pool.get_page(2, Mode::Shared, 2).unwrap() {
        FetchStep::Flush { token, .. } => token,
        other => panic!("expected a write-back, got {:?}", other),
    };
    assert_eq!(
        pool.complete_write(token, PAGE - 1, 7),
        Err(PoolError::IoFailure {
            page_id: 1,
            cause: IoCause::ShortTransfer { transferred: PAGE - 1, expected: PAGE },
        })
    );
    assert!(pool.is_resident(1));
}

#[test]
fn retried_write_back_evicts_the_page() {
    let mut pool = pool_with_dirty_page_one();
    let token = match pool.get_page(2, Mode::Shared, 2).unwrap() {
        FetchStep::Flush { token, .. } => token,
        other => panic!("expected a write-back, got {:?}", other),
    };
    assert!(pool.complete_write(token, 0, -5).is_err());
    assert_eq!(pool.retry_flush(2), Err(PoolError::NotHeld));
    let (retry, data) = match pool.retry_flush(1).unwrap() {
        FetchStep::Flush { token, victim, data, .. } => {
            assert_eq!(victim, 1);
            (token, data)
        }
        other => panic!("expected a write-back, got {:?}", other),
    };
    let mut expected = image(1);
    expected[0] = 7;
    expected[1] = 7;
    assert_eq!(data.to_vec(), expected);
    assert_eq!(pool.retry_flush(1), Err(PoolError::NotHeld));
    assert_eq!(pool.complete_write(retry, PAGE, 0), Ok(Completed::Evicted { page_id: 1 }));
    assert!(!pool.is_resident(1));
    assert!(matches!(pool.get_page(2, Mode::Shared, 3), Ok(FetchStep::Load { .. })));
}

#[test]
fn retry_is_refused_by_a_saturated_queue() {
    let mut pool = BufferPool::new(2, PAGE, 2, 1).unwrap();
    let mut disk = disk_with(&[1, 2]);
    let writer = fetch(&mut pool, &mut disk, 1, Mode::Exclusive, 1).unwrap();
    pool.mark_dirty(&writer).unwrap();
    pool.release(writer).unwrap();
    let other = fetch(&mut pool, &mut disk, 2, Mode::Shared, 2).unwrap();
    let token = match pool.get_page(3, Mode::Shared, 3).unwrap() {
        FetchStep::Flush { token, victim, .. } => {
            assert_eq!(victim, 1);
            token
        }
        step => panic!("expected a write-back, got {:?}", step),
    };
    assert!(pool.complete_write(token, 0, -5).is_err());
    pool.release(other).unwrap();
    let load = match pool.get_page(3, Mode::Shared, 4).unwrap() {
        FetchStep::Load { token, evicted, .. } => {
            assert_eq!(evicted, Some(2));
            token
        }
        step => panic!("expected a read, got {:?}", step),
    };
    assert_eq!(pool.retry_flush(1), Err(PoolError::QueueSaturated));
    pool.complete_read(load, 0, Bytes::from(image(3)), 5).unwrap();
    assert!(matches!(pool.retry_flush(1), Ok(FetchStep::Flush { .. })));
}

#[test]
fn discarded_page_leaves_without_a_write() {
    let mut pool = pool_with_dirty_page_one();
    let token = match pool.get_page(2, Mode::Shared, 2).unwrap() {
        FetchStep::Flush { token, .. } => token,
        other => panic!("expected a write-back, got {:?}", other),
    };
    assert_eq!(pool.discard(1), None);
    assert!(pool.complete_write(token, 0, -5).is_err());
    assert_eq!(pool.discard(2), None);
    assert_eq!(pool.discard(1), Some(Completed::Evicted { page_id: 1 }));
    assert!(!pool.is_resident(1));
    assert_eq!(pool.discard(1), None);
    assert!(matches!(pool.get_page(2, Mode::Shared, 3), Ok(FetchStep::Load { .. })));
}

#[test]
fn discarded_page_stays_while_a_caller_pins_it() {
    let mut pool = pool_with_dirty_page_one();
    let token = match pool.get_page(2, Mode::Shared, 2).unwrap() {
        FetchStep::Flush { token, .. } => token,
        other => panic!("expected a write-back, got {:?}", other),
    };
    assert!(pool.complete_write(token, 0, -5).is_err());
    let reader = match pool.get_page(1, Mode::Shared, 3).unwrap() {
        FetchStep::Ready(handle) => handle,
        other => panic!("expected a hit, got {:?}", other),
    };
    assert_eq!(pool.discard(1), Some(Completed::Kept { page_id: 1 }));
    assert!(pool.is_resident(1));
    assert_eq!(pool.release(reader), Ok(()));
    // Clean now: it leaves without a write.
    match pool.get_page(2, Mode::Shared, 4).unwrap() {
        FetchStep::Load { evicted, .. } => assert_eq!(evicted, Some(1)),
        other => panic!("expected a read, got {:?}", other),
    }
}

#[test]
fn victim_fetched_during_its_write_back_stays() {
    let mut pool = pool_with_dirty_page_one();
    let token = match pool.get_page(2, Mode::Shared, 2).unwrap() {
        FetchStep::Flush { token, .. } => token,
        other => panic!("expected a write-back, got {:?}", other),
    };
    let reader = match pool.get_page(1, Mode::Shared, 3).unwrap() {
        FetchStep::Ready(handle) => handle,
        other => panic!("expected a hit, got {:?}", other),
    };
    assert_eq!(pool.complete_write(token, PAGE, 0), Ok(Completed::Kept { page_id: 1 }));
    assert!(pool.is_resident(1));
    assert_eq!(pool.get_page(2, Mode::Shared, 4), Err(PoolError::PoolExhausted));
    assert_eq!(pool.release(reader), Ok(()));
    // Still dirty: the next eviction writes it back again.
    assert!(matches!(pool.get_page(2, Mode::Shared, 5), Ok(FetchStep::Flush { victim: 1, .. })));
}

#[test]
fn timed_out_fetch_leaves_the_transfer_outstanding() {
    let mut pool = BufferPool::new(1, PAGE, 2, 8).unwrap();
    let token = match pool.get_page(5, Mode::Shared, 1).unwrap() {
        FetchStep::Load { token, .. } => token,
        other => panic!("expected a read, got {:?}", other),
    };
    assert_eq!(pool.time_out(token), PoolError::Timeout);
    // The marker is still there: a later fetch joins the same transfer.
    assert_eq!(pool.get_page(5, Mode::Shared, 2), Ok(FetchStep::Wait { token }));
    // The frame is still reserved.
    assert_eq!(pool.get_page(6, Mode::Shared, 3), Err(PoolError::PoolExhausted));
    // The completion installs the page without pinning it for the caller that left.
    assert_eq!(
        pool.complete_read(token, 0, Bytes::from(image(5)), 4),
        Ok(Completed::Unclaimed { page_id: 5 })
    );
    assert!(pool.is_resident(5));
    let joiner = match pool.get_page(5, Mode::Shared, 5).unwrap() {
        FetchStep::Ready(handle) => handle,
        other => panic!("expected a hit, got {:?}", other),
    };
    assert_eq!(pool.bytes(&joiner), Some(&image(5)));
    assert_eq!(pool.release(joiner), Ok(()));
    assert_eq!(pool.release(joiner), Err(PoolError::UnbalancedPin));
}

#[test]
fn time_out_of_an_unknown_token_changes_nothing() {
    let mut pool = BufferPool::new(1, PAGE, 2, 8).unwrap();
    assert_eq!(pool.time_out(3), PoolError::Timeout);
    let token = match pool.get_page(5, Mode::Shared, 1).unwrap() {
        FetchStep::Load { token, .. } => token,
        other => panic!("expected a read, got {:?}", other),
    };
    assert_eq!(pool.time_out(token + 1), PoolError::Timeout);
    assert!(matches!(
        pool.complete_read(token, 0, Bytes::from(image(5)), 2),
        Ok(Completed::Loaded(_))
    ));
}

#[test]
fn entry_shows_pins_dirt_and_history() {
    let mut pool = BufferPool::new(2, PAGE, 2, 8).unwrap();
    let mut disk = disk_with(&[1]);
    assert!(pool.entry(1).is_none());
    assert_eq!(pool.free_frames(), 2);
    let token = match pool.get_page(1, Mode::Shared, 3).unwrap() {
        FetchStep::Load { token, .. } => token,
        other => panic!("expected a read, got {:?}", other),
    };
    assert_eq!(pool.in_flight(), 1);
    assert_eq!(pool.free_frames(), 1);
    pool.complete_read(token, 0, Bytes::from(image(1)), 4).unwrap();
    assert_eq!(pool.in_flight(), 0);
    let first = pool.entry(1).unwrap();
    assert_eq!((first.page_id, first.frame_index, first.pin_count, first.is_dirty), (1, 0, 1, false));
    assert_eq!(first.access_history, vec![4]);
    let again = fetch(&mut pool, &mut disk, 1, Mode::Shared, 6).unwrap();
    fetch(&mut pool, &mut disk, 1, Mode::Shared, 8).unwrap();
    pool.mark_dirty(&again).unwrap();
    let later = pool.entry(1).unwrap();
    assert_eq!((later.pin_count, later.is_dirty), (3, true));
    assert_eq!(later.access_history, vec![6, 8]);
}

#[test]
fn exclusive_holder_excludes_every_other_fetch() {
    let mut pool = BufferPool::new(2, PAGE, 2, 8).unwrap();
    let mut disk = disk_with(&[1]);
    let reader = fetch(&mut pool, &mut disk, 1, Mode::Shared, 1).unwrap();
    pool.release(reader).unwrap();
    let writer = fetch(&mut pool, &mut disk, 1, Mode::Exclusive, 2).unwrap();
    assert_eq!(writer.mode, Mode::Exclusive);
    assert_eq!(pool.get_page(1, Mode::Shared, 3), Ok(FetchStep::Busy));
    assert_eq!(pool.get_page(1, Mode::Exclusive, 4), Ok(FetchStep::Busy));
    let entry = pool.entry(1).unwrap();
    assert_eq!(entry.pin_count, 1);
    assert_eq!(entry.access_history, vec![1, 2]);
    assert_eq!(pool.release(writer), Ok(()));
    let next = fetch(&mut pool, &mut disk, 1, Mode::Shared, 5).unwrap();
    assert_eq!(next.mode, Mode::Shared);
}

#[test]
fn exclusive_fetch_waits_for_shared_holders() {
    let mut pool = BufferPool::new(2, PAGE, 2, 8).unwrap();
    let mut disk = disk_with(&[1]);
    let a = fetch(&mut pool, &mut disk, 1, Mode::Shared, 1).unwrap();
    let b = fetch(&mut pool, &mut disk, 1, Mode::Shared, 2).unwrap();
    assert_eq!(pool.get_page(1, Mode::Exclusive, 3), Ok(FetchStep::Busy));
    pool.release(a).unwrap();
    assert_eq!(pool.get_page(1, Mode::Exclusive, 4), Ok(FetchStep::Busy));
    pool.release(b).unwrap();
    let writer = fetch(&mut pool, &mut disk, 1, Mode::Exclusive, 5).unwrap();
    assert!(pool.write(&writer, 0, &vec![1]));
}

#[test]
fn page_loaded_for_exclusive_use_is_held_exclusively() {
    let mut pool = BufferPool::new(2, PAGE, 2, 8).unwrap();
    let mut disk = disk_with(&[1]);
    let writer = fetch(&mut pool, &mut disk, 1, Mode::Exclusive, 1).unwrap();
    assert_eq!(pool.get_page(1, Mode::Shared, 2), Ok(FetchStep::Busy));
    assert_eq!(pool.release(writer), Ok(()));
    assert!(matches!(pool.get_page(1, Mode::Shared, 3), Ok(FetchStep::Ready(_))));
}

#[test]
fn handle_of_the_wrong_mode_is_refused() {
    let mut pool = BufferPool::new(2, PAGE, 2, 8).unwrap();
    let mut disk = disk_with(&[1, 2]);
    let writer = fetch(&mut pool, &mut disk, 1, Mode::Exclusive, 1).unwrap();
    let forged = PageHandle { mode: Mode::Shared, ..writer };
    assert!(!pool.holds(&forged));
    assert_eq!(pool.release(forged), Err(PoolError::UnbalancedPin));
    assert_eq!(pool.bytes(&forged), None);
    assert!(pool.holds(&writer));
    let reader = fetch(&mut pool, &mut disk, 2, Mode::Shared, 2).unwrap();
    let upgraded = PageHandle { mode: Mode::Exclusive, ..reader };
    assert!(!pool.write(&upgraded, 0, &vec![1]));
    assert_eq!(pool.release(upgraded), Err(PoolError::UnbalancedPin));
    assert_eq!(pool.release(reader), Ok(()));
    assert_eq!(pool.release(writer), Ok(()));
}

#[test]
fn page_is_not_granted_exclusively_during_its_write_back() {
    let mut pool = pool_with_dirty_page_one();
    let token = match pool.get_page(2, Mode::Shared, 2).unwrap() {
        FetchStep::Flush { token, .. } => token,
        other => panic!("expected a write-back, got {:?}", other),
    };
    assert_eq!(pool.get_page(1, Mode::Exclusive, 3), Ok(FetchStep::Busy));
    assert!(pool.complete_write(token, 0, -5).is_err());
    // On hold after the failure: still no exclusive use.
    assert_eq!(pool.get_page(1, Mode::Exclusive, 4), Ok(FetchStep::Busy));
    assert!(matches!(pool.get_page(1, Mode::Shared, 5), Ok(FetchStep::Ready(_))));
    assert_eq!(pool.entry(1).unwrap().pin_count, 2);
}

#[test]
fn write_marks_the_page_dirty() {
    let mut pool = BufferPool::new(1, PAGE, 2, 8).unwrap();
    let mut disk = disk_with(&[1, 2]);
    let writer = fetch(&mut pool, &mut disk, 1, Mode::Exclusive, 1).unwrap();
    assert!(!pool.entry(1).unwrap().is_dirty);
    assert!(!pool.write(&writer, PAGE, &vec![1]));
    assert!(!pool.entry(1).unwrap().is_dirty);
    assert!(pool.write(&writer, 3, &vec![0x5A]));
    assert!(pool.entry(1).unwrap().is_dirty);
    pool.release(writer).unwrap();
    let mut expected = image(1);
    expected[3] = 0x5A;
    let other = fetch(&mut pool, &mut disk, 2, Mode::Shared, 2).unwrap();
    assert_eq!(disk.get(&1), Some(&expected));
    pool.release(other).unwrap();
    let reader = fetch(&mut pool, &mut disk, 1, Mode::Shared, 3).unwrap();
    assert_eq!(pool.bytes(&reader), Some(&expected));
    assert!(!pool.entry(1).unwrap().is_dirty);
}

#[test]
fn clean_page_is_not_written_back() {
    let mut pool = BufferPool::new(1, PAGE, 2, 8).unwrap();
    let mut disk = disk_with(&[1, 2]);
    let reader = fetch(&mut pool, &mut disk, 1, Mode::Shared, 1).unwrap();
    pool.release(reader).unwrap();
    disk.remove(&1);
    let other = fetch(&mut pool, &mut disk, 2, Mode::Shared, 2).unwrap();
    assert_eq!(other.page_id, 2);
    assert!(disk.get(&1).is_none());
}
