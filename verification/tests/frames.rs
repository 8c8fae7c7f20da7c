use bufpool::frames::{Exhausted, FrameStore};

#[test]
fn new_store_is_zeroed_and_free() {
    let store = FrameStore::new(3, 8);
    assert_eq!(store.capacity(), 3);
    assert_eq!(store.page_size(), 8);
    assert_eq!(store.free_count(), 3);
    for frame in 0..3 {
        assert!(store.is_free(frame));
        assert_eq!(store.bytes(frame), Some(&vec![0u8; 8]));
    }
    assert!(!store.is_free(3));
    assert_eq!(store.bytes(3), None);
}

#[test]
fn frames_are_handed_out_in_ascending_order() {
    let mut store = FrameStore::new(3, 4);
    assert_eq!(store.acquire_frame(), Ok(0));
    assert_eq!(store.acquire_frame(), Ok(1));
    assert_eq!(store.acquire_frame(), Ok(2));
    assert_eq!(store.free_count(), 0);
}

#[test]
fn acquire_fails_when_no_frame_is_free() {
    let mut store = FrameStore::new(1, 4);
    assert_eq!(store.acquire_frame(), Ok(0));
    assert_eq!(store.acquire_frame(), Err(Exhausted));
    assert_eq!(store.acquire_frame(), Err(Exhausted));
}

#[test]
fn store_without_frames_is_exhausted() {
    let mut store = FrameStore::new(0, 4);
    assert_eq!(store.capacity(), 0);
    assert_eq!(store.acquire_frame(), Err(Exhausted));
}

#[test]
fn released_frame_is_handed_out_next() {
    let mut store = FrameStore::new(3, 4);
    assert_eq!(store.acquire_frame(), Ok(0));
    assert_eq!(store.acquire_frame(), Ok(1));
    assert!(store.release_frame(0));
    assert!(store.is_free(0));
    assert!(!store.is_free(1));
    assert_eq!(store.acquire_frame(), Ok(0));
    assert_eq!(store.acquire_frame(), Ok(2));
}

#[test]
fn release_of_a_free_frame_is_refused() {
    let mut store = FrameStore::new(2, 4);
    assert!(!store.release_frame(1));
    assert_eq!(store.free_count(), 2);
    assert_eq!(store.acquire_frame(), Ok(0));
    assert!(store.release_frame(0));
    assert!(!store.release_frame(0));
    assert_eq!(store.free_count(), 2);
}

#[test]
fn release_of_a_missing_frame_is_refused() {
    let mut store = FrameStore::new(2, 4);
    assert!(!store.release_frame(2));
    assert_eq!(store.free_count(), 2);
}

#[test]
fn store_replaces_one_frame() {
    let mut store = FrameStore::new(2, 4);
    assert!(store.store(1, vec![1, 2, 3, 4]));
    assert_eq!(store.bytes(1), Some(&vec![1, 2, 3, 4]));
    assert_eq!(store.bytes(0), Some(&vec![0, 0, 0, 0]));
}

#[test]
fn store_of_a_wrong_length_is_refused() {
    let mut store = FrameStore::new(2, 4);
    assert!(!store.store(1, vec![1, 2, 3]));
    assert!(!store.store(1, vec![1, 2, 3, 4, 5]));
    assert!(!store.store(2, vec![1, 2, 3, 4]));
    assert_eq!(store.bytes(1), Some(&vec![0, 0, 0, 0]));
}

#[test]
fn write_at_changes_a_range() {
    let mut store = FrameStore::new(1, 6);
    assert!(store.store(0, vec![1, 2, 3, 4, 5, 6]));
    assert!(store.write_at(0, 2, &vec![9, 8]));
    assert_eq!(store.bytes(0), Some(&vec![1, 2, 9, 8, 5, 6]));
    assert!(store.write_at(0, 6, &vec![]));
    assert!(store.write_at(0, 4, &vec![7, 7]));
    assert_eq!(store.bytes(0), Some(&vec![1, 2, 9, 8, 7, 7]));
}

#[test]
fn write_at_outside_the_frame_is_refused() {
    let mut store = FrameStore::new(1, 4);
    assert!(!store.write_at(0, 3, &vec![1, 2]));
    assert!(!store.write_at(0, 5, &vec![]));
    assert!(!store.write_at(1, 0, &vec![1]));
    assert!(!store.write_at(0, usize::MAX, &vec![1, 2]));
    assert_eq!(store.bytes(0), Some(&vec![0, 0, 0, 0]));
}
