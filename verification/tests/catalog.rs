use bufpool::catalog::Catalog;
use bufpool::error::PoolError;
use bufpool::page::{Page, PAGE_SIZE};

fn catalog_with(k: usize, pages: &[(u64, &[u64])]) -> Catalog {
    let mut catalog = Catalog::new(k).expect("a positive history depth is accepted");
    for (index, (page_id, accesses)) in pages.iter().enumerate() {
        assert_eq!(catalog.insert(*page_id, index), Ok(()));
        for timestamp in accesses.iter() {
            assert_eq!(catalog.record_access(*page_id, *timestamp), Ok(()));
        }
    }
    catalog
}

#[test]
fn page_size_is_four_kibibytes() {
    assert_eq!(PAGE_SIZE, 4096);
}

#[test]
fn new_page_is_clean_and_unpinned() {
    let page = Page::new();
    assert_eq!(page.page_id, 0);
    assert_eq!(page.frame_index, 0);
    assert_eq!(page.pin_count, 0);
    assert!(!page.is_dirty);
    assert!(page.access_history.is_empty());
}

#[test]
fn page_history_keeps_the_k_most_recent() {
    let mut page = Page::new();
    page.record_access(1, 2);
    assert_eq!(page.access_history, vec![1]);
    page.record_access(5, 2);
    assert_eq!(page.access_history, vec![1, 5]);
    page.record_access(9, 2);
    assert_eq!(page.access_history, vec![5, 9]);
}

#[test]
fn page_history_shrinks_to_a_smaller_depth() {
    let mut page = Page::new();
    page.record_access(1, 4);
    page.record_access(2, 4);
    page.record_access(3, 4);
    page.record_access(4, 1);
    assert_eq!(page.access_history, vec![4]);
}

#[test]
fn zero_history_depth_is_refused() {
    assert!(Catalog::new(0).is_none());
    assert!(Catalog::new(1).is_some());
}

#[test]
fn new_catalog_is_empty() {
    let catalog = Catalog::new(2).unwrap();
    assert_eq!(catalog.len(), 0);
    assert_eq!(catalog.depth(), 2);
    assert!(!catalog.contains(7));
    assert!(catalog.lookup(7).is_none());
    assert_eq!(catalog.select_victim(), None);
}

#[test]
fn insert_files_a_fresh_entry() {
    let mut catalog = Catalog::new(2).unwrap();
    assert_eq!(catalog.insert(42, 3), Ok(()));
    assert_eq!(catalog.len(), 1);
    assert!(catalog.contains(42));
    let entry = catalog.lookup(42).unwrap();
    assert_eq!(entry.page_id, 42);
    assert_eq!(entry.frame_index, 3);
    assert_eq!(entry.pin_count, 0);
    assert!(!entry.is_dirty);
    assert!(entry.access_history.is_empty());
}

#[test]
fn insert_of_a_resident_page_is_refused() {
    let mut catalog = Catalog::new(2).unwrap();
    assert_eq!(catalog.insert(42, 3), Ok(()));
    assert_eq!(catalog.pin(42), Ok(()));
    assert_eq!(catalog.insert(42, 5), Err(PoolError::AlreadyResident));
    let entry = catalog.lookup(42).unwrap();
    assert_eq!(entry.frame_index, 3);
    assert_eq!(entry.pin_count, 1);
    assert_eq!(catalog.len(), 1);
}

#[test]
fn pin_and_unpin_count() {
    let mut catalog = Catalog::new(2).unwrap();
    catalog.insert(1, 0).unwrap();
    assert_eq!(catalog.pin(1), Ok(()));
    assert_eq!(catalog.pin(1), Ok(()));
    assert_eq!(catalog.lookup(1).unwrap().pin_count, 2);
    assert_eq!(catalog.unpin(1), Ok(()));
    assert_eq!(catalog.lookup(1).unwrap().pin_count, 1);
    assert_eq!(catalog.unpin(1), Ok(()));
    assert_eq!(catalog.lookup(1).unwrap().pin_count, 0);
}

#[test]
fn unpin_below_zero_signals_unbalanced_pin() {
    let mut catalog = Catalog::new(2).unwrap();
    catalog.insert(1, 0).unwrap();
    catalog.pin(1).unwrap();
    assert_eq!(catalog.unpin(1), Ok(()));
    assert_eq!(catalog.unpin(1), Err(PoolError::UnbalancedPin));
    assert_eq!(catalog.lookup(1).unwrap().pin_count, 0);
}

#[test]
fn unpin_of_a_missing_page_signals_unbalanced_pin() {
    let mut catalog = Catalog::new(2).unwrap();
    assert_eq!(catalog.unpin(9), Err(PoolError::UnbalancedPin));
    assert_eq!(catalog.len(), 0);
}

#[test]
fn pin_of_a_missing_page_is_refused() {
    let mut catalog = Catalog::new(2).unwrap();
    assert_eq!(catalog.pin(9), Err(PoolError::NotResident));
}

#[test]
fn remove_returns_the_frame() {
    let mut catalog = Catalog::new(2).unwrap();
    catalog.insert(1, 4).unwrap();
    catalog.insert(2, 6).unwrap();
    assert_eq!(catalog.remove(1), Ok(4));
    assert!(!catalog.contains(1));
    assert!(catalog.contains(2));
    assert_eq!(catalog.len(), 1);
}

#[test]
fn remove_of_a_pinned_page_is_refused() {
    let mut catalog = Catalog::new(2).unwrap();
    catalog.insert(1, 4).unwrap();
    catalog.pin(1).unwrap();
    assert_eq!(catalog.remove(1), Err(PoolError::PinnedEvictionAttempt));
    assert!(catalog.contains(1));
    catalog.unpin(1).unwrap();
    assert_eq!(catalog.remove(1), Ok(4));
}

#[test]
fn remove_of_a_missing_page_is_refused() {
    let mut catalog = Catalog::new(2).unwrap();
    assert_eq!(catalog.remove(1), Err(PoolError::NotResident));
}

#[test]
fn dirty_flag_is_set_and_cleared() {
    let mut catalog = Catalog::new(2).unwrap();
    catalog.insert(1, 0).unwrap();
    assert_eq!(catalog.mark_dirty(1), Ok(()));
    assert!(catalog.lookup(1).unwrap().is_dirty);
    assert_eq!(catalog.clear_dirty(1), Ok(()));
    assert!(!catalog.lookup(1).unwrap().is_dirty);
    assert_eq!(catalog.mark_dirty(2), Err(PoolError::NotResident));
    assert_eq!(catalog.clear_dirty(2), Err(PoolError::NotResident));
}

#[test]
fn record_access_keeps_a_ring_of_k() {
    let mut catalog = Catalog::new(2).unwrap();
    catalog.insert(1, 0).unwrap();
    catalog.record_access(1, 1).unwrap();
    catalog.record_access(1, 5).unwrap();
    catalog.record_access(1, 9).unwrap();
    assert_eq!(catalog.lookup(1).unwrap().access_history, vec![5, 9]);
    assert_eq!(catalog.record_access(2, 1), Err(PoolError::NotResident));
}

#[test]
fn updates_leave_other_entries_alone() {
    let mut catalog = catalog_with(2, &[(1, &[1]), (2, &[2]), (3, &[3])]);
    catalog.pin(2).unwrap();
    catalog.mark_dirty(2).unwrap();
    catalog.record_access(2, 10).unwrap();
    let one = catalog.lookup(1).unwrap();
    let three = catalog.lookup(3).unwrap();
    assert_eq!((one.pin_count, one.is_dirty, one.access_history), (0, false, vec![1]));
    assert_eq!((three.pin_count, three.is_dirty, three.access_history), (0, false, vec![3]));
    let two = catalog.lookup(2).unwrap();
    assert_eq!((two.frame_index, two.pin_count, two.is_dirty), (1, 1, true));
    assert_eq!(two.access_history, vec![2, 10]);
}

#[test]
fn victim_has_fewer_than_k_accesses() {
    let catalog = catalog_with(2, &[(10, &[1, 5, 9]), (11, &[2]), (12, &[3, 4])]);
    assert_eq!(catalog.select_victim(), Some(11));
}

#[test]
fn victim_has_the_oldest_kth_access() {
    let catalog = catalog_with(2, &[(10, &[1, 5, 9]), (12, &[3, 4]), (13, &[6, 7])]);
    assert_eq!(catalog.select_victim(), Some(12));
}

#[test]
fn infinite_distances_tie_break_by_first_access() {
    let catalog = catalog_with(3, &[(1, &[7, 8]), (2, &[5]), (3, &[6, 9])]);
    assert_eq!(catalog.select_victim(), Some(2));
}

#[test]
fn never_accessed_page_goes_first() {
    let catalog = catalog_with(2, &[(1, &[0]), (2, &[]), (3, &[1, 2])]);
    assert_eq!(catalog.select_victim(), Some(2));
}

#[test]
fn finite_ties_break_by_page_identifier() {
    let catalog = catalog_with(2, &[(9, &[3, 8]), (4, &[3, 5]), (6, &[3, 7])]);
    assert_eq!(catalog.select_victim(), Some(4));
}

#[test]
fn infinite_ties_break_by_page_identifier() {
    let catalog = catalog_with(2, &[(9, &[3]), (4, &[3]), (6, &[3])]);
    assert_eq!(catalog.select_victim(), Some(4));
}

#[test]
fn pinned_page_is_never_chosen() {
    let mut catalog = catalog_with(2, &[(10, &[1, 5, 9]), (11, &[2]), (12, &[3, 4])]);
    catalog.pin(11).unwrap();
    assert_eq!(catalog.select_victim(), Some(12));
    catalog.pin(12).unwrap();
    assert_eq!(catalog.select_victim(), Some(10));
    catalog.pin(10).unwrap();
    assert_eq!(catalog.select_victim(), None);
    catalog.unpin(11).unwrap();
    assert_eq!(catalog.select_victim(), Some(11));
}

#[test]
fn victim_does_not_depend_on_insertion_order() {
    let forward = catalog_with(2, &[(1, &[4, 6]), (2, &[1, 9]), (3, &[2, 3])]);
    let backward = catalog_with(2, &[(3, &[2, 3]), (2, &[1, 9]), (1, &[4, 6])]);
    assert_eq!(forward.select_victim(), Some(2));
    assert_eq!(backward.select_victim(), Some(2));
}

#[test]
fn plain_lru_with_depth_one() {
    let catalog = catalog_with(1, &[(1, &[4, 6]), (2, &[1, 9]), (3, &[2, 3])]);
    assert_eq!(catalog.select_victim(), Some(3));
}

#[test]
fn builders_replace_one_field() {
    let page = Page::new()
        .with_page_id(7)
        .with_frame_index(3)
        .with_pin_count(2)
        .with_is_dirty(true)
        .with_access_history(vec![4, 5]);
    assert_eq!(page.page_id, 7);
    assert_eq!(page.frame_index, 3);
    assert_eq!(page.pin_count, 2);
    assert!(page.is_dirty);
    assert_eq!(page.access_history, vec![4, 5]);
    let moved = page.with_frame_index(9);
    assert_eq!((moved.page_id, moved.frame_index, moved.pin_count), (7, 9, 2));
    assert_eq!(moved.access_history, vec![4, 5]);
}
