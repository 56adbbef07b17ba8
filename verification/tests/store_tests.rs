use amemory_optimized_cpu_probe::{OptimizedLinkStore, StoreError, ROOT_HANDLE};

#[test]
fn allocation_order_changes_handles_not_portable_identity() {
    let mut left = OptimizedLinkStore::new();
    let mut right = OptimizedLinkStore::new();

    let left_target = left.import_anum("19868").unwrap();

    // Shift only the right local allocation history with an unrelated
    // canonical structure before importing the same semantic target.
    right.import_anum("998").unwrap();
    let right_target = right.import_anum("19868").unwrap();

    assert_ne!(left_target, right_target);
    assert_eq!(left.export_anum(left_target).unwrap(), "19868");
    assert_eq!(right.export_anum(right_target).unwrap(), "19868");
}

#[test]
fn hash_canonicalization_and_incidence_indexes_are_consistent() {
    let mut store = OptimizedLinkStore::new();

    let k = store.import_anum("98").unwrap();
    let a = store.import_anum("68").unwrap();
    let b = store.import_anum("16898").unwrap();
    let current = store.import_anum("19868").unwrap();
    let relation = store.import_anum("16816898").unwrap();
    let successor = store.import_anum("19816898").unwrap();

    assert_eq!(store.ensure_pair(k, a).unwrap(), current);
    assert_eq!(store.ensure_pair(a, b).unwrap(), relation);
    assert_eq!(store.ensure_pair(k, b).unwrap(), successor);

    // Q = END(O) has poles (O,Q), but ordinary PAIR(O,Q) is a different
    // target P whose end points to Q rather than to P itself.
    let end_of_k = store.import_anum("698").unwrap();
    let ordinary_over_end = store.ensure_pair(k, end_of_k).unwrap();
    assert_ne!(ordinary_over_end, end_of_k);
    assert_eq!(store.export_anum(end_of_k).unwrap(), "698");
    assert_eq!(store.export_anum(ordinary_over_end).unwrap(), "198698");

    // Likewise ROOT=(R,R) does not collapse ordinary PAIR(R,R).
    let root_pair = store.ensure_pair(ROOT_HANDLE, ROOT_HANDLE).unwrap();
    assert_ne!(root_pair, ROOT_HANDLE);
    assert_eq!(store.export_anum(root_pair).unwrap(), "188");

    let from_k = store.start_incidence(k).unwrap();
    assert!(from_k.contains(&k)); // START(K child ROOT) is self-start incident.
    assert!(from_k.contains(&current));
    assert!(from_k.contains(&successor));

    let to_a = store.end_incidence(a).unwrap();
    assert!(to_a.contains(&a)); // END(ROOT) is self-end incident.
    assert!(to_a.contains(&current));

    // Index observations are local facts; portable comparison is the export.
    let mut outgoing = from_k
        .iter()
        .copied()
        .map(|handle| store.export_anum(handle).unwrap())
        .collect::<Vec<_>>();
    outgoing.sort();
    assert!(outgoing.contains(&"19868".to_owned()));
    assert!(outgoing.contains(&"19816898".to_owned()));
}

#[test]
fn malformed_and_capacity_failures_are_transactional() {
    let mut store = OptimizedLinkStore::with_max_links(4);

    let stable = store.import_anum("19868").unwrap();
    assert_eq!(store.link_count(), 4);
    assert_eq!(store.export_anum(stable).unwrap(), "19868");

    for source in ["", "5", "1", "9", "88", "19868x"] {
        let before = store.link_count();
        assert!(store.import_anum(source).is_err(), "accepted malformed {source}");
        assert_eq!(store.link_count(), before, "partial publication for {source}");
        assert_eq!(store.export_anum(stable).unwrap(), "19868");
    }

    let before = store.link_count();
    assert_eq!(store.import_anum("16898"), Err(StoreError::CapacityExceeded));
    assert_eq!(store.link_count(), before);
    assert_eq!(store.export_anum(stable).unwrap(), "19868");
}

#[test]
fn exporter_rejects_non_well_founded_corruption() {
    let mut store = OptimizedLinkStore::new();

    // Inject a substrate corruption that cannot be produced through the
    // canonical construction API.
    store.push_unchecked_record(3, 1).unwrap(); // handle 2
    store.push_unchecked_record(2, 1).unwrap(); // handle 3

    assert!(matches!(
        store.export_anum(2),
        Err(StoreError::NonWellFounded(2 | 3))
    ));
}

#[test]
fn import_reports_each_error_kind() {
    let mut store = OptimizedLinkStore::new();
    assert_eq!(store.import_anum(""), Err(StoreError::EmptyAnum));
    assert_eq!(store.import_anum("5"), Err(StoreError::InvalidToken('5')));
    assert_eq!(store.import_anum("1"), Err(StoreError::TruncatedAnum));
    assert_eq!(store.import_anum("19"), Err(StoreError::TruncatedAnum));
    assert_eq!(store.import_anum("88"), Err(StoreError::TrailingInput(1)));
    assert_eq!(store.import_anum("19868x"), Err(StoreError::TrailingInput(5)));
    assert_eq!(store.import_anum("1x8"), Err(StoreError::InvalidToken('x')));
    assert_eq!(store.link_count(), 1);
}

#[test]
fn import_roundtrips_every_fixture_and_replays_canonically() {
    let fixtures = [
        "8",
        "98",
        "68",
        "19868",
        "16898",
        "198698",
        "119868968",
        "16816898",
        "19816898",
    ];
    let mut store = OptimizedLinkStore::new();
    for source in fixtures {
        let handle = store.import_anum(source).unwrap();
        assert_eq!(store.export_anum(handle).unwrap(), source);
        let count = store.link_count();
        assert_eq!(store.import_anum(source).unwrap(), handle);
        assert_eq!(store.link_count(), count);
    }
}

#[test]
fn fresh_store_holds_only_root() {
    let store = OptimizedLinkStore::new();
    assert_eq!(store.link_count(), 1);
    assert!(store.is_valid(ROOT_HANDLE));
    assert!(!store.is_valid(0));
    assert!(!store.is_valid(2));
    assert_eq!(store.poles(ROOT_HANDLE), Ok((ROOT_HANDLE, ROOT_HANDLE)));
    assert_eq!(store.poles(0), Err(StoreError::UnknownHandle(0)));
    assert_eq!(store.export_anum(ROOT_HANDLE).unwrap(), "8");
    assert_eq!(store.export_anum(7), Err(StoreError::UnknownHandle(7)));
    assert_eq!(store.start_incidence(ROOT_HANDLE).unwrap(), &[ROOT_HANDLE]);
    assert_eq!(store.end_incidence(ROOT_HANDLE).unwrap(), &[ROOT_HANDLE]);
    assert_eq!(store.start_incidence(9), Err(StoreError::UnknownHandle(9)));
}

#[test]
fn self_closed_forms_are_canonical_and_distinct() {
    let mut store = OptimizedLinkStore::new();
    let start = store.ensure_start_self_closed(ROOT_HANDLE).unwrap();
    let end = store.ensure_end_self_closed(ROOT_HANDLE).unwrap();
    assert_ne!(start, end);
    assert_eq!(store.poles(start), Ok((start, ROOT_HANDLE)));
    assert_eq!(store.poles(end), Ok((ROOT_HANDLE, end)));
    assert_eq!(store.ensure_start_self_closed(ROOT_HANDLE), Ok(start));
    assert_eq!(store.ensure_end_self_closed(ROOT_HANDLE), Ok(end));
    assert_eq!(store.link_count(), 3);
    assert_eq!(store.export_anum(start).unwrap(), "98");
    assert_eq!(store.export_anum(end).unwrap(), "68");
    assert_eq!(store.ensure_start_self_closed(40), Err(StoreError::UnknownHandle(40)));
    assert_eq!(store.ensure_pair(start, 40), Err(StoreError::UnknownHandle(40)));
}

#[test]
fn capacity_bounds_every_allocation() {
    let mut store = OptimizedLinkStore::with_max_links(2);
    let start = store.ensure_start_self_closed(ROOT_HANDLE).unwrap();
    assert_eq!(store.link_count(), 2);
    assert_eq!(store.ensure_end_self_closed(ROOT_HANDLE), Err(StoreError::CapacityExceeded));
    assert_eq!(store.ensure_pair(start, start), Err(StoreError::CapacityExceeded));
    // Existing Links are still found at capacity.
    assert_eq!(store.ensure_start_self_closed(ROOT_HANDLE), Ok(start));
    assert_eq!(store.link_count(), 2);
}

#[test]
fn root_start_chain_incidence_counts_every_pair() {
    let mut store = OptimizedLinkStore::new();
    let mut current = ROOT_HANDLE;
    for _ in 0..500 {
        current = store.ensure_pair(ROOT_HANDLE, current).unwrap();
    }
    assert_eq!(store.link_count(), 501);
    let (_, target_end) = store.poles(current).unwrap();
    assert_eq!(store.ensure_pair(ROOT_HANDLE, target_end).unwrap(), current);
    assert_eq!(store.link_count(), 501);
    assert_eq!(store.start_incidence(ROOT_HANDLE).unwrap().len(), 501);
}

#[test]
fn cloned_store_is_independent() {
    let mut store = OptimizedLinkStore::new();
    let a = store.import_anum("98").unwrap();
    let copy = store.clone();
    store.import_anum("19868").unwrap();
    assert_eq!(copy.link_count(), 2);
    assert_eq!(copy.export_anum(a).unwrap(), "98");
    assert_eq!(store.link_count(), 4);
}

#[test]
fn reimporting_own_export_allocates_nothing_even_when_full() {
    let mut store = OptimizedLinkStore::with_max_links(6);
    let h = store.import_anum("19816898").unwrap();
    let n = store.link_count();
    let text = store.export_anum(h).unwrap();
    assert_eq!(text, "19816898");
    assert_eq!(store.import_anum(&text), Ok(h));
    assert_eq!(store.link_count(), n);
    assert!(store.export_anum(1).unwrap().starts_with('8'));
    let (start, end) = store.poles(h).unwrap();
    assert!(store.export_anum(start).unwrap().starts_with('9'));
    assert!(store.export_anum(end).unwrap().starts_with('1'));
}
