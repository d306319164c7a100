use stain::Entry;
use stain::Store;

fn three_plugins() -> Vec<Entry<u32>> {
    // A and C share ordering 1; B has ordering 0.
    vec![
        Entry::create_entry(11, 1, "A", 1),
        Entry::create_entry(22, 2, "B", 0),
        Entry::create_entry(33, 3, "C", 1),
    ]
}

#[test]
fn empty_registry_collects_to_empty_store() {
    let store: Store<u32> = Store::collect(Vec::new());
    assert_eq!(store.len(), 0);
    assert!(store.iter().is_empty());
    assert!(store.ordering(0).is_none());
    assert!(store.ordering(17).is_none());
    assert!(!store.stained(1));
    assert!(store.get(1).is_none());
}

#[test]
fn scenario_three_plugins_iterate_in_rank_order() {
    let store = Store::collect(three_plugins());
    assert_eq!(store.len(), 3);

    let names: Vec<&str> = store.iter().iter().map(|e| e.name()).collect();
    // B (ordering 0) first; the tie between A and C (ordering 1) breaks
    // by ascending type token, so A before C.
    assert_eq!(names, vec!["B", "A", "C"]);

    // Repeated collects of the same raw sequence agree entry for entry.
    let again = Store::collect(three_plugins());
    assert_eq!(again.len(), store.len());
    for (x, y) in store.iter().iter().zip(again.iter().iter()) {
        assert_eq!(x.name(), y.name());
        assert_eq!(x.ordering(), y.ordering());
        assert_eq!(x.type_identity(), y.type_identity());
        assert_eq!(x.read(), y.read());
    }
}

#[test]
fn registering_a_type_twice_keeps_the_last_record() {
    let raw = vec![
        Entry::create_entry(1, 7, "first", 3),
        Entry::create_entry(2, 8, "other", 1),
        Entry::create_entry(9, 7, "second", 2),
    ];
    let store = Store::collect(raw);
    assert_eq!(store.len(), 2);

    let entry = store.get(7).expect("token 7 is registered");
    assert_eq!(entry.name(), "second");
    assert_eq!(entry.ordering(), 2);
    assert_eq!(*entry.read(), 9);
}

#[test]
fn concrete_lookup_round_trip() {
    let store = Store::collect(three_plugins());

    assert!(store.stained(2));
    let entry = store.get(2).expect("token 2 is registered");
    assert_eq!(entry.name(), "B");
    assert_eq!(entry.type_identity(), 2);

    assert!(!store.stained(4));
    assert!(store.get(4).is_none());
}

#[test]
fn ordering_returns_the_bucket_of_its_key() {
    let store = Store::collect(three_plugins());

    let bucket = store.ordering(1).expect("two entries carry ordering 1");
    let names: Vec<&str> = bucket.iter().map(|e| e.name()).collect();
    assert_eq!(names, vec!["A", "C"]);

    let bucket = store.ordering(0).expect("one entry carries ordering 0");
    let names: Vec<&str> = bucket.iter().map(|e| e.name()).collect();
    assert_eq!(names, vec!["B"]);

    assert!(store.ordering(2).is_none());
}

#[test]
fn ordering_buckets_are_subsequences_of_the_iteration() {
    let raw = vec![
        Entry::create_entry(0, 10, "d", 5),
        Entry::create_entry(0, 11, "e", 5),
        Entry::create_entry(0, 12, "f", 4),
        Entry::create_entry(0, 13, "g", 5),
        Entry::create_entry(0, 14, "h", 6),
    ];
    let store = Store::collect(raw);

    for key in 0..8u32 {
        let filtered: Vec<u64> = store
            .iter()
            .iter()
            .filter(|e| e.ordering() == key)
            .map(|e| e.type_identity())
            .collect();
        match store.ordering(key) {
            Some(bucket) => {
                let tokens: Vec<u64> = bucket.iter().map(|e| e.type_identity()).collect();
                assert_eq!(tokens, filtered);
            }
            None => assert!(filtered.is_empty()),
        }
    }
}

#[test]
fn get_mut_replaces_only_the_instance_value() {
    let mut store = Store::collect(three_plugins());

    let slot = store.get_mut(2).expect("token 2 is registered");
    assert_eq!(*slot, 22);
    *slot = 220;

    let entry = store.get(2).expect("token 2 is still registered");
    assert_eq!(*entry.read(), 220);
    assert_eq!(entry.name(), "B");
    assert_eq!(entry.ordering(), 0);

    // The rest of the store is untouched, order included.
    let names: Vec<&str> = store.iter().iter().map(|e| e.name()).collect();
    assert_eq!(names, vec!["B", "A", "C"]);

    assert!(store.get_mut(4).is_none());
}

#[test]
fn extreme_keys_and_tokens_are_ordered_like_any_other() {
    let raw = vec![
        Entry::create_entry((), u64::MAX, "last", u32::MAX),
        Entry::create_entry((), 0, "first", 0),
        Entry::create_entry((), 1, "middle", u32::MAX),
    ];
    let store = Store::collect(raw);
    let names: Vec<&str> = store.iter().iter().map(|e| e.name()).collect();
    assert_eq!(names, vec!["first", "middle", "last"]);
}

#[test]
fn entry_accessors_expose_the_record() {
    let mut entry = Entry::create_entry(5u8, 42, "plug", 9);
    assert_eq!(entry.name(), "plug");
    assert_eq!(entry.ordering(), 9);
    assert_eq!(entry.type_identity(), 42);
    assert_eq!(*entry.read(), 5);

    *entry.write() = 6;
    assert_eq!(*entry.read(), 6);

    assert_eq!(entry.read_concrete(42), Some(&6));
    assert_eq!(entry.read_concrete(43), None);

    match entry.write_concrete(42) {
        Some(slot) => *slot = 7,
        None => panic!("token 42 matches"),
    }
    assert_eq!(*entry.read(), 7);
    assert!(entry.write_concrete(41).is_none());
    assert_eq!(*entry.read(), 7);
}

#[test]
fn a_single_registration_is_the_whole_store() {
    let store = Store::collect(vec![Entry::create_entry((), 1, "min", 0)]);
    assert_eq!(store.iter().len(), 1);
    assert_eq!(store.iter()[0].name(), "min");
}

#[test]
fn the_ordering_key_is_kept_verbatim() {
    let store = Store::collect(vec![Entry::create_entry((), 1, "do", 100)]);
    assert_eq!(store.iter().len(), 1);
    assert_eq!(store.iter()[0].ordering(), 100u32);
}
