//! The instance cells that back a registry at run time are reader/writer
//! locks around lazily built values. The store itself never locks; these
//! tests pin the locking discipline of the primitives the runtime uses:
//! shared readers coexist, a writer excludes everyone, and lazy
//! construction runs exactly once.

use std::sync::atomic::AtomicU32;
use std::sync::atomic::Ordering as AtomicOrdering;
use std::sync::LazyLock;

use parking_lot::RwLock;

use stain::Entry;
use stain::Store;

#[test]
fn concurrent_reads_share_the_lock() {
    let lock: RwLock<u32> = RwLock::new(7);
    let first = lock.read();
    let second = lock.try_read().expect("a second reader may enter");
    assert_eq!(*first, 7);
    assert_eq!(*second, 7);
}

#[test]
fn a_writer_excludes_readers_and_writers() {
    let lock: RwLock<u32> = RwLock::new(7);
    {
        let reader = lock.read();
        assert_eq!(*reader, 7);
        assert!(lock.try_write().is_none());
    }
    {
        let mut writer = lock.write();
        *writer = 8;
        assert!(lock.try_read().is_none());
        assert!(lock.try_write().is_none());
    }
    assert_eq!(*lock.read(), 8);
}

#[test]
fn lazy_construction_runs_exactly_once() {
    let built = AtomicU32::new(0);
    let cell: LazyLock<RwLock<u32>, _> = LazyLock::new(|| {
        built.fetch_add(1, AtomicOrdering::SeqCst);
        RwLock::new(41)
    });
    assert_eq!(built.load(AtomicOrdering::SeqCst), 0);
    assert_eq!(*cell.read(), 41);
    *cell.write() += 1;
    assert_eq!(*cell.read(), 42);
    assert_eq!(built.load(AtomicOrdering::SeqCst), 1);
}

#[test]
fn a_store_of_cell_handles_shares_instances_between_snapshots() {
    // Two snapshots of the same registration share the cells: writing
    // through one snapshot is seen through the other, as it is for
    // re-collected stores whose entries point at process-wide cells.
    let cell_a: RwLock<u32> = RwLock::new(1);
    let cell_b: RwLock<u32> = RwLock::new(2);

    let raw = || {
        vec![
            Entry::create_entry(&cell_a, 1, "A", 0),
            Entry::create_entry(&cell_b, 2, "B", 1),
        ]
    };
    let first: Store<&RwLock<u32>> = Store::collect(raw());
    let second: Store<&RwLock<u32>> = Store::collect(raw());

    let entry = first.get(1).expect("token 1 is registered");
    *entry.read().write() = 10;

    let other = second.get(1).expect("token 1 is registered here too");
    assert_eq!(*other.read().read(), 10);
}
