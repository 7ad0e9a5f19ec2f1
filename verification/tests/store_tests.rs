use std::sync::Arc;

use valley_search::climb::OptimizationResult;
use valley_search::layout::Layout;
use valley_search::store::{ResultStore, StoreError};

fn memory_store() -> ResultStore {
    match ResultStore::open(":memory:") {
        Ok(store) => store,
        Err(_) => panic!("could not open an in-memory store"),
    }
}

fn sample_result(cost: u64, steps: u64) -> OptimizationResult {
    OptimizationResult { layout: Layout::natural(), cost, steps }
}

#[test]
fn a_fresh_store_holds_nothing() {
    let store = memory_store();
    assert_eq!(store.contains(&Layout::natural()), Ok(false));
    assert_eq!(store.get(&Layout::natural()), Ok(None));
}

#[test]
fn insert_then_lookup_round_trips() {
    let store = memory_store();
    assert_eq!(store.insert(&sample_result(42, 3)), Ok(true));
    assert_eq!(store.contains(&Layout::natural()), Ok(true));
    assert_eq!(store.get(&Layout::natural()), Ok(Some((42, 3))));
    let mut other = Layout::natural();
    other.swap(2, 19);
    assert_eq!(store.contains(&other), Ok(false));
}

#[test]
fn inserting_the_same_layout_twice_keeps_one_record_with_the_first_values() {
    let store = memory_store();
    assert_eq!(store.insert(&sample_result(42, 3)), Ok(true));
    // a second insert for the same layout is a harmless no-op, even with
    // other cost and step values
    assert_eq!(store.insert(&sample_result(99, 8)), Ok(false));
    assert_eq!(store.get(&Layout::natural()), Ok(Some((42, 3))));
}

#[test]
fn opening_a_directory_as_a_store_fails() {
    assert_eq!(ResultStore::open(".").err(), Some(StoreError::Open));
}

#[test]
fn opening_a_file_that_is_no_database_fails() {
    assert_eq!(ResultStore::open("Cargo.toml").err(), Some(StoreError::Open));
}

#[test]
fn concurrent_inserts_of_one_layout_leave_exactly_one_record() {
    // Many workers race to insert the same discovered valley; the store's
    // uniqueness constraint lets exactly one of them create the record.
    let runtime = match tokio::runtime::Builder::new_multi_thread().worker_threads(4).build() {
        Ok(rt) => rt,
        Err(_) => panic!("could not build a runtime"),
    };
    let store = Arc::new(tokio::sync::Mutex::new(memory_store()));
    let fresh_inserts = runtime.block_on(async move {
        let mut tasks = Vec::new();
        for worker in 0..8u64 {
            let store = Arc::clone(&store);
            tasks.push(tokio::spawn(async move {
                let guard = store.lock().await;
                guard.insert(&sample_result(7, 1 + worker)) == Ok(true)
            }));
        }
        let mut fresh = 0;
        for task in tasks {
            if task.await.unwrap_or(false) {
                fresh += 1;
            }
        }
        let guard = store.lock().await;
        match guard.get(&Layout::natural()) {
            Ok(Some((cost, steps))) => {
                assert_eq!(cost, 7);
                assert!((1..=8).contains(&steps));
            },
            other => panic!("expected one stored record, got {:?}", other),
        }
        fresh
    });
    assert_eq!(fresh_inserts, 1);
}
