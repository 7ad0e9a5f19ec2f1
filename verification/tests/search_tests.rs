use rand::SeedableRng;

use valley_search::freq::FrequencyTable;
use valley_search::search::{run_trial, trials_per_worker};
use valley_search::store::ResultStore;

fn memory_store() -> ResultStore {
    match ResultStore::open(":memory:") {
        Ok(store) => store,
        Err(_) => panic!("could not open an in-memory store"),
    }
}

#[test]
fn a_trial_reports_a_new_valley_and_then_knows_it() {
    let mut table = FrequencyTable::new();
    assert!(table.record('q', 'w', 10));
    let store = memory_store();
    // two identically seeded generators draw the same start, and the
    // descent is deterministic, so both trials reach the same valley
    let mut first_rng = rand::rngs::StdRng::seed_from_u64(11);
    let mut second_rng = rand::rngs::StdRng::seed_from_u64(11);
    let first = run_trial(&table, &store, &mut first_rng);
    let reported = match first {
        Ok(Some(result)) => result,
        _ => panic!("the first trial must report a new valley"),
    };
    assert_eq!(store.get(&reported.layout), Ok(Some((reported.cost, reported.steps))));
    let second = run_trial(&table, &store, &mut second_rng);
    assert!(matches!(second, Ok(None)));
}

#[test]
fn a_reported_valley_keeps_its_two_symbols_adjacent() {
    let mut table = FrequencyTable::new();
    assert!(table.record('q', 'w', 10));
    let store = memory_store();
    let mut rng = rand::rngs::StdRng::seed_from_u64(3);
    let result = match run_trial(&table, &store, &mut rng) {
        Ok(Some(result)) => result,
        _ => panic!("the trial must report a new valley"),
    };
    let pq = result.layout.position_of('q');
    let pw = result.layout.position_of('w');
    let distance = if pq >= pw { pq - pw } else { pw - pq };
    assert_eq!(distance, 1);
    assert_eq!(result.cost, 10);
}

#[test]
fn the_budget_is_divided_evenly_across_workers() {
    assert_eq!(trials_per_worker(100_000_000, 13), 7_692_307);
    assert_eq!(trials_per_worker(10, 3), 3);
    assert_eq!(trials_per_worker(5, 8), 0);
}
