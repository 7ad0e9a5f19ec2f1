use valley_search::cost::compute_cost;
use valley_search::freq::{FrequencyTable, MAX_TOTAL_WEIGHT};
use valley_search::layout::{check_symbol, Layout};

#[test]
fn empty_table_costs_zero() {
    let table = FrequencyTable::new();
    let layout = Layout::natural();
    assert_eq!(compute_cost(&layout, &table), 0);
}

#[test]
fn single_bigram_cost_is_weight_times_distance() {
    let mut table = FrequencyTable::new();
    assert!(table.record('q', 'w', 10));
    let layout = Layout::natural();
    // 'q' sits at position 16 and 'w' at position 22: distance 6.
    assert_eq!(compute_cost(&layout, &table), 60);
}

#[test]
fn cost_sums_over_entries() {
    let mut table = FrequencyTable::new();
    assert!(table.record('a', 'c', 3));
    assert!(table.record('z', 'a', 2));
    let layout = Layout::natural();
    // 3 * |0 - 2| + 2 * |25 - 0|
    assert_eq!(compute_cost(&layout, &table), 56);
}

#[test]
fn cost_ignores_symbol_order_within_a_pair_only_through_distance() {
    let mut forward = FrequencyTable::new();
    assert!(forward.record('b', 'k', 4));
    let mut backward = FrequencyTable::new();
    assert!(backward.record('k', 'b', 4));
    let layout = Layout::natural();
    assert_eq!(compute_cost(&layout, &forward), compute_cost(&layout, &backward));
}

#[test]
fn recording_a_bigram_twice_overwrites_its_weight() {
    let mut table = FrequencyTable::new();
    assert!(table.record('a', 'b', 5));
    assert!(table.record('a', 'b', 7));
    assert_eq!(table.len(), 1);
    let layout = Layout::natural();
    assert_eq!(compute_cost(&layout, &table), 7);
}

#[test]
fn recording_beyond_the_weight_capacity_is_refused() {
    let mut table = FrequencyTable::new();
    assert!(table.record('a', 'b', MAX_TOTAL_WEIGHT));
    assert!(!table.record('c', 'd', 1));
    assert_eq!(table.len(), 1);
}

#[test]
fn symbols_are_exactly_the_lower_case_letters() {
    assert!(check_symbol('a'));
    assert!(check_symbol('m'));
    assert!(check_symbol('z'));
    assert!(!check_symbol('A'));
    assert!(!check_symbol('0'));
    assert!(!check_symbol(' '));
}

#[test]
fn swapping_positions_moves_symbols() {
    let mut layout = Layout::natural();
    layout.swap(0, 25);
    assert_eq!(layout.symbol_at(0), 'z');
    assert_eq!(layout.symbol_at(25), 'a');
    assert_eq!(layout.position_of('a'), 25);
    assert_eq!(layout.position_of('z'), 0);
    assert_eq!(layout.canonical_string(), "zbcdefghijklmnopqrstuvwxya");
}
