use rand::SeedableRng;

use valley_search::climb::find_valley;
use valley_search::cost::compute_cost;
use valley_search::freq::FrequencyTable;
use valley_search::layout::Layout;
use valley_search::random::generate_random_layout;

#[test]
fn single_heavy_bigram_converges_to_adjacency() {
    // One heavy bigram: the valley must place its two symbols on adjacent
    // positions, leaving cost 10.
    let mut table = FrequencyTable::new();
    assert!(table.record('q', 'w', 10));
    let result = find_valley(Layout::natural(), &table);
    let pq = result.layout.position_of('q');
    let pw = result.layout.position_of('w');
    let distance = if pq >= pw { pq - pw } else { pw - pq };
    assert_eq!(distance, 1);
    assert_eq!(result.cost, 10);
    assert_eq!(result.steps, 2);
}

#[test]
fn empty_table_terminates_immediately_with_layout_unchanged() {
    let table = FrequencyTable::new();
    let result = find_valley(Layout::natural(), &table);
    assert_eq!(result.cost, 0);
    assert_eq!(result.steps, 1);
    assert_eq!(result.layout.canonical_string(), "abcdefghijklmnopqrstuvwxyz");
}

#[test]
fn two_equal_disjoint_bigrams_are_optimized_independently() {
    // Two bigrams of equal weight over disjoint symbol pairs: the descent
    // brings both pairs adjacent, and no single swap improves the valley.
    let mut table = FrequencyTable::new();
    assert!(table.record('a', 'z', 5));
    assert!(table.record('b', 'y', 5));
    let result = find_valley(Layout::natural(), &table);
    let pa = result.layout.position_of('a');
    let pz = result.layout.position_of('z');
    let pb = result.layout.position_of('b');
    let py = result.layout.position_of('y');
    let daz = if pa >= pz { pa - pz } else { pz - pa };
    let dby = if pb >= py { pb - py } else { py - pb };
    assert_eq!(daz, 1);
    assert_eq!(dby, 1);
    assert_eq!(result.cost, 10);
    assert_eq!(result.steps, 2);
    // The earliest best swap from the natural order is exchanging
    // positions 0 and 24, which settles both pairs at once.
    assert_eq!(result.layout.canonical_string(), "ybcdefghijklmnopqrstuvwxaz");
    // The valley truly cannot be improved by any single swap.
    let mut best_after_one_swap = result.cost;
    for i in 0..26 {
        for j in (i + 1)..26 {
            // natural order with positions 0 and 24 exchanged rebuilds the
            // valley, as checked on the canonical string above
            let mut candidate = Layout::natural();
            candidate.swap(0, 24);
            candidate.swap(i, j);
            let c = compute_cost(&candidate, &table);
            if c < best_after_one_swap {
                best_after_one_swap = c;
            }
        }
    }
    assert_eq!(best_after_one_swap, result.cost);
}

#[test]
fn identical_inputs_descend_identically() {
    let mut table_one = FrequencyTable::new();
    assert!(table_one.record('e', 't', 9));
    assert!(table_one.record('h', 'e', 4));
    let mut table_two = FrequencyTable::new();
    assert!(table_two.record('e', 't', 9));
    assert!(table_two.record('h', 'e', 4));
    let first = find_valley(Layout::natural(), &table_one);
    let second = find_valley(Layout::natural(), &table_two);
    assert_eq!(first.layout.canonical_string(), second.layout.canonical_string());
    assert_eq!(first.cost, second.cost);
    assert_eq!(first.steps, second.steps);
}

#[test]
fn descent_never_raises_the_cost() {
    let mut table = FrequencyTable::new();
    assert!(table.record('a', 'z', 5));
    assert!(table.record('m', 'n', 2));
    assert!(table.record('q', 'c', 11));
    let start = Layout::natural();
    let start_cost = compute_cost(&start, &table);
    let result = find_valley(start, &table);
    assert!(result.cost <= start_cost);
    assert_eq!(result.cost, compute_cost(&result.layout, &table));
    assert!(result.steps >= 1);
}

#[test]
fn random_layouts_are_permutations_of_the_alphabet() {
    let mut rng = rand::rngs::StdRng::seed_from_u64(7);
    for _ in 0..16 {
        let layout = generate_random_layout(&mut rng);
        let mut chars: Vec<char> = layout.canonical_string().chars().collect();
        chars.sort();
        let sorted: String = chars.into_iter().collect();
        assert_eq!(sorted, "abcdefghijklmnopqrstuvwxyz");
    }
}
