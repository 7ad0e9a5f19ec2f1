//! Steepest-descent local search over the single-swap neighbourhood: from a
//! starting layout, repeatedly apply the best improving pairwise swap until
//! none improves the cost, and return the resulting valley.

use vstd::prelude::*;
use crate::cost::{compute_cost, table_cost};
use crate::freq::{Bigram, FrequencyTable, MAX_TOTAL_WEIGHT, total_weight};
use crate::layout::{Layout, SLOT_COUNT, lemma_swap_positions_multiset, swap_positions};

verus! {

/// The outcome of one descent: the valley reached, its cost, and the number
/// of iterations executed (the final, non-improving check included).
pub struct OptimizationResult {
    pub layout: Layout,
    pub cost: u64,
    pub steps: u64,
}

/// Scans the candidate swaps `(i, j), (i, j + 1), ..., (i, SLOT_COUNT - 1)`,
/// folding into `acc` the first candidate achieving the lowest cost seen so
/// far, together with that cost.
pub open spec fn scan_j(
    s: Seq<char>,
    t: Seq<Bigram>,
    i: int,
    j: int,
    acc: (Option<(int, int)>, nat),
) -> (Option<(int, int)>, nat)
    decreases SLOT_COUNT - j,
{
    if j >= SLOT_COUNT {
        acc
    } else {
        let c = table_cost(t, swap_positions(s, i, j));
        let acc2 = if c < acc.1 {
            (Some((i, j)), c)
        } else {
            acc
        };
        scan_j(s, t, i, j + 1, acc2)
    }
}

/// Scans the candidate swaps of all rows `i, i + 1, ..., SLOT_COUNT - 1`,
/// each row `i'` covering the pairs `(i', j)` with `i' < j < SLOT_COUNT`, in
/// ascending `i` then ascending `j` order.
pub open spec fn scan_i(
    s: Seq<char>,
    t: Seq<Bigram>,
    i: int,
    acc: (Option<(int, int)>, nat),
) -> (Option<(int, int)>, nat)
    decreases SLOT_COUNT - i,
{
    if i >= SLOT_COUNT {
        acc
    } else {
        scan_i(s, t, i + 1, scan_j(s, t, i, i + 1, acc))
    }
}

/// The best single swap of `s` under `t`: `None` when no swap strictly
/// reduces the cost, otherwise the earliest pair (ascending `i`, then
/// ascending `j`) achieving the lowest reachable cost, with that cost.
pub open spec fn best_swap(s: Seq<char>, t: Seq<Bigram>) -> (Option<(int, int)>, nat) {
    scan_i(s, t, 0, (None, table_cost(t, s)))
}

/// What a scan accumulator means: either no improving candidate was seen
/// and the tracked cost is the current one, or the tracked pair is a valid
/// candidate achieving the tracked cost, strictly below the current one.
pub open spec fn acc_sound(s: Seq<char>, t: Seq<Bigram>, acc: (Option<(int, int)>, nat)) -> bool {
    match acc.0 {
        None => acc.1 == table_cost(t, s),
        Some(p) => {
            &&& 0 <= p.0 < p.1 < SLOT_COUNT
            &&& acc.1 == table_cost(t, swap_positions(s, p.0, p.1))
            &&& acc.1 < table_cost(t, s)
        },
    }
}

/// A row scan preserves accumulator soundness, never raises the tracked
/// cost, and leaves it at or below the cost of every candidate it scanned.
pub proof fn lemma_scan_j_sound(
    s: Seq<char>,
    t: Seq<Bigram>,
    i: int,
    j: int,
    acc: (Option<(int, int)>, nat),
)
    requires
        acc_sound(s, t, acc),
        0 <= i < SLOT_COUNT,
        i < j,
    ensures
        acc_sound(s, t, scan_j(s, t, i, j, acc)),
        scan_j(s, t, i, j, acc).1 <= acc.1,
        forall|j2: int|
            j <= j2 < SLOT_COUNT
                ==> scan_j(s, t, i, j, acc).1 <= table_cost(t, swap_positions(s, i, j2)),
    decreases SLOT_COUNT - j,
{
    if j < SLOT_COUNT {
        let c = table_cost(t, swap_positions(s, i, j));
        let acc2 = if c < acc.1 {
            (Some((i, j)), c)
        } else {
            acc
        };
        lemma_scan_j_sound(s, t, i, j + 1, acc2);
    }
}

/// A full scan from row `i` preserves accumulator soundness, never raises
/// the tracked cost, and leaves it at or below the cost of every candidate
/// pair in the remaining rows.
pub proof fn lemma_scan_i_sound(
    s: Seq<char>,
    t: Seq<Bigram>,
    i: int,
    acc: (Option<(int, int)>, nat),
)
    requires
        acc_sound(s, t, acc),
        0 <= i,
    ensures
        acc_sound(s, t, scan_i(s, t, i, acc)),
        scan_i(s, t, i, acc).1 <= acc.1,
        forall|i2: int, j2: int|
            i <= i2 < j2 < SLOT_COUNT
                ==> scan_i(s, t, i, acc).1 <= table_cost(t, swap_positions(s, i2, j2)),
    decreases SLOT_COUNT - i,
{
    if i < SLOT_COUNT {
        let inner = scan_j(s, t, i, i + 1, acc);
        lemma_scan_j_sound(s, t, i, i + 1, acc);
        lemma_scan_i_sound(s, t, i + 1, inner);
    }
}

/// The best swap is sound: when present it is a valid, strictly improving
/// pair achieving the lowest cost over the whole neighbourhood; when absent
/// no single swap strictly improves the cost.
pub proof fn lemma_best_swap_sound(s: Seq<char>, t: Seq<Bigram>)
    ensures
        acc_sound(s, t, best_swap(s, t)),
        best_swap(s, t).1 <= table_cost(t, s),
        forall|i: int, j: int|
            0 <= i < j < SLOT_COUNT
                ==> best_swap(s, t).1 <= table_cost(t, swap_positions(s, i, j)),
{
    lemma_scan_i_sound(s, t, 0, (None, table_cost(t, s)));
}

/// The steepest descent from layout `s` under table `t`: the valley
/// reached, its cost, and the number of iterations taken, the final
/// non-improving check included.  Each iteration applies the best improving
/// swap; the cost strictly decreases until none improves, so the descent
/// terminates.
pub open spec fn descend(s: Seq<char>, t: Seq<Bigram>) -> (Seq<char>, nat, nat)
    decreases table_cost(t, s),
{
    let bs = best_swap(s, t);
    match bs.0 {
        None => (s, table_cost(t, s), 1),
        Some(p) => {
            proof {
                lemma_best_swap_sound(s, t);
            }
            let rec = descend(swap_positions(s, p.0, p.1), t);
            (rec.0, rec.1, (rec.2 + 1) as nat)
        },
    }
}

/// The descent reaches a true valley with a non-increasing cost sequence:
/// its result carries the cost of its own layout, never more than the
/// starting cost; it runs for at least one and at most cost-plus-one
/// iterations; no single swap of the result strictly reduces its cost; and
/// the resulting layout is a permutation of the starting one.
pub proof fn lemma_descend_props(s: Seq<char>, t: Seq<Bigram>)
    ensures
        descend(s, t).1 == table_cost(t, descend(s, t).0),
        descend(s, t).1 <= table_cost(t, s),
        1 <= descend(s, t).2,
        descend(s, t).2 + descend(s, t).1 <= table_cost(t, s) + 1,
        forall|i: int, j: int|
            0 <= i < j < SLOT_COUNT
                ==> table_cost(t, swap_positions(descend(s, t).0, i, j)) >= descend(s, t).1,
        s.len() == SLOT_COUNT ==> descend(s, t).0.len() == SLOT_COUNT,
        s.len() == SLOT_COUNT ==> descend(s, t).0.to_multiset() == s.to_multiset(),
    decreases table_cost(t, s),
{
    lemma_best_swap_sound(s, t);
    let bs = best_swap(s, t);
    match bs.0 {
        None => {},
        Some(p) => {
            let s2 = swap_positions(s, p.0, p.1);
            if s.len() == SLOT_COUNT {
                lemma_swap_positions_multiset(s, p.0, p.1);
            }
            lemma_descend_props(s2, t);
        },
    }
}

/// Every iteration of the descent either strictly lowers the cost or ends
/// the search: the cost sequence across the iterations is non-increasing,
/// and, the cost being a non-negative integer, the descent terminates
/// within cost-plus-one iterations.
pub proof fn lemma_descent_monotone(s: Seq<char>, t: Seq<Bigram>)
    ensures
        best_swap(s, t).0 matches Some(p)
            ==> table_cost(t, swap_positions(s, p.0, p.1)) < table_cost(t, s),
        descend(s, t).1 <= table_cost(t, s),
        descend(s, t).2 <= table_cost(t, s) + 1,
{
    lemma_best_swap_sound(s, t);
    lemma_descend_props(s, t);
}

/// Determinism: two descents from identical starting layouts under
/// identical tables produce identical layouts, costs and step counts.
pub proof fn lemma_descend_deterministic(
    s1: Seq<char>,
    t1: Seq<Bigram>,
    s2: Seq<char>,
    t2: Seq<Bigram>,
)
    requires
        s1 == s2,
        t1 == t2,
    ensures
        descend(s1, t1) == descend(s2, t2),
{
}

/// A row scan over an empty table never finds an improving candidate.
proof fn lemma_scan_j_empty(s: Seq<char>, t: Seq<Bigram>, i: int, j: int)
    requires
        t.len() == 0,
    ensures
        scan_j(s, t, i, j, (None, 0nat)) == (None::<(int, int)>, 0nat),
    decreases SLOT_COUNT - j,
{
    if j < SLOT_COUNT {
        lemma_scan_j_empty(s, t, i, j + 1);
    }
}

/// A full scan over an empty table never finds an improving candidate.
proof fn lemma_scan_i_empty(s: Seq<char>, t: Seq<Bigram>, i: int)
    requires
        t.len() == 0,
    ensures
        scan_i(s, t, i, (None, 0nat)) == (None::<(int, int)>, 0nat),
    decreases SLOT_COUNT - i,
{
    if i < SLOT_COUNT {
        lemma_scan_j_empty(s, t, i, i + 1);
        lemma_scan_i_empty(s, t, i + 1);
    }
}

/// Under an empty table every layout costs 0, no swap improves it, and the
/// descent terminates at once: one step, the layout unchanged.
pub proof fn lemma_descend_empty_table(s: Seq<char>, t: Seq<Bigram>)
    requires
        t.len() == 0,
    ensures
        descend(s, t) == (s, 0nat, 1nat),
{
    lemma_scan_i_empty(s, t, 0);
}

/// The scan accumulator a running pass carries, as the specification sees
/// it.
pub open spec fn acc_of(best: Option<(usize, usize)>, bc: u64) -> (Option<(int, int)>, nat) {
    match best {
        None => (None::<(int, int)>, bc as nat),
        Some(p) => (Some((p.0 as int, p.1 as int)), bc as nat),
    }
}

/// Drives `start` to a valley by steepest descent: in every iteration all
/// unordered position pairs are tried in ascending `(i, j)` order, and the
/// earliest swap achieving the lowest cost is applied if it strictly
/// improves; otherwise the search stops.  The result is exactly the descent
/// the specification `descend` describes, so it is deterministic; its
/// layout is a valley no single swap improves.
#[verifier::loop_isolation(false)]
pub fn find_valley(start: Layout, table: &FrequencyTable) -> (r: OptimizationResult)
    requires
        start.wf(),
        table.wf(),
    ensures
        r.layout@ == descend(start@, table@).0,
        r.cost == descend(start@, table@).1,
        r.steps == descend(start@, table@).2,
        r.layout.wf(),
        r.cost == table_cost(table@, r.layout@),
        r.cost <= table_cost(table@, start@),
        1 <= r.steps,
        forall|i: int, j: int|
            0 <= i < j < SLOT_COUNT
                ==> table_cost(table@, swap_positions(r.layout@, i, j)) >= r.cost,
{
    let ghost t = table@;
    let ghost s_start = start@;
    let mut layout = start;
    let mut current_cost = compute_cost(&layout, table);
    let mut steps: u64 = 0;
    proof {
        lemma_descend_props(s_start, t);
        vstd::arithmetic::mul::lemma_mul_inequality(
            total_weight(t) as int,
            MAX_TOTAL_WEIGHT as int,
            (SLOT_COUNT - 1) as int,
        );
        assert(table_cost(t, s_start) + 1 <= u64::MAX);
    }
    loop
        invariant
            layout.wf(),
            table.wf(),
            t == table@,
            current_cost == table_cost(t, layout@),
            descend(layout@, t).0 == descend(s_start, t).0,
            descend(layout@, t).1 == descend(s_start, t).1,
            descend(s_start, t).2 == descend(layout@, t).2 + steps,
            descend(s_start, t).2 + descend(s_start, t).1 <= table_cost(t, s_start) + 1,
            table_cost(t, s_start) + 1 <= u64::MAX,
        decreases table_cost(t, layout@),
    {
        let ghost s0 = layout@;
        proof {
            lemma_best_swap_sound(s0, t);
            lemma_descend_props(s0, t);
        }
        let mut best: Option<(usize, usize)> = None;
        let mut best_cost = current_cost;
        let mut i: usize = 0;
        while i < SLOT_COUNT
            invariant
                i <= SLOT_COUNT,
                layout.wf(),
                table.wf(),
                t == table@,
                layout@ == s0,
                current_cost == table_cost(t, s0),
                acc_sound(s0, t, acc_of(best, best_cost)),
                scan_i(s0, t, i as int, acc_of(best, best_cost)) == best_swap(s0, t),
            decreases SLOT_COUNT - i,
        {
            let mut j: usize = i + 1;
            while j < SLOT_COUNT
                invariant
                    i < SLOT_COUNT,
                    i + 1 <= j <= SLOT_COUNT,
                    layout.wf(),
                    table.wf(),
                    t == table@,
                    layout@ == s0,
                    current_cost == table_cost(t, s0),
                    acc_sound(s0, t, acc_of(best, best_cost)),
                    scan_i(
                        s0,
                        t,
                        i as int + 1,
                        scan_j(s0, t, i as int, j as int, acc_of(best, best_cost)),
                    ) == best_swap(s0, t),
                decreases SLOT_COUNT - j,
            {
                let ghost acc0 = acc_of(best, best_cost);
                layout.swap(i, j);
                let c = compute_cost(&layout, table);
                proof {
                    assert(layout@ == swap_positions(s0, i as int, j as int));
                }
                if c < best_cost {
                    best = Some((i, j));
                    best_cost = c;
                }
                layout.swap(i, j);
                proof {
                    assert(layout@ =~= s0);
                    assert(scan_j(s0, t, i as int, j as int, acc0)
                        == scan_j(s0, t, i as int, j as int + 1, acc_of(best, best_cost)));
                }
                j = j + 1;
            }
            i = i + 1;
        }
        match best {
            Some(p) => {
                proof {
                    assert(best_swap(s0, t).0 == Some((p.0 as int, p.1 as int)));
                }
                layout.swap(p.0, p.1);
                current_cost = best_cost;
                steps = steps + 1;
                proof {
                    assert(layout@ == swap_positions(s0, p.0 as int, p.1 as int));
                    assert(descend(s0, t).0 == descend(layout@, t).0
                        && descend(s0, t).1 == descend(layout@, t).1
                        && descend(s0, t).2 == descend(layout@, t).2 + 1);
                    lemma_descend_props(layout@, t);
                }
            },
            None => {
                steps = steps + 1;
                proof {
                    assert(best_swap(s0, t).0 is None);
                    assert(descend(s0, t) == (s0, table_cost(t, s0), 1nat));
                    lemma_descend_props(s_start, t);
                }
                return OptimizationResult { layout, cost: current_cost, steps };
            },
        }
    }
}

} // verus!
