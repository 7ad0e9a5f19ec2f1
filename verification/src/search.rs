//! One search trial and the coordinator's budget arithmetic.  A trial draws
//! a random starting layout, descends to a valley, and submits it to the
//! shared store; workers repeat trials until their share of the budget is
//! spent.

use vstd::prelude::*;
use crate::climb::{OptimizationResult, find_valley};
use crate::cost::table_cost;
use crate::freq::FrequencyTable;
use crate::layout::{SLOT_COUNT, swap_positions};
use crate::random::generate_random_layout;
use crate::store::{ResultStore, StoreError};

verus! {

/// One full trial: draw a random starting layout with `rng`, hill-climb it
/// to a valley, and submit the valley to `store`.  `Ok(Some(..))` reports a
/// genuinely new valley: one not present at the time of the check, whose
/// insert was then submitted.  `Ok(None)` says the valley was already
/// stored.  `Err(..)` says the store could not be reached; the lost result
/// is an acceptable degradation and the caller may simply go on to its next
/// trial.  Whatever the generator yields, a reported valley is well formed,
/// carries the exact cost of its layout, and no single swap improves it.
pub fn run_trial(
    table: &FrequencyTable,
    store: &ResultStore,
    rng: &mut rand::rngs::StdRng,
) -> (r: Result<Option<OptimizationResult>, StoreError>)
    requires
        table.wf(),
    ensures
        match r {
            Ok(Some(res)) => {
                &&& res.layout.wf()
                &&& res.cost == table_cost(table@, res.layout@)
                &&& 1 <= res.steps
                &&& forall|i: int, j: int|
                    0 <= i < j < SLOT_COUNT
                        ==> table_cost(table@, swap_positions(res.layout@, i, j)) >= res.cost
            },
            _ => true,
        },
        r matches Err(e) ==> (e == StoreError::Query || e == StoreError::Insert),
{
    let start = generate_random_layout(rng);
    let valley = find_valley(start, table);
    match store.contains(&valley.layout) {
        Ok(true) => Ok(None),
        Ok(false) => match store.insert(&valley) {
            Ok(_) => Ok(Some(valley)),
            Err(e) => Err(e),
        },
        Err(e) => Err(e),
    }
}

/// The coordinator's split of the total trial budget: every worker runs the
/// same whole number of trials, `budget / workers`.
pub fn trials_per_worker(budget: u64, workers: u64) -> (r: u64)
    requires
        workers > 0,
    ensures
        r == budget / workers,
{
    budget / workers
}

} // verus!
