//! The cost model: for every weighted bigram, the weight times the distance
//! between the positions of its two symbols, summed over the table.

use vstd::prelude::*;
use vstd::arithmetic::mul::lemma_mul_inequality;
use crate::freq::{Bigram, FrequencyTable, MAX_TOTAL_WEIGHT, total_weight};
use crate::freq::{lemma_total_weight_take_le, lemma_total_weight_take_step};
use crate::layout::{Layout, SLOT_COUNT, alphabet, is_symbol};

verus! {

/// The position of symbol `c` in the sequence `s`: the index of its first
/// occurrence.
pub open spec fn pos_of(s: Seq<char>, c: char) -> int {
    s.index_of_first(c).unwrap()
}

/// The distance between two positions.
pub open spec fn dist(a: int, b: int) -> nat {
    if a >= b {
        (a - b) as nat
    } else {
        (b - a) as nat
    }
}

/// The contribution of one entry: its weight times the distance between the
/// positions of its two symbols.
pub open spec fn entry_cost(e: Bigram, s: Seq<char>) -> nat {
    (e.weight * dist(pos_of(s, e.first), pos_of(s, e.second))) as nat
}

/// The cost of layout `s` under the entries of a table: the sum of all the
/// entry contributions.
pub open spec fn table_cost(entries: Seq<Bigram>, s: Seq<char>) -> nat
    decreases entries.len(),
{
    if entries.len() == 0 {
        0
    } else {
        (table_cost(entries.drop_last(), s) + entry_cost(entries.last(), s)) as nat
    }
}

/// With all weights non-negative, the cost of any layout under any table is
/// non-negative.
pub proof fn lemma_cost_nonnegative(entries: Seq<Bigram>, s: Seq<char>)
    ensures
        table_cost(entries, s) >= 0,
{
}

/// In a well formed layout every symbol occupies a position below
/// `SLOT_COUNT`.
pub proof fn lemma_pos_of_bounds(s: Seq<char>, c: char)
    requires
        s.len() == SLOT_COUNT,
        s.to_multiset() == alphabet().to_multiset(),
        is_symbol(c),
    ensures
        0 <= pos_of(s, c) < SLOT_COUNT,
        s[pos_of(s, c)] == c,
{
    broadcast use vstd::seq_lib::group_to_multiset_ensures;

    assert(alphabet().to_multiset().count(c) > 0);
    assert(s.contains(c));
    s.index_of_first_ensures(c);
}

/// One entry between symbols contributes at most 25 times its weight.
pub proof fn lemma_entry_cost_bound(e: Bigram, s: Seq<char>)
    requires
        s.len() == SLOT_COUNT,
        s.to_multiset() == alphabet().to_multiset(),
        is_symbol(e.first),
        is_symbol(e.second),
    ensures
        entry_cost(e, s) <= (SLOT_COUNT - 1) * e.weight,
{
    lemma_pos_of_bounds(s, e.first);
    lemma_pos_of_bounds(s, e.second);
    let d = dist(pos_of(s, e.first), pos_of(s, e.second));
    assert(d <= SLOT_COUNT - 1);
    lemma_mul_inequality(d as int, SLOT_COUNT - 1, e.weight as int);
}

/// Extending the summed prefix by one entry adds that entry's contribution.
pub proof fn lemma_table_cost_take_step(entries: Seq<Bigram>, s: Seq<char>, k: int)
    requires
        0 <= k < entries.len(),
    ensures
        table_cost(entries.take(k + 1), s)
            == table_cost(entries.take(k), s) + entry_cost(entries[k], s),
{
    assert(entries.take(k + 1).drop_last() =~= entries.take(k));
    assert(entries.take(k + 1).last() == entries[k]);
}

/// Computes the cost of `layout` under `table`.  Pure and deterministic:
/// the result is exactly the summed cost of the table's entries.
pub fn compute_cost(layout: &Layout, table: &FrequencyTable) -> (cost: u64)
    requires
        layout.wf(),
        table.wf(),
    ensures
        cost == table_cost(table@, layout@),
        cost <= (SLOT_COUNT - 1) * total_weight(table@),
{
    let n = table.len();
    let mut acc: u64 = 0;
    let mut k: usize = 0;
    proof {
        assert(table@.take(0) =~= Seq::<Bigram>::empty());
    }
    while k < n
        invariant
            k <= n,
            n == table@.len(),
            layout.wf(),
            table.wf(),
            acc == table_cost(table@.take(k as int), layout@),
            acc <= (SLOT_COUNT - 1) * total_weight(table@.take(k as int)),
        decreases n - k,
    {
        let e = table.entry(k);
        let pa = layout.position_of(e.first);
        let pb = layout.position_of(e.second);
        let d: u64 = if pa >= pb {
            (pa - pb) as u64
        } else {
            (pb - pa) as u64
        };
        proof {
            assert(d == dist(pos_of(layout@, e.first), pos_of(layout@, e.second)));
            lemma_entry_cost_bound(e, layout@);
            lemma_table_cost_take_step(table@, layout@, k as int);
            lemma_total_weight_take_step(table@, k as int);
            lemma_total_weight_take_le(table@, k as int + 1);
            assert((SLOT_COUNT - 1) * (total_weight(table@.take(k as int)) + e.weight)
                == (SLOT_COUNT - 1) * total_weight(table@.take(k as int))
                    + (SLOT_COUNT - 1) * e.weight) by (nonlinear_arith);
            assert((SLOT_COUNT - 1) * total_weight(table@.take(k as int + 1))
                <= (SLOT_COUNT - 1) * total_weight(table@)) by {
                lemma_mul_inequality(
                    total_weight(table@.take(k as int + 1)) as int,
                    total_weight(table@) as int,
                    (SLOT_COUNT - 1) as int,
                );
            }
            assert(total_weight(table@) <= MAX_TOTAL_WEIGHT);
            assert((SLOT_COUNT - 1) * total_weight(table@)
                <= (SLOT_COUNT - 1) * MAX_TOTAL_WEIGHT) by {
                lemma_mul_inequality(
                    total_weight(table@) as int,
                    MAX_TOTAL_WEIGHT as int,
                    (SLOT_COUNT - 1) as int,
                );
            }
            assert((SLOT_COUNT - 1) * MAX_TOTAL_WEIGHT <= u64::MAX);
        }
        acc = acc + e.weight * d;
        k = k + 1;
    }
    proof {
        assert(table@.take(n as int) =~= table@);
    }
    acc
}

} // verus!
