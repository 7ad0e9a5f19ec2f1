//! The frequency table: a mapping from ordered pairs of distinct symbols
//! (bigrams) to non-negative integer weights.

use vstd::prelude::*;
use crate::layout::is_symbol;

verus! {

/// The largest total weight a table may carry.  With positional distances at
/// most 25, this keeps every cost below `u64::MAX`.
pub const MAX_TOTAL_WEIGHT: u64 = u64::MAX / 25;

/// One weighted bigram: an ordered pair of distinct symbols and its weight.
#[derive(Clone, Copy)]
pub struct Bigram {
    pub first: char,
    pub second: char,
    pub weight: u64,
}

/// The sum of the weights of a sequence of entries.
pub open spec fn total_weight(entries: Seq<Bigram>) -> nat
    decreases entries.len(),
{
    if entries.len() == 0 {
        0
    } else {
        (total_weight(entries.drop_last()) + entries.last().weight) as nat
    }
}

/// The index of the entry keyed by `(a, b)`, if one is present.
pub open spec fn key_index(entries: Seq<Bigram>, a: char, b: char) -> Option<int>
    decreases entries.len(),
{
    if entries.len() == 0 {
        None
    } else if entries[0].first == a && entries[0].second == b {
        Some(0)
    } else {
        match key_index(entries.drop_first(), a, b) {
            None => None,
            Some(k) => Some(k + 1),
        }
    }
}

/// What a table looks like after recording weight `w` for the bigram
/// `(a, b)`: the existing entry is overwritten, or a new one is appended.
pub open spec fn spec_record(entries: Seq<Bigram>, a: char, b: char, w: u64) -> Seq<Bigram> {
    let e = Bigram { first: a, second: b, weight: w };
    match key_index(entries, a, b) {
        Some(k) => entries.update(k, e),
        None => entries.push(e),
    }
}

/// `key_index` finds the first entry with the given key, and `None` only
/// when no entry has it.
pub proof fn lemma_key_index_characterizes(entries: Seq<Bigram>, a: char, b: char)
    ensures
        match key_index(entries, a, b) {
            Some(k) => {
                &&& 0 <= k < entries.len()
                &&& entries[k].first == a && entries[k].second == b
                &&& forall|l: int|
                    0 <= l < k ==> !(entries[l].first == a && entries[l].second == b)
            },
            None => forall|l: int|
                0 <= l < entries.len() ==> !(entries[l].first == a && entries[l].second == b),
        },
    decreases entries.len(),
{
    if entries.len() > 0 {
        if entries[0].first == a && entries[0].second == b {
        } else {
            lemma_key_index_characterizes(entries.drop_first(), a, b);
            assert(forall|l: int|
                0 < l < entries.len() ==> entries[l] == entries.drop_first()[l - 1]);
        }
    }
}

/// Overwriting one entry changes the total weight by the difference of the
/// two weights.
pub proof fn lemma_total_weight_update(entries: Seq<Bigram>, k: int, e: Bigram)
    requires
        0 <= k < entries.len(),
    ensures
        total_weight(entries.update(k, e)) + entries[k].weight
            == total_weight(entries) + e.weight,
    decreases entries.len(),
{
    let u = entries.update(k, e);
    if k == entries.len() - 1 {
        assert(u.drop_last() =~= entries.drop_last());
        assert(u.last() == e);
    } else {
        assert(u.drop_last() =~= entries.drop_last().update(k, e));
        assert(u.last() == entries.last());
        lemma_total_weight_update(entries.drop_last(), k, e);
    }
}

/// Appending an entry adds its weight to the total.
pub proof fn lemma_total_weight_push(entries: Seq<Bigram>, e: Bigram)
    ensures
        total_weight(entries.push(e)) == total_weight(entries) + e.weight,
{
    assert(entries.push(e).drop_last() =~= entries);
    assert(entries.push(e).last() == e);
}

/// The total weight of a prefix never exceeds the total weight of the whole
/// sequence.
pub proof fn lemma_total_weight_take_le(entries: Seq<Bigram>, k: int)
    requires
        0 <= k <= entries.len(),
    ensures
        total_weight(entries.take(k)) <= total_weight(entries),
    decreases entries.len(),
{
    if k == entries.len() {
        assert(entries.take(k) =~= entries);
    } else if entries.len() > 0 {
        assert(entries.take(k) =~= entries.drop_last().take(k));
        lemma_total_weight_take_le(entries.drop_last(), k);
    }
}

/// Extending a prefix by one entry adds that entry's weight.
pub proof fn lemma_total_weight_take_step(entries: Seq<Bigram>, k: int)
    requires
        0 <= k < entries.len(),
    ensures
        total_weight(entries.take(k + 1)) == total_weight(entries.take(k)) + entries[k].weight,
{
    assert(entries.take(k + 1).drop_last() =~= entries.take(k));
    assert(entries.take(k + 1).last() == entries[k]);
}

/// A read-only table of weighted bigrams, loaded once and then shared by all
/// workers.
pub struct FrequencyTable {
    entries: Vec<Bigram>,
    total: u64,
}

impl View for FrequencyTable {
    type V = Seq<Bigram>;

    closed spec fn view(&self) -> Seq<Bigram> {
        self.entries@
    }
}

impl FrequencyTable {
    /// The running total carried by the table, used to bound every cost.
    pub closed spec fn spec_total(self) -> u64 {
        self.total
    }

    /// A table is well formed when every entry joins two distinct symbols,
    /// no two entries share a key, and the weights sum to at most
    /// `MAX_TOTAL_WEIGHT`.
    pub open spec fn wf(self) -> bool {
        &&& forall|k: int|
            0 <= k < self@.len() ==> {
                &&& is_symbol(#[trigger] self@[k].first)
                &&& is_symbol(self@[k].second)
                &&& self@[k].first != self@[k].second
            }
        &&& forall|k: int, l: int|
            0 <= k < l < self@.len()
                ==> !(#[trigger] self@[k].first == #[trigger] self@[l].first
                    && self@[k].second == self@[l].second)
        &&& self.spec_total() == total_weight(self@)
        &&& total_weight(self@) <= MAX_TOTAL_WEIGHT
    }

    /// An empty table.
    pub fn new() -> (r: FrequencyTable)
        ensures
            r.wf(),
            r@ == Seq::<Bigram>::empty(),
    {
        let r = FrequencyTable { entries: Vec::new(), total: 0 };
        proof {
            assert(r@ =~= Seq::<Bigram>::empty());
        }
        r
    }

    /// The number of entries.
    pub fn len(&self) -> (n: usize)
        ensures
            n == self@.len(),
    {
        self.entries.len()
    }

    /// The entry at index `k`.
    pub fn entry(&self, k: usize) -> (e: Bigram)
        requires
            k < self@.len(),
        ensures
            e == self@[k as int],
    {
        self.entries[k]
    }

    /// The index of the entry keyed by `(a, b)`, if one is present.
    fn find_key(&self, a: char, b: char) -> (r: Option<usize>)
        ensures
            match r {
                Some(k) => key_index(self@, a, b) == Some(k as int),
                None => key_index(self@, a, b) is None,
            },
    {
        proof {
            lemma_key_index_characterizes(self@, a, b);
        }
        let n = self.entries.len();
        let mut i: usize = 0;
        while i < n
            invariant
                i <= n,
                n == self@.len(),
                match key_index(self@, a, b) {
                    Some(k) => 0 <= k < self@.len() && self@[k].first == a
                        && self@[k].second == b
                        && forall|l: int|
                            0 <= l < k ==> !(self@[l].first == a && self@[l].second == b),
                    None => forall|l: int|
                        0 <= l < self@.len() ==> !(self@[l].first == a && self@[l].second == b),
                },
                forall|l: int| 0 <= l < i ==> !(self@[l].first == a && self@[l].second == b),
            decreases n - i,
        {
            let e = self.entries[i];
            if e.first == a && e.second == b {
                return Some(i);
            }
            i = i + 1;
        }
        None
    }

    /// Records weight `w` for the bigram `(a, b)`, overwriting any weight
    /// recorded for it before.  Returns `false`, leaving the table
    /// unchanged, exactly when the new total weight would exceed
    /// `MAX_TOTAL_WEIGHT`.
    pub fn record(&mut self, a: char, b: char, w: u64) -> (ok: bool)
        requires
            old(self).wf(),
            is_symbol(a),
            is_symbol(b),
            a != b,
        ensures
            final(self).wf(),
            total_weight(spec_record(old(self)@, a, b, w)) <= MAX_TOTAL_WEIGHT ==> {
                &&& ok
                &&& final(self)@ == spec_record(old(self)@, a, b, w)
            },
            total_weight(spec_record(old(self)@, a, b, w)) > MAX_TOTAL_WEIGHT ==> {
                &&& !ok
                &&& final(self)@ == old(self)@
            },
    {
        proof {
            lemma_key_index_characterizes(self@, a, b);
        }
        let ghost entries0 = self@;
        let e = Bigram { first: a, second: b, weight: w };
        match self.find_key(a, b) {
            Some(k) => {
                let prev = self.entries[k].weight;
                proof {
                    lemma_total_weight_update(entries0, k as int, e);
                    lemma_total_weight_take_step(entries0, k as int);
                    lemma_total_weight_take_le(entries0, k as int + 1);
                }
                // new total = total - prev + w, computed without overflow
                let base = self.total - prev;
                if w <= MAX_TOTAL_WEIGHT - base {
                    self.entries.set(k, e);
                    self.total = base + w;
                    proof {
                        lemma_wf_after_update(entries0, k as int, e);
                    }
                    true
                } else {
                    false
                }
            },
            None => {
                proof {
                    lemma_total_weight_push(entries0, e);
                }
                if w <= MAX_TOTAL_WEIGHT - self.total {
                    self.total = self.total + w;
                    self.entries.push(e);
                    proof {
                        lemma_wf_after_push(entries0, e);
                    }
                    true
                } else {
                    false
                }
            },
        }
    }
}

/// Overwriting an entry with one that carries the same key preserves the
/// key invariants of a well formed table.
proof fn lemma_wf_after_update(entries: Seq<Bigram>, k: int, e: Bigram)
    requires
        0 <= k < entries.len(),
        entries[k].first == e.first,
        entries[k].second == e.second,
    ensures
        forall|l: int, m: int|
            0 <= l < m < entries.len()
                ==> ((#[trigger] entries[l].first == #[trigger] entries[m].first
                    && entries[l].second == entries[m].second)
                    <==> (entries.update(k, e)[l].first == entries.update(k, e)[m].first
                        && entries.update(k, e)[l].second == entries.update(k, e)[m].second)),
{
}

/// Appending an entry whose key is absent preserves the key invariants of a
/// well formed table.
proof fn lemma_wf_after_push(entries: Seq<Bigram>, e: Bigram)
    ensures
        forall|l: int|
            0 <= l < entries.len() ==> entries.push(e)[l] == entries[l],
        entries.push(e)[entries.len() as int] == e,
{
}

} // verus!
