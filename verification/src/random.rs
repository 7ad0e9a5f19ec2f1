//! Random restart seeds: uniformly random layouts drawn with a
//! caller-supplied generator, so that every worker can shuffle with its own
//! independently seeded source.

use vstd::prelude::*;
use crate::layout::{Layout, SLOT_COUNT, alphabet, alphabet_vec};

verus! {

#[verifier::external_type_specification]
#[verifier::external_body]
pub struct ExStdRng(rand::rngs::StdRng);

/// Relies on rand's `SliceRandom::shuffle` (a Fisher-Yates shuffle): it
/// permutes the elements of the slice in place, so the sequence afterwards
/// holds exactly the elements it held before.  Which permutation comes out
/// depends on the generator's state, so nothing more is promised.
#[verifier::external_body]
fn shuffle_chars(v: &mut Vec<char>, rng: &mut rand::rngs::StdRng)
    ensures
        final(v)@.len() == old(v)@.len(),
        final(v)@.to_multiset() == old(v)@.to_multiset(),
{
    rand::seq::SliceRandom::shuffle(v.as_mut_slice(), rng)
}

/// Produces a layout by shuffling the fixed alphabet with `rng`.  Whatever
/// the generator yields, the result is a well formed layout: a permutation
/// of the alphabet.
pub fn generate_random_layout(rng: &mut rand::rngs::StdRng) -> (r: Layout)
    ensures
        r.wf(),
{
    let mut v = alphabet_vec();
    shuffle_chars(&mut v, rng);
    proof {
        assert(v@.len() == SLOT_COUNT);
        assert(v@.to_multiset() == alphabet().to_multiset());
    }
    Layout::from_permutation(v)
}

} // verus!
