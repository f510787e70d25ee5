//! Spiral counts of phyllotactic arrangements.

use vstd::prelude::*;
use crate::constants::FIBONACCI;
use crate::fibonacci::{fib, lemma_fib_first_terms, lemma_fib_monotone};

verus! {

/// Fewest elements in which spirals can be counted.
pub const MIN_ELEMENTS: usize = 10;

/// The pairs of consecutive positive Fibonacci numbers, among the first
/// `terms` pairs of the sequence, whose larger number is below `count`.
pub open spec fn pairs_below(count: nat, terms: nat) -> Seq<(usize, usize)>
    decreases terms,
{
    if terms == 0 {
        Seq::empty()
    } else {
        let k = (terms - 1) as nat;
        let earlier = pairs_below(count, k);
        if fib(k) > 0 && fib(k + 1) > 0 && fib(k + 1) < count {
            earlier.push((fib(k) as usize, fib(k + 1) as usize))
        } else {
            earlier
        }
    }
}

/// The spiral counts visible in an arrangement of `count` elements: none
/// below ten elements, else every pair of consecutive positive Fibonacci
/// numbers up to the twentieth whose larger number is below `count`, in
/// rising order.
pub open spec fn parastichy_pairs(count: nat) -> Seq<(usize, usize)> {
    if count < MIN_ELEMENTS {
        Seq::empty()
    } else {
        pairs_below(count, 20)
    }
}

/// Counts the visible spirals (parastichies) of an arrangement of `count`
/// elements: the clockwise and counter-clockwise counts are consecutive
/// Fibonacci numbers.
pub fn count_parastichies(count: usize) -> (pairs: Vec<(usize, usize)>)
    ensures
        pairs@ == parastichy_pairs(count as nat),
{
    let mut pairs: Vec<(usize, usize)> = Vec::new();
    if count < MIN_ELEMENTS {
        return pairs;
    }
    proof {
        lemma_fib_first_terms();
    }
    let mut k: usize = 0;
    while k < 20
        invariant
            k <= 20,
            pairs@ == pairs_below(count as nat, k as nat),
            forall|j: int| 0 <= j <= 20 ==> FIBONACCI[j] == fib(j as nat),
            fib(20) == 6765,
        decreases 20 - k,
    {
        proof {
            lemma_fib_monotone(k as nat, 20);
            lemma_fib_monotone((k + 1) as nat, 20);
        }
        let a: usize = FIBONACCI[k] as usize;
        let b: usize = FIBONACCI[k + 1] as usize;
        if a > 0 && b > 0 && b < count {
            pairs.push((a, b));
        }
        k = k + 1;
    }
    pairs
}

} // verus!
