//! Fibonacci numbers, which count the spirals of many plants.

use vstd::prelude::*;
use crate::fibonacci::{
    fib, is_fibonacci_number, is_square, lemma_fib_first_terms, lemma_fib_last_term,
    lemma_fib_monotone, lemma_square_test_exact, passes_square_test,
};

verus! {

/// The Fibonacci numbers up to the twentieth.
pub const FIBONACCI: [u64; 21] = [
    0, 1, 1, 2, 3, 5, 8, 13, 21, 34, 55, 89, 144, 233, 377, 610, 987, 1597, 2584, 4181, 6765,
];

/// Fibonacci numbers that are common petal counts of flowers.
pub const PETAL_COUNTS: [u64; 8] = [1, 2, 3, 5, 8, 13, 21, 34];

/// How many terms of the sequence fit a 64-bit word.
pub const FIBONACCI_TERMS: usize = 94;

/// The largest `n` for which `5 * n * n + 4` fits a 64-bit word.
pub const FIBONACCI_TEST_MAX: u64 = 1920767766;

/// The first `n` Fibonacci numbers, starting from 0.
pub fn fibonacci_sequence(n: usize) -> (terms: Vec<u64>)
    requires
        n <= FIBONACCI_TERMS,
    ensures
        terms@.len() == n,
        forall|i: int| 0 <= i < n ==> terms@[i] == fib(i as nat),
{
    if n == 0 {
        return Vec::new();
    }
    let mut terms: Vec<u64> = Vec::with_capacity(n);
    terms.push(0);
    if n >= 2 {
        terms.push(1);
    }
    let mut i: usize = 2;
    while i < n
        invariant
            n <= FIBONACCI_TERMS,
            2 <= i,
            terms@.len() == if n < i { n } else { i },
            forall|k: int| 0 <= k < terms@.len() ==> terms@[k] == fib(k as nat),
        decreases n - i,
    {
        proof {
            lemma_fib_last_term();
            lemma_fib_monotone(i as nat, 93);
        }
        let next: u64 = terms[i - 1] + terms[i - 2];
        terms.push(next);
        i = i + 1;
    }
    terms
}

/// The whole part of the square root of `x`.
fn integer_sqrt(x: u64) -> (root: u64)
    ensures
        root * root <= x < (root + 1) * (root + 1),
{
    let mut low: u64 = 0;
    let mut high: u64 = 4294967296;
    assert(x < 4294967296 * 4294967296);
    while high - low > 1
        invariant
            low < high <= 4294967296,
            low * low <= x < high * high,
        decreases high - low,
    {
        let mid: u64 = low + (high - low) / 2;
        assert(mid * mid <= 4294967295 * 4294967295) by (nonlinear_arith)
            requires
                mid <= 4294967295,
        ;
        if mid * mid <= x {
            low = mid;
        } else {
            high = mid;
        }
    }
    low
}

/// Whether `x` is a perfect square.
fn perfect_square(x: u64) -> (yes: bool)
    ensures
        yes == is_square(x as int),
{
    let root: u64 = integer_sqrt(x);
    assert(root * root <= 18446744073709551615);
    let yes = root * root == x;
    proof {
        if yes {
            assert((root as int) * (root as int) == x);
        } else {
            assert forall|r: int| 0 <= r implies #[trigger] (r * r) != x by {
                if r <= root {
                    if r < root {
                        assert(r * r <= (root - 1) * root) by (nonlinear_arith)
                            requires
                                0 <= r <= root - 1,
                        ;
                        assert((root - 1) * root < root * root || root == 0) by (nonlinear_arith)
                            requires
                                0 <= root,
                        ;
                    }
                } else {
                    assert(r * r >= (root + 1) * (root + 1)) by (nonlinear_arith)
                        requires
                            r >= root + 1,
                            root >= 0,
                    ;
                }
            }
        }
    }
    yes
}

/// Whether `n` is a Fibonacci number, decided by the classical criterion:
/// `5 * n * n + 4` or `5 * n * n - 4` is a perfect square.
pub fn is_fibonacci(n: u64) -> (yes: bool)
    requires
        n <= FIBONACCI_TEST_MAX,
    ensures
        yes == is_fibonacci_number(n as nat),
        yes == passes_square_test(n as int),
{
    proof {
        lemma_square_test_exact(n as nat);
    }
    assert(n * n <= 1920767766 * 1920767766) by (nonlinear_arith)
        requires
            n <= 1920767766,
    ;
    let scaled: u64 = 5 * (n * n);
    assert(5 * n * n == 5 * (n * n)) by (nonlinear_arith);
    if perfect_square(scaled + 4) {
        return true;
    }
    if scaled < 4 {
        // Only zero gets here, and 4 is a square.
        assert(n == 0) by (nonlinear_arith)
            requires
                5 * (n * n) < 4,
        ;
        assert(2 * 2 == 4);
        return true;
    }
    perfect_square(scaled - 4)
}

/// The table holds the Fibonacci numbers.
pub proof fn lemma_table_is_fibonacci()
    ensures
        forall|k: int| 0 <= k <= 20 ==> FIBONACCI[k] == fib(k as nat),
        forall|k: int| 0 <= k < 8 ==> PETAL_COUNTS[k] == fib((k + 2) as nat),
{
    lemma_fib_first_terms();
}

} // verus!
