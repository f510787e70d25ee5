//! A small seedable xorshift generator for reproducible pattern seeds.

use vstd::prelude::*;

verus! {

/// One round of the 64-bit xorshift transformation with shifts 13, 7, 17
/// (left, right, left), each followed by an xor into the word itself.
pub open spec fn xorshift(s: u64) -> u64 {
    let a = s ^ (s << 13);
    let b = a ^ (a >> 7);
    b ^ (b << 17)
}

/// The state a generator starts from for a given seed: the seed itself,
/// except that zero (the fixed point of the transformation) becomes one.
pub open spec fn initial_state(seed: u64) -> u64 {
    if seed == 0 { 1 } else { seed }
}

/// The state of a generator built from `seed` after `draws` values were
/// taken from it.
pub open spec fn state_after(seed: u64, draws: nat) -> u64
    decreases draws,
{
    if draws == 0 {
        initial_state(seed)
    } else {
        xorshift(state_after(seed, (draws - 1) as nat))
    }
}

/// The value that the draw number `n` (counting from 0) of a generator
/// built from `seed` returns.
pub open spec fn nth_output(seed: u64, n: nat) -> u64 {
    state_after(seed, n + 1)
}

/// Deterministic xorshift64 generator. Its whole state is one nonzero word.
pub struct SimpleRng {
    state: u64,
}

impl SimpleRng {
    #[verifier::type_invariant]
    spec fn nonzero(self) -> bool {
        self.state != 0
    }

    /// The current 64-bit state word.
    pub closed spec fn state(self) -> u64 {
        self.state
    }

    pub fn new(seed: u64) -> (rng: Self)
        ensures
            rng.state() == initial_state(seed),
    {
        SimpleRng { state: if seed == 0 { 1 } else { seed } }
    }

    pub fn next_u64(&mut self) -> (raw: u64)
        ensures
            raw == xorshift(old(self).state()),
            final(self).state() == raw,
            raw != 0,
    {
        proof {
            use_type_invariant(&*self);
            lemma_xorshift_nonzero(self.state);
        }
        let s0: u64 = self.state;
        let s1: u64 = s0 ^ (s0 << 13);
        let s2: u64 = s1 ^ (s1 >> 7);
        let s3: u64 = s2 ^ (s2 << 17);
        self.state = s3;
        s3
    }

    pub fn next_usize(&mut self, bound: usize) -> (index: usize)
        requires
            bound > 0,
        ensures
            final(self).state() == xorshift(old(self).state()),
            index == xorshift(old(self).state()) % (bound as u64),
            index < bound,
    {
        let raw: u64 = self.next_u64();
        (raw % (bound as u64)) as usize
    }
}

/// The transformation never maps a nonzero word to zero, so a generator that
/// starts nonzero stays nonzero forever.
pub proof fn lemma_xorshift_nonzero(s: u64)
    requires
        s != 0,
    ensures
        xorshift(s) != 0,
{
    assert(s != 0 ==> xorshift(s) != 0) by (bit_vector);
}

/// The transformation is one-to-one: distinct states have distinct
/// successors, so the stream of a generator never merges with another.
pub proof fn lemma_xorshift_injective(s: u64, t: u64)
    requires
        xorshift(s) == xorshift(t),
    ensures
        s == t,
{
    assert(xorshift(s) == xorshift(t) ==> s == t) by (bit_vector);
}

} // verus!
