//! A seeded generator of pseudo-random numbers and the shuffle that draws
//! keys with it. The same seed always gives the same numbers, so a search
//! can be repeated.

use crate::alphabet::{is_permutation, lemma_swapped_permutation, swap, swapped};
use vstd::prelude::*;

verus! {

/// The multiplier of the generator's step.
pub const MULTIPLIER: u64 = 6364136223846793005;

/// The increment of the generator's step.
pub const INCREMENT: u64 = 1442695040888963407;

/// The state that follows `state`: a linear congruential step modulo 2^64.
pub open spec fn advance(state: u64) -> u64 {
    state.wrapping_mul(MULTIPLIER).wrapping_add(INCREMENT)
}

/// The state after `steps` steps.
pub open spec fn advanced(state: u64, steps: nat) -> u64
    decreases steps,
{
    if steps == 0 {
        state
    } else {
        advanced(advance(state), (steps - 1) as nat)
    }
}

/// The number that a state yields: its upper 32 bits.
pub open spec fn drawn(state: u64) -> u64 {
    state / 0x1_0000_0000
}

/// The shuffle of the characters at `0 ..= i`, from the last down: each is
/// exchanged with one at or before it, which the next state chooses.
pub open spec fn shuffled_from(items: Seq<char>, state: u64, i: nat) -> Seq<char>
    decreases i,
{
    if i == 0 {
        items
    } else {
        let next = advance(state);
        let j = drawn(next) as int % (i + 1) as int;
        shuffled_from(swapped(items, i as int, j), next, (i - 1) as nat)
    }
}

/// The shuffle of all of `items` that starts in `state`.
pub open spec fn shuffled(items: Seq<char>, state: u64) -> Seq<char> {
    if items.len() == 0 {
        items
    } else {
        shuffled_from(items, state, (items.len() - 1) as nat)
    }
}

/// The number of steps that the shuffle of `len` items takes.
pub open spec fn shuffle_steps(len: nat) -> nat {
    if len == 0 {
        0
    } else {
        (len - 1) as nat
    }
}

/// A shuffle of a permutation of an alphabet is one too.
pub proof fn lemma_shuffled_from_permutation(
    items: Seq<char>,
    alphabet: Seq<char>,
    state: u64,
    i: nat,
)
    requires
        is_permutation(items, alphabet),
        i < items.len(),
    ensures
        is_permutation(shuffled_from(items, state, i), alphabet),
    decreases i,
{
    if i > 0 {
        let next = advance(state);
        let j = drawn(next) as int % (i + 1) as int;
        lemma_swapped_permutation(items, alphabet, i as int, j);
        lemma_shuffled_from_permutation(swapped(items, i as int, j), alphabet, next, (i - 1) as nat);
    }
}

/// A shuffle of a permutation of an alphabet is one too.
pub proof fn lemma_shuffled_permutation(items: Seq<char>, alphabet: Seq<char>, state: u64)
    requires
        is_permutation(items, alphabet),
    ensures
        is_permutation(shuffled(items, state), alphabet),
{
    if items.len() > 0 {
        lemma_shuffled_from_permutation(items, alphabet, state, (items.len() - 1) as nat);
    }
}

/// A generator of pseudo-random numbers.
pub struct Generator {
    state: u64,
}

impl Generator {
    /// The state from which the next number is derived.
    pub closed spec fn state(&self) -> u64 {
        self.state
    }

    /// The generator that starts in the state `seed`.
    pub fn new(seed: u64) -> (generator: Self)
        ensures
            generator.state() == seed,
    {
        Self { state: seed }
    }

    /// Steps on, and yields the number of the new state.
    pub fn next(&mut self) -> (number: u64)
        ensures
            final(self).state() == advance(old(self).state()),
            number == drawn(final(self).state()),
    {
        self.state = self.state.wrapping_mul(MULTIPLIER).wrapping_add(INCREMENT);
        self.state / 0x1_0000_0000
    }

    /// Steps on, and yields the number of the new state modulo `bound`.
    pub fn below(&mut self, bound: usize) -> (number: usize)
        requires
            bound > 0,
        ensures
            final(self).state() == advance(old(self).state()),
            number == drawn(final(self).state()) as int % bound as int,
    {
        (self.next() % (bound as u64)) as usize
    }

    /// Shuffles `items` in place, with one step of the generator for each
    /// item but the first.
    pub fn shuffle(&mut self, items: &mut Vec<char>)
        ensures
            final(items)@ == shuffled(old(items)@, old(self).state()),
            final(self).state() == advanced(old(self).state(), shuffle_steps(old(items)@.len())),
    {
        if items.len() == 0 {
            return ;
        }
        let mut i: usize = items.len() - 1;
        while i > 0
            invariant
                i < items.len(),
                items.len() == old(items).len(),
                shuffled_from(items@, self.state(), i as nat) == shuffled(
                    old(items)@,
                    old(self).state(),
                ),
                advanced(self.state(), i as nat) == advanced(
                    old(self).state(),
                    shuffle_steps(old(items)@.len()),
                ),
            decreases i,
        {
            let j = self.below(i + 1);
            swap(items, i, j);
            i -= 1;
        }
    }
}

} // verus!
