//! The search for the key of a ciphertext: climbs from random keys, round
//! after round, until a budget of rounds or of time is used up. The best
//! local optimum of all rounds is the result.

use crate::alphabet::is_permutation;
use crate::breaker::Breaker;
use crate::breaker_structs::BreakerResult;
use crate::climb::{
    add_keys, climb, lemma_climbed, lemma_climbed_permutation, pairs, puzzle_of, saturated, Cipher,
    Puzzle,
};
use crate::key::{mirrored_text, Key};
use crate::random::{advanced, lemma_shuffled_permutation, shuffle_steps, shuffled, Generator};
use crate::text::to_text;
use std::time::Instant;
use vstd::prelude::*;

verus! {

/// `std::time::Instant`: a reading of the clock.
#[verifier::external_type_specification]
#[verifier::external_body]
pub struct ExInstant(std::time::Instant);

/// `Instant::now`: reads the clock. Nothing is known of the reading.
pub assume_specification[ Instant::now ]() -> (now: Instant)
;

/// `Instant::elapsed`: the time since a reading. Nothing is known of it.
pub assume_specification[ Instant::elapsed ](start: &Instant) -> (elapsed: core::time::Duration)
;

/// `Duration::as_millis`: a duration in whole milliseconds. Nothing is known of it.
pub assume_specification[ core::time::Duration::as_millis ](
    duration: &core::time::Duration,
) -> (millis: u128)
;

/// Where a search stands between two rounds.
pub struct SearchState {
    /// The state of the generator that draws the next start key.
    pub generator: u64,
    /// The best key of all rounds so far.
    pub best: Option<Seq<char>>,
    /// The fitness of the ciphertext decoded with the best key.
    pub fitness: nat,
    /// The number of keys scored.
    pub nbr_keys: int,
    /// The number of rounds done.
    pub nbr_rounds: int,
}

/// The state in which a search with this seed starts.
pub open spec fn initial(seed: u64) -> SearchState {
    SearchState { generator: seed, best: None, fitness: 0, nbr_keys: 0, nbr_rounds: 0 }
}

/// Keys per second, rounded down, not above `u64::MAX`; 0 where no time has passed.
pub open spec fn rate(keys: int, millis: int) -> int {
    if millis <= 0 || keys <= 0 {
        0
    } else if keys * 1000 / millis > u64::MAX {
        u64::MAX as int
    } else {
        keys * 1000 / millis
    }
}

impl Puzzle {
    /// The state after one more round: a start key is drawn, the climb from
    /// it is made, its keys are counted, and its local optimum replaces the
    /// best key if there was none or if it scores strictly higher.
    pub open spec fn after_round(self, state: SearchState) -> SearchState {
        let start = shuffled(self.alphabet, state.generator);
        let found = self.climbed(start);
        let better = state.best is None || self.fitness(found) > state.fitness;
        SearchState {
            generator: advanced(state.generator, shuffle_steps(self.alphabet.len())),
            best: if better {
                Some(found)
            } else {
                state.best
            },
            fitness: if better {
                self.fitness(found)
            } else {
                state.fitness
            },
            nbr_keys: saturated(
                state.nbr_keys + 1 + self.climb_steps(start) * pairs(self.alphabet.len()),
            ),
            nbr_rounds: state.nbr_rounds + 1,
        }
    }

    /// The state after `rounds` more rounds.
    pub open spec fn after_rounds(self, state: SearchState, rounds: nat) -> SearchState
        decreases rounds,
    {
        if rounds == 0 {
            state
        } else {
            self.after_round(self.after_rounds(state, (rounds - 1) as nat))
        }
    }
}

/// `result` reports the state of a search that took `millis` milliseconds:
/// the best key, the text it decodes and its fitness, or an empty key and
/// text and the fitness 0 where no round was made.
pub open spec fn reports(
    result: BreakerResult,
    puzzle: Puzzle,
    state: SearchState,
    millis: u64,
) -> bool {
    &&& result.ciphertext@ == puzzle.ciphertext
    &&& result.alphabet@ == puzzle.alphabet
    &&& result.key@ == match state.best {
        Some(key) => key,
        None => Seq::<char>::empty(),
    }
    &&& result.plaintext@ == match state.best {
        Some(key) => mirrored_text(key, puzzle.alphabet, puzzle.ciphertext),
        None => Seq::<char>::empty(),
    }
    &&& result.fitness == state.fitness
    &&& result.nbr_keys == state.nbr_keys
    &&& result.nbr_rounds == state.nbr_rounds
    &&& result.keys_per_second == rate(state.nbr_keys, millis as int)
    &&& result.milliseconds == millis
}

/// What holds of a search after any number of rounds: the rounds are
/// counted; before the first round nothing is found and no key is counted;
/// after it the best key is a key of the alphabet and a local optimum, the
/// fitness is that of the best key, and at least one key is counted.
pub proof fn lemma_after_rounds(puzzle: Puzzle, seed: u64, rounds: nat)
    requires
        puzzle.alphabet.no_duplicates(),
    ensures
        ({
            let state = puzzle.after_rounds(initial(seed), rounds);
            &&& state.nbr_rounds == rounds
            &&& 0 <= state.nbr_keys <= i32::MAX
            &&& rounds == 0 ==> state == initial(seed)
            &&& rounds > 0 ==> {
                &&& state.nbr_keys >= 1
                &&& state.best is Some
                &&& is_permutation(state.best->0, puzzle.alphabet)
                &&& puzzle.is_local_optimum(state.best->0)
                &&& state.fitness == puzzle.fitness(state.best->0)
            }
        }),
    decreases rounds,
{
    if rounds > 0 {
        lemma_after_rounds(puzzle, seed, (rounds - 1) as nat);
        let before = puzzle.after_rounds(initial(seed), (rounds - 1) as nat);
        let start = shuffled(puzzle.alphabet, before.generator);
        lemma_shuffled_permutation(puzzle.alphabet, puzzle.alphabet, before.generator);
        lemma_climbed_permutation(puzzle, start);
        lemma_climbed(puzzle, start);
    }
}

/// A round never lowers the fitness of the best key, and leaves it no lower
/// than the fitness of the local optimum that the round found.
pub proof fn lemma_round_keeps_best(puzzle: Puzzle, state: SearchState)
    requires
        state.best is Some,
    ensures
        puzzle.after_round(state).fitness >= state.fitness,
        puzzle.after_round(state).fitness >= puzzle.fitness(
            puzzle.climbed(shuffled(puzzle.alphabet, state.generator)),
        ),
{
}

/// Keys per second for a count of keys and a time in milliseconds.
pub fn keys_per_second(nbr_keys: i32, millis: u64) -> (per_second: u64)
    ensures
        per_second == rate(nbr_keys as int, millis as int),
{
    if millis == 0 || nbr_keys <= 0 {
        0
    } else {
        nbr_keys as u64 * 1000 / millis
    }
}

/// A search for the key of one ciphertext.
pub struct KeySearchEngine<'a> {
    breaker: &'a Breaker,
    cipher: Cipher,
    generator: Generator,
    best: Option<Key>,
    best_fitness: u128,
    nbr_keys: i32,
    nbr_rounds: i32,
}

impl<'a> KeySearchEngine<'a> {
    /// What the search works on.
    pub closed spec fn puzzle(&self) -> Puzzle {
        puzzle_of(self.breaker, self.cipher.text())
    }

    /// Where the search stands.
    pub closed spec fn state(&self) -> SearchState {
        SearchState {
            generator: self.generator.state(),
            best: match self.best {
                Some(key) => Some(key.key_chars()),
                None => None,
            },
            fitness: self.best_fitness as nat,
            nbr_keys: self.nbr_keys as int,
            nbr_rounds: self.nbr_rounds as int,
        }
    }

    /// The model is sound, and the best key, if there is one, is a key of
    /// the model's alphabet.
    pub closed spec fn wf(&self) -> bool {
        &&& self.breaker.wf()
        &&& self.cipher.fits(self.breaker)
        &&& self.nbr_keys >= 0
        &&& self.nbr_rounds >= 0
        &&& match self.best {
            Some(key) => key.wf() && key.alphabet_chars() == self.breaker.alphabet_chars(),
            None => true,
        }
    }

    /// A search that has made no round yet.
    pub fn new(breaker: &'a Breaker, ciphertext: &str, seed: u64) -> (engine: Self)
        requires
            breaker.wf(),
        ensures
            engine.wf(),
            engine.puzzle() == puzzle_of(breaker, ciphertext@),
            engine.state() == initial(seed),
    {
        Self {
            breaker,
            cipher: Cipher::new(breaker, ciphertext),
            generator: Generator::new(seed),
            best: None,
            best_fitness: 0,
            nbr_keys: 0,
            nbr_rounds: 0,
        }
    }

    /// The number of rounds made so far.
    pub fn rounds(&self) -> (rounds: i32)
        ensures
            rounds == self.state().nbr_rounds,
    {
        self.nbr_rounds
    }

    /// The number of keys scored so far.
    pub fn keys(&self) -> (keys: i32)
        ensures
            keys == self.state().nbr_keys,
    {
        self.nbr_keys
    }

    /// Whether another round is to be made: not once the rounds made have
    /// reached `max_rounds`, and not once the time passed has reached
    /// `max_millis`, where that is given.
    pub fn wants_round(&self, max_rounds: i32, elapsed: u64, max_millis: Option<u64>) -> (wanted:
        bool)
        ensures
            wanted == (self.state().nbr_rounds < max_rounds && match max_millis {
                Some(most) => elapsed < most,
                None => true,
            }),
    {
        self.nbr_rounds < max_rounds && match max_millis {
            Some(most) => elapsed < most,
            None => true,
        }
    }

    /// Makes one round: draws a start key, climbs from it to a local
    /// optimum, and keeps that as the best key if there was none or if it
    /// scores strictly higher.
    pub fn round(&mut self)
        requires
            old(self).wf(),
            old(self).state().nbr_rounds < i32::MAX,
        ensures
            final(self).wf(),
            final(self).puzzle() == old(self).puzzle(),
            final(self).state() == old(self).puzzle().after_round(old(self).state()),
    {
        let mut start = self.breaker.alphabet_vec();
        self.generator.shuffle(&mut start);
        proof {
            let alphabet = self.breaker.alphabet_chars();
            self.breaker.lemma_wf();
            lemma_shuffled_permutation(alphabet, alphabet, old(self).generator.state());
        }
        let mut key = Key::assemble(start, self.breaker.alphabet_vec());
        let (fitness, tried) = climb(self.breaker, &self.cipher, &mut key);
        self.nbr_keys = add_keys(self.nbr_keys, tried);
        self.nbr_rounds = self.nbr_rounds + 1;
        if self.best.is_none() || fitness > self.best_fitness {
            self.best = Some(key);
            self.best_fitness = fitness;
        }
    }

    /// The report of the search as it stands, after `millis` milliseconds.
    pub fn finish(&self, millis: u64) -> (result: BreakerResult)
        requires
            self.wf(),
        ensures
            reports(result, self.puzzle(), self.state(), millis),
    {
        let per_second = keys_per_second(self.nbr_keys, millis);
        let (plaintext, key) = match &self.best {
            Some(key) => (Some(to_text(&key.decode_chars(self.cipher.chars()))), Some(key.key())),
            None => (None, None),
        };
        BreakerResult::new(
            Some(self.cipher.ciphertext()),
            plaintext,
            key,
            Some(self.breaker.alphabet()),
            Some(&self.best_fitness),
            Some(&self.nbr_keys),
            Some(&self.nbr_rounds),
            Some(&per_second),
            Some(&millis),
        )
    }

    /// Searches for the key of `ciphertext`: makes rounds until `max_rounds`
    /// are made or, where `max_millis` is given, that many milliseconds have
    /// passed, and reports the best key found. The clock is read between
    /// rounds only, so the first round is made whenever both budgets allow
    /// one. The start keys follow from `seed` alone.
    pub fn run(
        breaker: &'a Breaker,
        ciphertext: &str,
        max_rounds: i32,
        max_millis: Option<u64>,
        seed: u64,
    ) -> (result: BreakerResult)
        requires
            breaker.wf(),
        ensures
            0 <= result.nbr_rounds,
            result.nbr_rounds <= max_rounds || result.nbr_rounds == 0,
            max_millis is None && max_rounds >= 0 ==> result.nbr_rounds == max_rounds,
            max_millis == Some(0u64) ==> result.nbr_rounds == 0,
            max_rounds >= 1 && max_millis != Some(0u64) ==> result.nbr_rounds >= 1,
            max_rounds <= 0 ==> result.nbr_rounds == 0 && result.nbr_keys == 0,
            result.nbr_rounds == 0 ==> result.nbr_keys == 0,
            reports(
                result,
                puzzle_of(breaker, ciphertext@),
                puzzle_of(breaker, ciphertext@).after_rounds(
                    initial(seed),
                    result.nbr_rounds as nat,
                ),
                result.milliseconds,
            ),
    {
        let clock = Instant::now();
        let mut engine = Self::new(breaker, ciphertext, seed);
        let mut elapsed: u64 = 0;
        let ghost puzzle = puzzle_of(breaker, ciphertext@);
        while engine.wants_round(max_rounds, elapsed, max_millis)
            invariant
                engine.wf(),
                engine.puzzle() == puzzle,
                0 <= engine.state().nbr_rounds,
                engine.state().nbr_rounds <= max_rounds || engine.state().nbr_rounds == 0,
                engine.state() == puzzle.after_rounds(
                    initial(seed),
                    engine.state().nbr_rounds as nat,
                ),
                max_millis == Some(0u64) ==> elapsed == 0 && engine.state().nbr_rounds == 0,
                engine.state().nbr_rounds == 0 ==> elapsed == 0,
            decreases max_rounds - engine.state().nbr_rounds,
        {
            engine.round();
            elapsed = millis_since(&clock);
        }
        engine.finish(millis_since(&clock))
    }
}

/// The whole milliseconds since a reading of the clock, up to `u64::MAX`.
fn millis_since(clock: &Instant) -> (millis: u64) {
    capped_millis(clock.elapsed().as_millis())
}

/// A number of milliseconds as the search counts them: not above `u64::MAX`.
pub fn capped_millis(millis: u128) -> (capped: u64)
    ensures
        capped == if millis > u64::MAX {
            u64::MAX as int
        } else {
            millis as int
        },
{
    if millis > u64::MAX as u128 {
        u64::MAX
    } else {
        millis as u64
    }
}

} // verus!
