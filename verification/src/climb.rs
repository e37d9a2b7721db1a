//! Hill climbing over the keys of an alphabet: from a key to the best of
//! the keys that differ from it by the exchange of two characters, for as
//! long as that key scores strictly higher, and so to a local optimum.

use crate::alphabet::{
    find, is_permutation, lemma_position_found, lemma_position_unique,
    lemma_swapped_permutation, position, swapped,
};
use crate::breaker::Breaker;
use crate::key::{is_lower_case, lemma_permutation_lower_case, mirrored, mirrored_text, Key};
use crate::quadgram::{
    char_index, fitness, fitness_of, indices_of, lemma_fitness_bound, FITNESS_LIMIT, SENTINEL,
};
use crate::text::{to_chars, to_text, upper_text};
use crate::traits::{
    is_upper_letter, lemma_lower_of, lemma_upper_of, lower_of, upper_of, CharTrait,
};
use vstd::prelude::*;

verus! {

/// What a search works on: the table and the alphabet of a model, and a ciphertext.
pub struct Puzzle {
    pub table: Seq<u32>,
    pub alphabet: Seq<char>,
    pub ciphertext: Seq<char>,
}

/// What a search for the key of `ciphertext` with the model `breaker` works on.
pub open spec fn puzzle_of(breaker: &Breaker, ciphertext: Seq<char>) -> Puzzle {
    Puzzle { table: breaker.table(), alphabet: breaker.alphabet_chars(), ciphertext }
}

/// The number of ways to pick two of `n` characters.
pub open spec fn pairs(n: nat) -> nat {
    if n < 2 {
        0
    } else {
        (n * (n - 1) / 2) as nat
    }
}

/// The pair `(a, b)` comes before the pair `(i, j)` when all pairs are
/// listed by their first index and then by their second.
pub open spec fn before(a: int, b: int, i: int, j: int) -> bool {
    a < i || (a == i && b < j)
}

/// A count of keys as the counters hold it: not above `i32::MAX`.
pub open spec fn saturated(n: int) -> int {
    if n > i32::MAX {
        i32::MAX as int
    } else {
        n
    }
}

impl Puzzle {
    /// The fitness of the ciphertext decoded with `key`.
    #[verifier::opaque]
    pub open spec fn fitness(self, key: Seq<char>) -> nat {
        fitness_of(
            self.table,
            indices_of(self.alphabet, mirrored_text(key, self.alphabet, self.ciphertext)),
        )
    }

    /// No key scores higher than this.
    pub open spec fn limit(self) -> nat {
        self.ciphertext.len() * 0xFFFF_FFFF
    }

    /// `(i, j)` names two places of a key.
    pub open spec fn is_pair(self, i: int, j: int) -> bool {
        0 <= i < j < self.alphabet.len()
    }

    /// Of the exchanges in `key` that come before `(a, b)`, that of `(i, j)`
    /// scores highest, and it is the first of those that do.
    #[verifier::opaque]
    pub open spec fn is_best_before(self, key: Seq<char>, i: int, j: int, a: int, b: int) -> bool {
        &&& self.is_pair(i, j)
        &&& before(i, j, a, b)
        &&& forall|x: int, y: int|
            self.is_pair(x, y) && before(x, y, a, b) ==> #[trigger] self.fitness(
                swapped(key, x, y),
            ) <= self.fitness(swapped(key, i, j))
        &&& forall|x: int, y: int|
            self.is_pair(x, y) && before(x, y, i, j) ==> #[trigger] self.fitness(
                swapped(key, x, y),
            ) < self.fitness(swapped(key, i, j))
    }

    /// The exchange in `key` that scores highest; of several, the first.
    pub open spec fn best_swap(self, key: Seq<char>) -> (int, int) {
        choose|p: (int, int)| self.is_best_before(key, p.0, p.1, self.alphabet.len() as int, 0)
    }

    /// The best neighbour of `key`, if it scores strictly higher than `current`.
    pub open spec fn stepped(self, key: Seq<char>, current: nat) -> Option<Seq<char>> {
        let p = self.best_swap(key);
        if self.alphabet.len() >= 2 && self.fitness(swapped(key, p.0, p.1)) > current {
            Some(swapped(key, p.0, p.1))
        } else {
            None
        }
    }

    /// The key to which a step from `key` leads: its best neighbour, if that
    /// scores strictly higher than `key`.
    pub open spec fn improved(self, key: Seq<char>) -> Option<Seq<char>> {
        self.stepped(key, self.fitness(key))
    }

    /// No neighbour of `key` scores strictly higher than `key`.
    pub open spec fn is_local_optimum(self, key: Seq<char>) -> bool {
        forall|x: int, y: int|
            self.is_pair(x, y) ==> #[trigger] self.fitness(swapped(key, x, y)) <= self.fitness(key)
    }

    /// The local optimum in which the climb from `key` ends.
    pub open spec fn climbed(self, key: Seq<char>) -> Seq<char>
        decreases self.limit() - self.fitness(key),
    {
        match self.improved(key) {
            Some(next) => {
                proof {
                    self.lemma_limit(next);
                }
                self.climbed(next)
            },
            None => key,
        }
    }

    /// The number of steps of the climb from `key`, the last one, which finds
    /// no better key, included.
    pub open spec fn climb_steps(self, key: Seq<char>) -> nat
        decreases self.limit() - self.fitness(key),
    {
        match self.improved(key) {
            Some(next) => {
                proof {
                    self.lemma_limit(next);
                }
                1 + self.climb_steps(next)
            },
            None => 1,
        }
    }

    /// No key scores above the limit.
    pub proof fn lemma_limit(self, key: Seq<char>)
        ensures
            self.fitness(key) <= self.limit(),
    {
        reveal(Puzzle::fitness);
        let indices = indices_of(self.alphabet, mirrored_text(key, self.alphabet, self.ciphertext));
        lemma_fitness_bound(self.table, indices, indices.len() as int);
        assert(self.fitness(key) <= self.ciphertext.len() * 0xFFFF_FFFF) by (nonlinear_arith)
            requires
                indices.len() == self.ciphertext.len(),
                self.fitness(key) <= if indices.len() < 4 {
                    0
                } else {
                    (indices.len() - 3) * 0xFFFF_FFFF
                },
        ;
    }
}

/// Only one exchange is the best of all.
pub proof fn lemma_best_swap(puzzle: Puzzle, key: Seq<char>, i: int, j: int)
    requires
        puzzle.is_best_before(key, i, j, puzzle.alphabet.len() as int, 0),
    ensures
        puzzle.best_swap(key) == (i, j),
{
    reveal(Puzzle::is_best_before);
    assert(puzzle.is_best_before(key, (i, j).0, (i, j).1, puzzle.alphabet.len() as int, 0));
}

/// Where a key has two places, one exchange is the best of all.
pub proof fn lemma_best_exists(puzzle: Puzzle, key: Seq<char>)
    requires
        puzzle.alphabet.len() >= 2,
    ensures
        exists|p: (int, int)|
            puzzle.is_best_before(key, p.0, p.1, puzzle.alphabet.len() as int, 0),
{
    reveal(Puzzle::is_best_before);
    let n = puzzle.alphabet.len() as int;
    lemma_best_exists_before(puzzle, key, n - 2, n);
    let p = choose|p: (int, int)| puzzle.is_best_before(key, p.0, p.1, n - 2, n);
    assert forall|x: int, y: int| puzzle.is_pair(x, y) && before(x, y, n, 0) implies before(
        x,
        y,
        n - 2,
        n,
    ) by {}
    assert(puzzle.is_best_before(key, p.0, p.1, n, 0));
}

/// Of the exchanges that come before `(a, b)`, one is the best, where there is any.
proof fn lemma_best_exists_before(puzzle: Puzzle, key: Seq<char>, a: int, b: int)
    requires
        0 <= a < b <= puzzle.alphabet.len(),
        a + 1 < puzzle.alphabet.len(),
        a > 0 || b > 1,
    ensures
        exists|p: (int, int)| puzzle.is_best_before(key, p.0, p.1, a, b),
    decreases a, b,
{
    reveal(Puzzle::is_best_before);
    // The pair that comes just before (a, b).
    let (i, j) = if b > a + 1 {
        (a, b - 1)
    } else {
        (a - 1, puzzle.alphabet.len() as int - 1)
    };
    assert forall|x: int, y: int| puzzle.is_pair(x, y) && before(x, y, a, b) implies (before(
        x,
        y,
        i,
        j,
    ) || (x == i && y == j)) by {}
    if i > 0 || j > 1 {
        if b > a + 1 {
            lemma_best_exists_before(puzzle, key, a, b - 1);
        } else {
            lemma_best_exists_before(puzzle, key, a - 1, puzzle.alphabet.len() as int - 1);
        }
        let q = choose|q: (int, int)| puzzle.is_best_before(key, q.0, q.1, i, j);
        if puzzle.fitness(swapped(key, i, j)) > puzzle.fitness(swapped(key, q.0, q.1)) {
            assert(puzzle.is_best_before(key, (i, j).0, (i, j).1, a, b));
        } else {
            assert(puzzle.is_best_before(key, q.0, q.1, a, b));
        }
    } else {
        assert(puzzle.is_best_before(key, (i, j).0, (i, j).1, a, b));
    }
}

/// How a climb goes on from a key: through the better key, if a step finds
/// one, and nowhere if not.
pub proof fn lemma_climb_step(puzzle: Puzzle, key: Seq<char>)
    ensures
        match puzzle.improved(key) {
            Some(next) => puzzle.climbed(key) == puzzle.climbed(next) && puzzle.climb_steps(key)
                == 1 + puzzle.climb_steps(next),
            None => puzzle.climbed(key) == key && puzzle.climb_steps(key) == 1,
        },
{
}

/// A climb ends in a local optimum that scores no lower than its start.
pub proof fn lemma_climbed(puzzle: Puzzle, key: Seq<char>)
    ensures
        puzzle.is_local_optimum(puzzle.climbed(key)),
        puzzle.fitness(puzzle.climbed(key)) >= puzzle.fitness(key),
        puzzle.improved(puzzle.climbed(key)) is None,
    decreases puzzle.limit() - puzzle.fitness(key),
{
    match puzzle.improved(key) {
        Some(next) => {
            puzzle.lemma_limit(next);
            lemma_climbed(puzzle, next);
        },
        None => {
            if puzzle.alphabet.len() >= 2 {
                reveal(Puzzle::is_best_before);
                lemma_best_exists(puzzle, key);
            }
        },
    }
}

/// A climb from a key of the alphabet ends in a key of the alphabet.
pub proof fn lemma_climbed_permutation(puzzle: Puzzle, key: Seq<char>)
    requires
        is_permutation(key, puzzle.alphabet),
    ensures
        is_permutation(puzzle.climbed(key), puzzle.alphabet),
    decreases puzzle.limit() - puzzle.fitness(key),
{
    match puzzle.improved(key) {
        Some(next) => {
            reveal(Puzzle::is_best_before);
            lemma_best_exists(puzzle, key);
            let p = puzzle.best_swap(key);
            lemma_swapped_permutation(key, puzzle.alphabet, p.0, p.1);
            puzzle.lemma_limit(next);
            lemma_climbed_permutation(puzzle, next);
        },
        None => {},
    }
}

/// The place in the alphabet of the lower case of `c`; the length of the
/// alphabet where it has none.
pub open spec fn place_of(alphabet: Seq<char>, c: char) -> usize {
    if alphabet.contains(lower_of(c)) {
        position(alphabet, lower_of(c)) as usize
    } else {
        alphabet.len() as usize
    }
}

/// The places of the characters of `text`, one for one.
pub open spec fn places_of(alphabet: Seq<char>, text: Seq<char>) -> Seq<usize> {
    Seq::new(text.len(), |t: int| place_of(alphabet, text[t]))
}

/// The index of a decoded character follows from the place of the
/// character that was decoded: a character with a place in the alphabet
/// decodes to the character whose index is the place of that character in
/// the key, and a character without a place stays outside the alphabet.
pub proof fn lemma_decoded_index(alphabet: Seq<char>, key: Seq<char>, c: char)
    requires
        alphabet.no_duplicates(),
        is_lower_case(alphabet),
        is_permutation(key, alphabet),
        alphabet.len() <= usize::MAX,
    ensures
        char_index(alphabet, mirrored(key, alphabet, c)) == if place_of(alphabet, c)
            < alphabet.len() {
            position(key, alphabet[place_of(alphabet, c) as int]) as usize
        } else {
            SENTINEL
        },
{
    let upper_key = upper_text(key);
    lemma_permutation_lower_case(key, alphabet);
    lemma_lower_of(c);
    if key.contains(c) {
        lemma_position_found(key, c);
        let i = position(key, c);
        lemma_lower_of(alphabet[i]);
        lemma_position_unique(alphabet, i);
        lemma_position_found(alphabet, c);
    } else if upper_key.contains(c) {
        lemma_position_found(upper_key, c);
        let i = position(upper_key, c);
        lemma_upper_of(key[i]);
        lemma_upper_of(alphabet[i]);
        lemma_lower_of(upper_of(alphabet[i]));
        lemma_position_unique(alphabet, i);
        lemma_position_found(alphabet, key[i]);
        lemma_position_unique(key, i);
    } else {
        if alphabet.contains(lower_of(c)) {
            lemma_position_found(key, lower_of(c));
            let i = position(key, lower_of(c));
            if is_upper_letter(c) {
                assert(upper_key[i] == c);
            }
        }
    }
}

/// A ciphertext, with the place in a model's alphabet of each of its characters.
pub struct Cipher {
    text: Vec<char>,
    places: Vec<usize>,
}

impl Cipher {
    /// The ciphertext.
    pub closed spec fn text(&self) -> Seq<char> {
        self.text@
    }

    /// The places are those of the ciphertext in the alphabet of `breaker`.
    pub closed spec fn fits(&self, breaker: &Breaker) -> bool {
        self.places@ == places_of(breaker.alphabet_chars(), self.text@)
    }

    /// The ciphertext with its places in the alphabet of `breaker`.
    pub fn new(breaker: &Breaker, ciphertext: &str) -> (cipher: Self)
        ensures
            cipher.text() == ciphertext@,
            cipher.fits(breaker),
    {
        let alphabet = breaker.alphabet_vec();
        let ghost all = places_of(alphabet@, ciphertext@);
        let text = to_chars(ciphertext);
        let mut places: Vec<usize> = Vec::new();
        let mut t: usize = 0;
        while t < text.len()
            invariant
                t <= text.len(),
                alphabet@ == breaker.alphabet_chars(),
                text@ == ciphertext@,
                all == places_of(alphabet@, text@),
                places@ == all.take(t as int),
            decreases text.len() - t,
        {
            let lower = text[t].to_lower_case();
            let place = match find(&alphabet, lower) {
                Some(q) => {
                    proof {
                        lemma_position_found(alphabet@, lower);
                    }
                    q
                },
                None => alphabet.len(),
            };
            places.push(place);
            t += 1;
        }
        assert(places@ == all);
        Self { text, places }
    }

    /// The ciphertext, character by character.
    pub fn chars(&self) -> (chars: &Vec<char>)
        ensures
            chars@ == self.text(),
    {
        &self.text
    }

    /// The ciphertext.
    pub fn ciphertext(&self) -> (ciphertext: String)
        ensures
            ciphertext@ == self.text(),
    {
        to_text(&self.text)
    }
}

/// The fitness of a ciphertext decoded with a key.
pub fn score(breaker: &Breaker, cipher: &Cipher, key: &Key) -> (fitness: u128)
    requires
        breaker.wf(),
        cipher.fits(breaker),
        key.wf(),
        key.alphabet_chars() == breaker.alphabet_chars(),
    ensures
        fitness == puzzle_of(breaker, cipher.text()).fitness(key.key_chars()),
        fitness < FITNESS_LIMIT,
{
    let inverse = key.inverse();
    let ghost alphabet = breaker.alphabet_chars();
    let ghost decoded = mirrored_text(key.key_chars(), alphabet, cipher.text());
    let ghost all = indices_of(alphabet, decoded);
    let mut indices: Vec<usize> = Vec::new();
    let mut t: usize = 0;
    proof {
        breaker.lemma_wf();
        key.lemma_wf();
    }
    while t < cipher.places.len()
        invariant
            t <= cipher.places.len(),
            cipher.places@ == places_of(alphabet, cipher.text@),
            alphabet.no_duplicates(),
            is_lower_case(alphabet),
            is_permutation(key.key_chars(), alphabet),
            inverse.len() == alphabet.len() <= 32,
            forall|q: int|
                0 <= q < inverse.len() ==> #[trigger] inverse[q] as int == position(
                    key.key_chars(),
                    alphabet[q],
                ),
            forall|q: int| 0 <= q < inverse.len() ==> #[trigger] inverse[q] < inverse.len(),
            decoded == mirrored_text(key.key_chars(), alphabet, cipher.text@),
            all == indices_of(alphabet, decoded),
            indices@ == all.take(t as int),
            forall|k: int| 0 <= k < indices.len() ==> indices[k] < 32,
        decreases cipher.places.len() - t,
    {
        let place = cipher.places[t];
        let index = if place < inverse.len() {
            inverse[place]
        } else {
            SENTINEL
        };
        proof {
            lemma_decoded_index(alphabet, key.key_chars(), cipher.text@[t as int]);
        }
        indices.push(index);
        t += 1;
    }
    proof {
        assert(indices@ == all);
        reveal(Puzzle::fitness);
    }
    fitness(breaker.quadgrams(), &indices)
}

/// The number of ways to pick two of `n` characters.
pub fn pair_count(n: usize) -> (count: i32)
    requires
        n <= 32,
    ensures
        count == pairs(n as nat),
        0 <= count <= 496,
{
    if n < 2 {
        0
    } else {
        assert(n * (n - 1) <= 992) by (nonlinear_arith)
            requires
                2 <= n <= 32,
        ;
        (n * (n - 1) / 2) as i32
    }
}

/// Adds to a count of keys, up to `i32::MAX`.
pub fn add_keys(count: i32, more: i32) -> (sum: i32)
    requires
        0 <= count,
        0 <= more,
    ensures
        sum == saturated(count + more),
{
    if count > i32::MAX - more {
        i32::MAX
    } else {
        count + more
    }
}

/// The score of the key that differs from `key` by the exchange of the
/// characters at `i` and `j`. The key is exchanged and put back.
fn score_swapped(breaker: &Breaker, cipher: &Cipher, key: &mut Key, i: usize, j: usize) -> (fitness:
    u128)
    requires
        breaker.wf(),
        cipher.fits(breaker),
        old(key).wf(),
        old(key).alphabet_chars() == breaker.alphabet_chars(),
        i < j < breaker.alphabet_chars().len(),
    ensures
        final(key).wf(),
        final(key).alphabet_chars() == old(key).alphabet_chars(),
        final(key).key_chars() == old(key).key_chars(),
        fitness == puzzle_of(breaker, cipher.text()).fitness(
            swapped(old(key).key_chars(), i as int, j as int),
        ),
        fitness < FITNESS_LIMIT,
{
    proof {
        key.lemma_wf();
        lemma_swapped_permutation(key.key_chars(), key.alphabet_chars(), i as int, j as int);
    }
    key.swap(i, j);
    let fitness = score(breaker, cipher, key);
    key.swap(i, j);
    fitness
}

/// The best exchange so far stays the best when the next one scores no
/// higher, and the next one is the best when it scores higher.
proof fn lemma_next_pair(puzzle: Puzzle, key: Seq<char>, bi: int, bj: int, i: int, j: int)
    requires
        puzzle.is_pair(i, j),
        puzzle.is_best_before(key, bi, bj, i, j),
    ensures
        puzzle.fitness(swapped(key, i, j)) > puzzle.fitness(swapped(key, bi, bj))
            ==> puzzle.is_best_before(key, i, j, i, j + 1),
        puzzle.fitness(swapped(key, i, j)) <= puzzle.fitness(swapped(key, bi, bj))
            ==> puzzle.is_best_before(key, bi, bj, i, j + 1),
{
    reveal(Puzzle::is_best_before);
    assert forall|x: int, y: int| puzzle.is_pair(x, y) && before(x, y, i, j + 1) implies before(
        x,
        y,
        i,
        j,
    ) || (x == i && y == j) by {}
}

/// The first exchange of all is the best before the second.
proof fn lemma_first_pair(puzzle: Puzzle, key: Seq<char>)
    requires
        puzzle.is_pair(0, 1),
    ensures
        puzzle.is_best_before(key, 0, 1, 0, 2),
{
    reveal(Puzzle::is_best_before);
    assert forall|x: int, y: int| puzzle.is_pair(x, y) && before(x, y, 0, 2) implies x == 0 && y
        == 1 by {}
}

/// What is the best before the end of a row is the best before the next row.
proof fn lemma_next_row(puzzle: Puzzle, key: Seq<char>, bi: int, bj: int, i: int)
    requires
        puzzle.is_best_before(key, bi, bj, i, puzzle.alphabet.len() as int),
        0 <= i,
    ensures
        puzzle.is_best_before(key, bi, bj, i + 1, i + 2),
        puzzle.is_best_before(key, bi, bj, i + 1, 0),
{
    reveal(Puzzle::is_best_before);
    assert forall|x: int, y: int| puzzle.is_pair(x, y) && (before(x, y, i + 1, i + 2) || before(
        x,
        y,
        i + 1,
        0,
    )) implies before(x, y, i, puzzle.alphabet.len() as int) by {}
}

/// What is the best before the last row ends is the best of all, and
/// decides the step.
proof fn lemma_last_row(puzzle: Puzzle, key: Seq<char>, bi: int, bj: int, i: int, j: int)
    requires
        puzzle.is_best_before(key, bi, bj, i, j),
        i + 1 >= puzzle.alphabet.len() >= 2,
        i < j,
    ensures
        puzzle.best_swap(key) == (bi, bj),
{
    assert(puzzle.is_best_before(key, bi, bj, puzzle.alphabet.len() as int, 0)) by {
        reveal(Puzzle::is_best_before);
        assert forall|x: int, y: int|
            puzzle.is_pair(x, y) && before(x, y, puzzle.alphabet.len() as int, 0) implies before(
            x,
            y,
            i,
            j,
        ) by {}
    }
    lemma_best_swap(puzzle, key, bi, bj);
}

/// The best of the keys that differ from `key` by the exchange of two
/// characters: the places exchanged and the score. Of several best the
/// first counts, by the first and then by the second place exchanged. A key
/// of fewer than two characters has no neighbour.
pub fn best_neighbour(breaker: &Breaker, cipher: &Cipher, key: &mut Key) -> (best: Option<
    (usize, usize, u128),
>)
    requires
        breaker.wf(),
        cipher.fits(breaker),
        old(key).wf(),
        old(key).alphabet_chars() == breaker.alphabet_chars(),
    ensures
        final(key).wf(),
        final(key).alphabet_chars() == old(key).alphabet_chars(),
        final(key).key_chars() == old(key).key_chars(),
        match best {
            Some((i, j, fitness)) => {
                &&& i < j < breaker.alphabet_chars().len()
                &&& puzzle_of(breaker, cipher.text()).best_swap(old(key).key_chars()) == (
                    i as int,
                    j as int,
                )
                &&& fitness == puzzle_of(breaker, cipher.text()).fitness(
                    swapped(old(key).key_chars(), i as int, j as int),
                )
                &&& fitness < FITNESS_LIMIT
            },
            None => breaker.alphabet_chars().len() < 2,
        },
{
    let ghost puzzle = puzzle_of(breaker, cipher.text());
    let ghost start = key.key_chars();
    let n = key.len();
    if n < 2 {
        return None;
    }
    let mut bi: usize = 0;
    let mut bj: usize = 1;
    let mut best = score_swapped(breaker, cipher, key, 0, 1);
    proof {
        lemma_first_pair(puzzle, start);
    }
    let mut i: usize = 0;
    let mut j: usize = 2;
    while i + 1 < n
        invariant
            2 <= n == puzzle.alphabet.len(),
            i < j <= n,
            breaker.wf(),
            cipher.fits(breaker),
            key.wf(),
            key.key_chars() == start,
            key.alphabet_chars() == breaker.alphabet_chars(),
            puzzle == puzzle_of(breaker, cipher.text()),
            bi < bj < n,
            puzzle.is_best_before(start, bi as int, bj as int, i as int, j as int),
            best == puzzle.fitness(swapped(start, bi as int, bj as int)),
            best < FITNESS_LIMIT,
        decreases n - i, n - j,
    {
        if j < n {
            let fitness = score_swapped(breaker, cipher, key, i, j);
            proof {
                lemma_next_pair(puzzle, start, bi as int, bj as int, i as int, j as int);
            }
            if fitness > best {
                bi = i;
                bj = j;
                best = fitness;
            }
            j += 1;
        } else {
            proof {
                lemma_next_row(puzzle, start, bi as int, bj as int, i as int);
            }
            i += 1;
            j = i + 1;
        }
    }
    proof {
        lemma_last_row(puzzle, start, bi as int, bj as int, i as int, j as int);
    }
    Some((bi, bj, best))
}

/// One step of a climb: moves `key` to the best of its neighbours if that
/// scores strictly higher than `current`. Returns the new score, or `None`
/// where `key` stays.
pub fn improve(breaker: &Breaker, cipher: &Cipher, key: &mut Key, current: u128) -> (better:
    Option<u128>)
    requires
        breaker.wf(),
        cipher.fits(breaker),
        old(key).wf(),
        old(key).alphabet_chars() == breaker.alphabet_chars(),
    ensures
        final(key).wf(),
        final(key).alphabet_chars() == old(key).alphabet_chars(),
        match puzzle_of(breaker, cipher.text()).stepped(old(key).key_chars(), current as nat) {
            Some(next) => final(key).key_chars() == next && better is Some && better->0
                == puzzle_of(breaker, cipher.text()).fitness(next),
            None => final(key).key_chars() == old(key).key_chars() && better is None,
        },
        better matches Some(fitness) ==> fitness < FITNESS_LIMIT,
{
    match best_neighbour(breaker, cipher, key) {
        Some((i, j, best)) => {
            if best > current {
                proof {
                    key.lemma_wf();
                }
                key.swap(i, j);
                Some(best)
            } else {
                None
            }
        },
        None => None,
    }
}

/// One climb: steps from `key` for as long as a step finds a better key.
/// Returns the score of the local optimum in which `key` ends, and the
/// number of keys scored on the way: the start key and, for each step, all
/// neighbours of the key it started from.
pub fn climb(breaker: &Breaker, cipher: &Cipher, key: &mut Key) -> (found: (u128, i32))
    requires
        breaker.wf(),
        cipher.fits(breaker),
        old(key).wf(),
        old(key).alphabet_chars() == breaker.alphabet_chars(),
    ensures
        final(key).wf(),
        final(key).alphabet_chars() == old(key).alphabet_chars(),
        final(key).key_chars() == puzzle_of(breaker, cipher.text()).climbed(old(key).key_chars()),
        found.0 == puzzle_of(breaker, cipher.text()).fitness(final(key).key_chars()),
        found.1 == saturated(
            1 + puzzle_of(breaker, cipher.text()).climb_steps(old(key).key_chars()) * pairs(
                breaker.alphabet_chars().len(),
            ) as int,
        ),
{
    let ghost puzzle = puzzle_of(breaker, cipher.text());
    let ghost start = key.key_chars();
    let ghost steps = puzzle.climb_steps(start) as int;
    let ghost done: int = 0;
    proof {
        breaker.lemma_wf();
    }
    let per_step = pair_count(key.len());
    let mut current = score(breaker, cipher, key);
    let mut tried: i32 = 1;
    let mut climbing = true;
    while climbing
        invariant
            breaker.wf(),
            cipher.fits(breaker),
            key.wf(),
            key.alphabet_chars() == breaker.alphabet_chars(),
            puzzle == puzzle_of(breaker, cipher.text()),
            0 <= per_step == pairs(puzzle.alphabet.len()),
            current == puzzle.fitness(key.key_chars()),
            current < FITNESS_LIMIT,
            steps == puzzle.climb_steps(start),
            0 <= done <= steps,
            tried == saturated(1 + done * per_step),
            puzzle.climbed(key.key_chars()) == puzzle.climbed(start),
            climbing ==> done + puzzle.climb_steps(key.key_chars()) == steps,
            !climbing ==> key.key_chars() == puzzle.climbed(start) && done == steps,
        decreases
                FITNESS_LIMIT - current,
                if climbing {
                    1nat
                } else {
                    0nat
                },
    {
        proof {
            lemma_climb_step(puzzle, key.key_chars());
            assert((done + 1) * per_step == done * per_step + per_step) by (nonlinear_arith);
            assert(done * per_step >= 0) by (nonlinear_arith)
                requires
                    done >= 0,
                    per_step >= 0,
            ;
            done = done + 1;
        }
        tried = add_keys(tried, per_step);
        match improve(breaker, cipher, key, current) {
            Some(better) => {
                current = better;
            },
            None => {
                climbing = false;
            },
        }
    }
    (current, tried)
}

} // verus!
