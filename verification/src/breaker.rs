//! The quadgram model of a language: how it is counted from a corpus, how it
//! is put together from its parts, and how it scores a text.

use crate::alphabet::has_duplicates;
use crate::breaker_structs::BreakerInfo;
use crate::error::{AlphabetError, Error, ModelFileError};
use crate::key::{alphabet_error, in_lower_case, is_lower_case, Key};
use crate::quadgram::{
    char_index, check_never_falls, count_sum, fitness, fitness_of, five_bit, index_of_char,
    indices_of, is_greatest, is_last_maximum, is_least_nonzero, last_maximum, least_nonzero,
    lemma_count_sum_update, never_falls,
    lemma_count_sum_zero, lemma_occurrences_bound, lemma_occurrences_positive,
    lemma_occurrences_prefix, lemma_window_in_table, occurrences, quadgram_chars, quadgram_text,
    slide, sum_upto, table_sum, text_indices, window_at, window_holds, FITNESS_LIMIT,
    MAX_ALPHABET, TABLE_SIZE,
};
use crate::text::{lowercase, lowercase_of, to_chars, to_text};
use vstd::prelude::*;

verus! {

/// Why an alphabet that was lowered cannot be that of a model, if anything:
/// a duplicate, then an upper-case letter that is left, then too many
/// characters.
pub open spec fn model_alphabet_error(alphabet: Seq<char>) -> Option<Error> {
    if alphabet_error(alphabet) is Some {
        alphabet_error(alphabet)
    } else if alphabet.len() > MAX_ALPHABET {
        Some(Error::Alphabet(AlphabetError::TooLong))
    } else {
        None
    }
}

/// Why no quadgrams can be counted for an alphabet that was lowered and a
/// corpus of `corpus_len` characters, if anything: an alphabet that cannot
/// be that of a model, then a corpus without a quadgram.
pub open spec fn generation_error(alphabet: Seq<char>, corpus_len: nat) -> Option<Error> {
    if model_alphabet_error(alphabet) is Some {
        model_alphabet_error(alphabet)
    } else if corpus_len < 4 {
        Some(Error::CorpusTooShort)
    } else {
        None
    }
}

/// Why the parts of a stored model, its alphabet lowered, do not fit
/// together, if anything: an alphabet that cannot be that of a model, then
/// a table of the wrong size.
pub open spec fn model_error(alphabet: Seq<char>, table_len: nat) -> Option<Error> {
    if model_alphabet_error(alphabet) is Some {
        Some(Error::ModelFile(ModelFileError::Alphabet))
    } else if table_len != TABLE_SIZE {
        Some(Error::ModelFile(ModelFileError::TableSize))
    } else {
        None
    }
}

/// From the count 1 on, every count has a score above 0.
pub open spec fn all_positive(scores: Seq<u32>) -> bool {
    forall|c: int| 1 <= c < scores.len() ==> scores[c] > 0
}

/// Why scores cannot be those of counts of which `most` is the greatest, if
/// anything: they must hold one score for each count from 0 to `most`, and
/// from the count 1 on every score must be above 0 and no count may have a
/// lower score than a smaller count.
pub open spec fn scores_error(most: usize, scores: Seq<u32>) -> Option<Error> {
    if scores.len() != most + 1 || !never_falls(scores) || !all_positive(scores) {
        Some(Error::ModelFile(ModelFileError::Scores))
    } else {
        None
    }
}

/// The table in which each slot has the score of its count, and 0 where
/// nothing was counted.
pub open spec fn scored_table(counts: Seq<usize>, scores: Seq<u32>) -> Seq<u32> {
    Seq::new(
        counts.len(),
        |w: int|
            if counts[w] == 0 {
                0u32
            } else {
                scores[counts[w] as int]
            },
    )
}

/// A quadgram that was counted more often than another one has no lower
/// fitness, and quadgrams that were counted equally often have the same.
pub open spec fn rises_with_counts(counts: Seq<usize>, table: Seq<u32>) -> bool {
    forall|v: int, w: int|
        0 <= v < counts.len() && 0 <= w < counts.len() ==> {
            &&& counts[v] > counts[w] ==> #[trigger] table[v] >= #[trigger] table[w]
            &&& counts[v] == counts[w] ==> table[v] == table[w]
        }
}

/// The text of the quadgram in slot `w`; empty where the slot has none.
pub open spec fn quadgram_or_empty(alphabet: Seq<char>, w: int) -> Seq<char> {
    match quadgram_chars(alphabet, w) {
        Some(text) => text,
        None => Seq::<char>::empty(),
    }
}

/// Counts the quadgrams of a corpus that comes character by character.
pub struct QuadgramCounter {
    alphabet: Vec<char>,
    counts: Vec<usize>,
    most: usize,
    window: usize,
    seen: usize,
    history: Ghost<Seq<usize>>,
}

impl QuadgramCounter {
    /// The alphabet, in lower case.
    pub closed spec fn alphabet_chars(&self) -> Seq<char> {
        self.alphabet@
    }

    /// The indices of the characters that were taken so far.
    pub closed spec fn indices(&self) -> Seq<usize> {
        self.history@
    }

    /// The table holds the count of every quadgram that was taken so far.
    pub closed spec fn wf(&self) -> bool {
        &&& self.alphabet@.no_duplicates()
        &&& is_lower_case(self.alphabet@)
        &&& self.alphabet@.len() <= MAX_ALPHABET
        &&& self.counts@.len() == TABLE_SIZE
        &&& self.seen == self.history@.len()
        &&& five_bit(self.history@)
        &&& window_holds(self.history@, self.window)
        &&& is_greatest(self.counts@, self.most)
        &&& count_sum(self.counts@, TABLE_SIZE as int) == if self.history@.len() < 4 {
            0
        } else {
            self.history@.len() - 3
        }
        &&& forall|w: int|
            0 <= w < TABLE_SIZE ==> #[trigger] self.counts@[w] == occurrences(
                self.history@,
                w,
                self.history@.len() as int,
            )
    }

    /// A counter that has taken no character yet. The alphabet is taken in
    /// lower case. Fails where it holds a character twice or more than 32
    /// characters.
    pub fn new(alphabet: &str) -> (made: Result<Self, Error>)
        ensures
            match made {
                Ok(counter) => {
                    &&& model_alphabet_error(lowercase_of(alphabet@)) is None
                    &&& counter.wf()
                    &&& counter.alphabet_chars() == lowercase_of(alphabet@)
                    &&& counter.indices() == Seq::<usize>::empty()
                },
                Err(e) => model_alphabet_error(lowercase_of(alphabet@)) == Some(e),
            },
    {
        Self::with_lowered(lowercase(alphabet).as_str())
    }

    /// A counter that has taken no character yet, for an alphabet that was
    /// lowered before. Fails where the alphabet holds a character twice, an
    /// upper-case letter, or more than 32 characters.
    pub fn with_lowered(alphabet: &str) -> (made: Result<Self, Error>)
        ensures
            match made {
                Ok(counter) => {
                    &&& model_alphabet_error(alphabet@) is None
                    &&& counter.wf()
                    &&& counter.alphabet_chars() == alphabet@
                    &&& counter.indices() == Seq::<usize>::empty()
                },
                Err(e) => model_alphabet_error(alphabet@) == Some(e),
            },
    {
        let alphabet = match Key::checked_alphabet(alphabet) {
            Ok(a) => to_chars(a.as_str()),
            Err(e) => {
                return Err(e);
            },
        };
        if alphabet.len() > MAX_ALPHABET {
            return Err(Error::Alphabet(AlphabetError::TooLong));
        }
        let counts = vec![0usize; TABLE_SIZE];
        proof {
            lemma_count_sum_zero(counts@, TABLE_SIZE as int);
        }
        Ok(Self { alphabet, counts, most: 0, window: 0, seen: 0, history: Ghost(Seq::empty()) })
    }

    /// The number of characters that were taken so far.
    pub fn len(&self) -> (len: usize)
        requires
            self.wf(),
        ensures
            len == self.indices().len(),
    {
        self.seen
    }

    /// The index of a character: where its lower case stands in the
    /// alphabet, or the sentinel.
    pub fn index(&self, c: char) -> (index: usize)
        requires
            self.wf(),
        ensures
            index == char_index(self.alphabet_chars(), c),
            index < 32,
    {
        index_of_char(&self.alphabet, c)
    }

    /// Takes the next character of the corpus by its index, and counts the
    /// quadgram that it completes.
    pub fn push(&mut self, index: usize)
        requires
            old(self).wf(),
            index < 32,
            old(self).indices().len() < usize::MAX,
        ensures
            final(self).wf(),
            final(self).alphabet_chars() == old(self).alphabet_chars(),
            final(self).indices() == old(self).indices().push(index),
    {
        let ghost before = self.history@;
        let ghost after = before.push(index);
        self.window = slide(self.window, index);
        self.seen = self.seen + 1;
        self.history = Ghost(after);
        if self.seen >= 4 {
            proof {
                lemma_occurrences_bound(before, self.window as int, before.len() as int);
                lemma_count_sum_update(self.counts@, self.window as int, TABLE_SIZE as int);
            }
            let ghost at = choose|w: int| 0 <= w < TABLE_SIZE && self.counts@[w] == self.most;
            let count = self.counts[self.window];
            self.counts.set(self.window, count + 1);
            if count + 1 > self.most {
                self.most = count + 1;
                assert(self.counts@[self.window as int] == self.most);
            } else {
                assert(self.counts@[at] == self.most);
            }
        }
        proof {
            assert forall|w: int| 0 <= w < TABLE_SIZE implies #[trigger] self.counts@[w]
                == occurrences(after, w, after.len() as int) by {
                lemma_occurrences_prefix(before, after, w, before.len() as int);
            }
        }
    }

    /// Takes the next character of the corpus.
    pub fn push_char(&mut self, c: char)
        requires
            old(self).wf(),
            old(self).indices().len() < usize::MAX,
        ensures
            final(self).wf(),
            final(self).alphabet_chars() == old(self).alphabet_chars(),
            final(self).indices() == old(self).indices().push(
                char_index(old(self).alphabet_chars(), c),
            ),
    {
        let index = index_of_char(&self.alphabet, c);
        self.push(index);
    }

    /// The counts of the whole corpus. Fails where fewer than four
    /// characters were taken.
    pub fn finish(self) -> (counted: Result<QuadgramCounts, Error>)
        requires
            self.wf(),
        ensures
            match counted {
                Ok(q) => {
                    &&& self.indices().len() >= 4
                    &&& q.wf()
                    &&& q.alphabet_chars() == self.alphabet_chars()
                    &&& q.total_count() == self.indices().len() - 3
                    &&& q.total_count() == count_sum(q.slots(), TABLE_SIZE as int)
                    &&& is_least_nonzero(q.slots(), q.least_count())
                    &&& is_greatest(q.slots(), q.greatest_count())
                    &&& forall|w: int|
                        0 <= w < TABLE_SIZE ==> #[trigger] q.slots()[w] == occurrences(
                            self.indices(),
                            w,
                            self.indices().len() as int,
                        )
                },
                Err(e) => self.indices().len() < 4 && e == Error::CorpusTooShort,
            },
    {
        if self.seen < 4 {
            return Err(Error::CorpusTooShort);
        }
        proof {
            lemma_occurrences_positive(self.history@, 3, self.history@.len() as int);
            lemma_window_in_table(self.history@, 3);
            assert(self.counts@[window_at(self.history@, 3)] >= 1);
        }
        let least = least_nonzero(&self.counts);
        Ok(
            QuadgramCounts {
                alphabet: self.alphabet,
                counts: self.counts,
                total: self.seen - 3,
                least,
                most: self.most,
            },
        )
    }
}

/// The quadgrams of a corpus, counted slot by slot.
pub struct QuadgramCounts {
    alphabet: Vec<char>,
    counts: Vec<usize>,
    total: usize,
    least: usize,
    most: usize,
}

impl QuadgramCounts {
    /// The alphabet, in lower case.
    pub closed spec fn alphabet_chars(&self) -> Seq<char> {
        self.alphabet@
    }

    /// How often each slot's quadgram stood in the corpus.
    pub closed spec fn slots(&self) -> Seq<usize> {
        self.counts@
    }

    /// The number of quadgrams in the corpus.
    pub closed spec fn total_count(&self) -> usize {
        self.total
    }

    /// The smallest count that is not 0.
    pub closed spec fn least_count(&self) -> usize {
        self.least
    }

    /// The greatest count.
    pub closed spec fn greatest_count(&self) -> usize {
        self.most
    }

    /// The counts fill a table for an alphabet that fits it, at least one
    /// quadgram was counted, and the counts add up to the total.
    pub closed spec fn wf(&self) -> bool {
        &&& self.alphabet@.no_duplicates()
        &&& is_lower_case(self.alphabet@)
        &&& self.alphabet@.len() <= MAX_ALPHABET
        &&& self.counts@.len() == TABLE_SIZE
        &&& self.total >= 1
        &&& self.total == count_sum(self.counts@, TABLE_SIZE as int)
        &&& is_least_nonzero(self.counts@, self.least)
        &&& is_greatest(self.counts@, self.most)
    }

    /// What holds of all counts.
    pub proof fn lemma_wf(&self)
        requires
            self.wf(),
        ensures
            self.alphabet_chars().no_duplicates(),
            is_lower_case(self.alphabet_chars()),
            self.alphabet_chars().len() <= MAX_ALPHABET,
            self.slots().len() == TABLE_SIZE,
            self.total_count() >= 1,
            self.total_count() == count_sum(self.slots(), TABLE_SIZE as int),
            is_least_nonzero(self.slots(), self.least_count()),
            is_greatest(self.slots(), self.greatest_count()),
    {
    }

    /// The alphabet, in lower case.
    pub fn alphabet(&self) -> (alphabet: String)
        ensures
            alphabet@ == self.alphabet_chars(),
    {
        to_text(&self.alphabet)
    }

    /// How often each slot's quadgram stood in the corpus.
    pub fn counts(&self) -> (counts: &Vec<usize>)
        ensures
            counts@ == self.slots(),
    {
        &self.counts
    }

    /// The number of quadgrams in the corpus.
    pub fn total(&self) -> (total: usize)
        ensures
            total == self.total_count(),
    {
        self.total
    }

    /// The smallest count that is not 0.
    pub fn min_nonzero(&self) -> (least: usize)
        ensures
            least == self.least_count(),
    {
        self.least
    }

    /// The greatest count.
    pub fn max_count(&self) -> (most: usize)
        ensures
            most == self.greatest_count(),
    {
        self.most
    }
}

/// A quadgram model: an alphabet and the fitness of each of its quadgrams.
pub struct Breaker {
    alphabet: Vec<char>,
    quadgrams: Vec<u32>,
    info: BreakerInfo,
}

impl Breaker {
    /// The alphabet, in lower case.
    pub closed spec fn alphabet_chars(&self) -> Seq<char> {
        self.alphabet@
    }

    /// The fitness of the quadgram of each slot; 0 where it was never seen.
    pub closed spec fn table(&self) -> Seq<u32> {
        self.quadgrams@
    }

    /// What [`Breaker::info`] returns.
    pub closed spec fn info_view(&self) -> BreakerInfo {
        self.info
    }

    /// The table has one slot for each packed quadgram, and the alphabet fits it.
    pub closed spec fn wf(&self) -> bool {
        &&& self.alphabet@.no_duplicates()
        &&& is_lower_case(self.alphabet@)
        &&& self.alphabet@.len() <= MAX_ALPHABET
        &&& self.quadgrams@.len() == TABLE_SIZE
    }

    /// What holds of every model.
    pub proof fn lemma_wf(&self)
        requires
            self.wf(),
        ensures
            self.alphabet_chars().no_duplicates(),
            is_lower_case(self.alphabet_chars()),
            self.alphabet_chars().len() <= MAX_ALPHABET,
            self.table().len() == TABLE_SIZE,
    {
    }

    /// The fitness of a text under this model.
    pub open spec fn fitness_spec(&self, text: Seq<char>) -> nat {
        fitness_of(self.table(), indices_of(self.alphabet_chars(), text))
    }

    /// Puts a model together from the parts that a model file holds. The
    /// alphabet is taken in lower case. The largest fitness and the sum of
    /// the table are taken from the table itself.
    pub fn new(
        alphabet: &str,
        nbr_quadgrams: usize,
        most_frequent_quadgram: &str,
        quadgrams: Vec<u32>,
    ) -> (made: Result<Self, Error>)
        ensures
            match made {
                Ok(b) => {
                    &&& model_error(lowercase_of(alphabet@), quadgrams@.len()) is None
                    &&& b.wf()
                    &&& b.alphabet_chars() == lowercase_of(alphabet@)
                    &&& b.table() == quadgrams@
                    &&& b.info_view().alphabet@ == lowercase_of(alphabet@)
                    &&& b.info_view().nbr_quadgrams == nbr_quadgrams
                    &&& b.info_view().most_frequent_quadgram@ == most_frequent_quadgram@
                    &&& b.info_view().fitness_sum == sum_upto(quadgrams@, TABLE_SIZE as int)
                    &&& exists|m: int|
                        is_last_maximum(quadgrams@, m) && b.info_view().max_fitness == quadgrams@[m]
                },
                Err(e) => model_error(lowercase_of(alphabet@), quadgrams@.len()) == Some(e),
            },
    {
        Self::with_lowered(
            lowercase(alphabet).as_str(),
            nbr_quadgrams,
            most_frequent_quadgram,
            quadgrams,
        )
    }

    /// Puts a model together from the parts that a model file holds, its
    /// alphabet lowered before. Fails where the alphabet holds a character
    /// twice, an upper-case letter or more than 32 characters, and where the
    /// table does not have one entry for each slot.
    pub fn with_lowered(
        alphabet: &str,
        nbr_quadgrams: usize,
        most_frequent_quadgram: &str,
        quadgrams: Vec<u32>,
    ) -> (made: Result<Self, Error>)
        ensures
            match made {
                Ok(b) => {
                    &&& model_error(alphabet@, quadgrams@.len()) is None
                    &&& b.wf()
                    &&& b.alphabet_chars() == alphabet@
                    &&& b.table() == quadgrams@
                    &&& b.info_view().alphabet@ == alphabet@
                    &&& b.info_view().nbr_quadgrams == nbr_quadgrams
                    &&& b.info_view().most_frequent_quadgram@ == most_frequent_quadgram@
                    &&& b.info_view().fitness_sum == sum_upto(quadgrams@, TABLE_SIZE as int)
                    &&& exists|m: int|
                        is_last_maximum(quadgrams@, m) && b.info_view().max_fitness == quadgrams@[m]
                },
                Err(e) => model_error(alphabet@, quadgrams@.len()) == Some(e),
            },
    {
        let chars = to_chars(alphabet);
        if has_duplicates(&chars) || !in_lower_case(&chars) || chars.len() > MAX_ALPHABET {
            return Err(Error::ModelFile(ModelFileError::Alphabet));
        }
        if quadgrams.len() != TABLE_SIZE {
            return Err(Error::ModelFile(ModelFileError::TableSize));
        }
        let best = last_maximum(&quadgrams);
        let info = BreakerInfo::new(
            Some(to_text(&chars)),
            Some(nbr_quadgrams),
            Some(String::from_str(most_frequent_quadgram)),
            Some(table_sum(&quadgrams)),
            Some(quadgrams[best]),
        );
        Ok(Self { alphabet: chars, quadgrams, info })
    }

    /// Counts the quadgrams of a corpus for an alphabet. The alphabet is
    /// taken in lower case, and so is each character of the corpus; a
    /// character outside the alphabet counts as the sentinel index. Fails
    /// where the alphabet holds a character twice or more than 32
    /// characters, and where the corpus has fewer than four characters.
    pub fn generate_quadgrams(corpus: &str, alphabet: &str) -> (counted: Result<
        QuadgramCounts,
        Error,
    >)
        ensures
            match counted {
                Ok(q) => {
                    &&& generation_error(lowercase_of(alphabet@), corpus@.len()) is None
                    &&& q.wf()
                    &&& q.alphabet_chars() == lowercase_of(alphabet@)
                    &&& q.total_count() == corpus@.len() - 3
                    &&& q.total_count() == count_sum(q.slots(), TABLE_SIZE as int)
                    &&& is_least_nonzero(q.slots(), q.least_count())
                    &&& is_greatest(q.slots(), q.greatest_count())
                    &&& forall|w: int|
                        0 <= w < TABLE_SIZE ==> #[trigger] q.slots()[w] == occurrences(
                            indices_of(q.alphabet_chars(), corpus@),
                            w,
                            corpus@.len() as int,
                        )
                },
                Err(e) => generation_error(lowercase_of(alphabet@), corpus@.len()) == Some(e),
            },
    {
        Self::count_quadgrams(corpus, lowercase(alphabet).as_str())
    }

    /// Counts the quadgrams of a corpus for an alphabet that was lowered
    /// before. Each character of the corpus is taken in lower case; a
    /// character outside the alphabet counts as the sentinel index. Fails
    /// where the alphabet holds a character twice, an upper-case letter or
    /// more than 32 characters, and where the corpus has fewer than four
    /// characters.
    pub fn count_quadgrams(corpus: &str, alphabet: &str) -> (counted: Result<
        QuadgramCounts,
        Error,
    >)
        ensures
            match counted {
                Ok(q) => {
                    &&& generation_error(alphabet@, corpus@.len()) is None
                    &&& q.wf()
                    &&& q.alphabet_chars() == alphabet@
                    &&& q.total_count() == corpus@.len() - 3
                    &&& q.total_count() == count_sum(q.slots(), TABLE_SIZE as int)
                    &&& is_least_nonzero(q.slots(), q.least_count())
                    &&& is_greatest(q.slots(), q.greatest_count())
                    &&& forall|w: int|
                        0 <= w < TABLE_SIZE ==> #[trigger] q.slots()[w] == occurrences(
                            indices_of(alphabet@, corpus@),
                            w,
                            corpus@.len() as int,
                        )
                },
                Err(e) => generation_error(alphabet@, corpus@.len()) == Some(e),
            },
    {
        let mut counter = match QuadgramCounter::with_lowered(alphabet) {
            Ok(counter) => counter,
            Err(e) => {
                return Err(e);
            },
        };
        let text = to_chars(corpus);
        let ghost all = indices_of(alphabet@, corpus@);
        let mut t: usize = 0;
        while t < text.len()
            invariant
                t <= text.len(),
                text@ == corpus@,
                counter.wf(),
                counter.alphabet_chars() == alphabet@,
                all == indices_of(alphabet@, corpus@),
                counter.indices() == all.take(t as int),
            decreases text.len() - t,
        {
            counter.push_char(text[t]);
            t += 1;
        }
        assert(counter.indices() == all);
        counter.finish()
    }

    /// Makes the model of what was counted from the score of each count:
    /// `scores` holds at `c` the score of a quadgram that was counted `c`
    /// times. A quadgram that was never counted scores 0, and no other one
    /// does. Fails where the scores do not reach from 0 to the greatest
    /// count, where a count above 0 has the score 0, and where a count has a
    /// lower score than a smaller count. The quadgram with the largest
    /// score, the last of them where several have it, is the most frequent.
    pub fn from_scores(counts: &QuadgramCounts, scores: &Vec<u32>) -> (made: Result<Self, Error>)
        requires
            counts.wf(),
        ensures
            match made {
                Ok(b) => {
                    &&& scores_error(counts.greatest_count(), scores@) is None
                    &&& b.wf()
                    &&& b.alphabet_chars() == counts.alphabet_chars()
                    &&& b.table() == scored_table(counts.slots(), scores@)
                    &&& rises_with_counts(counts.slots(), b.table())
                    &&& forall|w: int|
                        0 <= w < TABLE_SIZE ==> (counts.slots()[w] > 0 <==> #[trigger] b.table()[w]
                            > 0)
                    &&& b.info_view().alphabet@ == counts.alphabet_chars()
                    &&& b.info_view().nbr_quadgrams == counts.total_count()
                    &&& b.info_view().fitness_sum == sum_upto(b.table(), TABLE_SIZE as int)
                    &&& exists|m: int|
                        {
                            &&& is_last_maximum(b.table(), m)
                            &&& b.info_view().max_fitness == b.table()[m]
                            &&& b.info_view().most_frequent_quadgram@ == quadgram_or_empty(
                                b.alphabet_chars(),
                                m,
                            )
                        }
                },
                Err(e) => scores_error(counts.greatest_count(), scores@) == Some(e),
            },
    {
        let given = scores.len();
        if counts.most == usize::MAX || given != counts.most + 1 || !check_never_falls(scores) {
            return Err(Error::ModelFile(ModelFileError::Scores));
        }
        if given >= 2 && scores[1] == 0 {
            return Err(Error::ModelFile(ModelFileError::Scores));
        }
        let mut quadgrams: Vec<u32> = Vec::new();
        let mut w: usize = 0;
        while w < TABLE_SIZE
            invariant
                w <= TABLE_SIZE,
                counts.counts.len() == TABLE_SIZE,
                scores.len() == counts.most + 1,
                forall|v: int| 0 <= v < TABLE_SIZE ==> counts.counts[v] <= counts.most,
                quadgrams@ == scored_table(counts.counts@, scores@).take(w as int),
            decreases TABLE_SIZE - w,
        {
            let count = counts.counts[w];
            quadgrams.push(
                if count == 0 {
                    0
                } else {
                    scores[count]
                },
            );
            w += 1;
        }
        let best = last_maximum(&quadgrams);
        let alphabet = counts.alphabet.clone();
        let info = BreakerInfo::new(
            Some(to_text(&alphabet)),
            Some(counts.total),
            quadgram_text(&alphabet, best),
            Some(table_sum(&quadgrams)),
            Some(quadgrams[best]),
        );
        Ok(Self { alphabet, quadgrams, info })
    }

    /// Scores a text: the sum of the table entries of all its quadgrams, each
    /// character taken in lower case and by its index in the alphabet. A
    /// text of fewer than four characters scores 0.
    pub fn fitness(&self, text: &str) -> (score: u128)
        requires
            self.wf(),
        ensures
            score == self.fitness_spec(text@),
            score < FITNESS_LIMIT,
    {
        self.fitness_chars(&to_chars(text))
    }

    /// Scores a text that is given character by character.
    pub fn fitness_chars(&self, text: &Vec<char>) -> (score: u128)
        requires
            self.wf(),
        ensures
            score == self.fitness_spec(text@),
            score < FITNESS_LIMIT,
    {
        let indices = text_indices(&self.alphabet, text);
        fitness(&self.quadgrams, &indices)
    }

    /// What is known of the model besides its table.
    pub fn info(&self) -> (info: &BreakerInfo)
        ensures
            *info == self.info_view(),
    {
        &self.info
    }

    /// The alphabet, in lower case.
    pub fn alphabet(&self) -> (alphabet: String)
        ensures
            alphabet@ == self.alphabet_chars(),
    {
        to_text(&self.alphabet)
    }

    /// The number of quadgrams that the alphabet can form: the fourth power
    /// of its length. The sum of the table divided by this number is the
    /// fitness expected of a quadgram of random characters.
    pub fn possible_quadgrams(&self) -> (number: usize)
        requires
            self.wf(),
        ensures
            number == self.alphabet_chars().len() * self.alphabet_chars().len()
                * self.alphabet_chars().len() * self.alphabet_chars().len(),
            number <= TABLE_SIZE,
    {
        let n = self.alphabet.len();
        assert(n * n <= 1024 && n * n * n <= 32768 && n * n * n * n <= 1048576) by (nonlinear_arith)
            requires
                n <= 32,
        ;
        n * n * n * n
    }

    /// The alphabet, character by character.
    pub fn alphabet_vec(&self) -> (alphabet: Vec<char>)
        ensures
            alphabet@ == self.alphabet_chars(),
    {
        self.alphabet.clone()
    }

    /// The fitness of the quadgram of each slot.
    pub fn quadgrams(&self) -> (table: &Vec<u32>)
        ensures
            table@ == self.table(),
    {
        &self.quadgrams
    }
}

} // verus!
