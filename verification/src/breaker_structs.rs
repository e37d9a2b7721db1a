//! The records that describe a model and the outcome of a search.

use vstd::prelude::*;

verus! {

/// What is known of a quadgram model besides its table.
pub struct BreakerInfo {
    /// The alphabet, in lower case.
    pub alphabet: String,
    /// The number of quadgrams that the corpus held.
    pub nbr_quadgrams: usize,
    /// The quadgram with the largest fitness; empty where it has no text.
    pub most_frequent_quadgram: String,
    /// The sum of all table entries. Divided by the fourth power of the
    /// alphabet's length it is the fitness expected of random text.
    pub fitness_sum: u64,
    /// The fitness of the most frequent quadgram.
    pub max_fitness: u32,
}

impl BreakerInfo {
    /// A record of the given values; what is not given is empty or 0.
    pub fn new(
        alphabet: Option<String>,
        nbr_quadgram: Option<usize>,
        most_frequent_quadgram: Option<String>,
        fitness_sum: Option<u64>,
        max_fitness: Option<u32>,
    ) -> (info: Self)
        ensures
            info.alphabet@ == match alphabet {
                Some(a) => a@,
                None => Seq::<char>::empty(),
            },
            info.nbr_quadgrams == match nbr_quadgram {
                Some(n) => n,
                None => 0,
            },
            info.most_frequent_quadgram@ == match most_frequent_quadgram {
                Some(q) => q@,
                None => Seq::<char>::empty(),
            },
            info.fitness_sum == match fitness_sum {
                Some(s) => s,
                None => 0,
            },
            info.max_fitness == match max_fitness {
                Some(m) => m,
                None => 0,
            },
    {
        Self {
            alphabet: match alphabet {
                Some(a) => a,
                None => String::new(),
            },
            nbr_quadgrams: match nbr_quadgram {
                Some(n) => n,
                None => 0,
            },
            most_frequent_quadgram: match most_frequent_quadgram {
                Some(q) => q,
                None => String::new(),
            },
            fitness_sum: match fitness_sum {
                Some(s) => s,
                None => 0,
            },
            max_fitness: match max_fitness {
                Some(m) => m,
                None => 0,
            },
        }
    }
}

/// The outcome of one search for the key of a ciphertext.
pub struct BreakerResult {
    /// The text that was to be broken.
    pub ciphertext: String,
    /// The ciphertext decoded with the best key found.
    pub plaintext: String,
    /// The best key found.
    pub key: String,
    /// The alphabet of the model.
    pub alphabet: String,
    /// The fitness of the plaintext.
    pub fitness: u128,
    /// The number of keys that were scored.
    pub nbr_keys: i32,
    /// The number of climbs from a random key to a local optimum.
    pub nbr_rounds: i32,
    /// Keys scored per second of the search, rounded down.
    pub keys_per_second: u64,
    /// The time the search took, in milliseconds.
    pub milliseconds: u64,
}

impl BreakerResult {
    /// A record of the given values; what is not given is empty or 0.
    pub fn new(
        ciphertext: Option<String>,
        plaintext: Option<String>,
        key: Option<String>,
        alphabet: Option<String>,
        fitness: Option<&u128>,
        nbr_keys: Option<&i32>,
        nbr_rounds: Option<&i32>,
        keys_per_second: Option<&u64>,
        milliseconds: Option<&u64>,
    ) -> (result: Self)
        ensures
            result.ciphertext@ == match ciphertext {
                Some(t) => t@,
                None => Seq::<char>::empty(),
            },
            result.plaintext@ == match plaintext {
                Some(t) => t@,
                None => Seq::<char>::empty(),
            },
            result.key@ == match key {
                Some(k) => k@,
                None => Seq::<char>::empty(),
            },
            result.alphabet@ == match alphabet {
                Some(a) => a@,
                None => Seq::<char>::empty(),
            },
            result.fitness == match fitness {
                Some(f) => *f,
                None => 0,
            },
            result.nbr_keys == match nbr_keys {
                Some(n) => *n,
                None => 0,
            },
            result.nbr_rounds == match nbr_rounds {
                Some(n) => *n,
                None => 0,
            },
            result.keys_per_second == match keys_per_second {
                Some(k) => *k,
                None => 0,
            },
            result.milliseconds == match milliseconds {
                Some(m) => *m,
                None => 0,
            },
    {
        Self {
            ciphertext: match ciphertext {
                Some(t) => t,
                None => String::new(),
            },
            plaintext: match plaintext {
                Some(t) => t,
                None => String::new(),
            },
            key: match key {
                Some(k) => k,
                None => String::new(),
            },
            alphabet: match alphabet {
                Some(a) => a,
                None => String::new(),
            },
            fitness: match fitness {
                Some(f) => *f,
                None => 0,
            },
            nbr_keys: match nbr_keys {
                Some(n) => *n,
                None => 0,
            },
            nbr_rounds: match nbr_rounds {
                Some(n) => *n,
                None => 0,
            },
            keys_per_second: match keys_per_second {
                Some(k) => *k,
                None => 0,
            },
            milliseconds: match milliseconds {
                Some(m) => *m,
                None => 0,
            },
        }
    }

    /// The one-line report of the result: the words `key = ` and the key.
    pub fn to_string(&self) -> (line: String)
        ensures
            line@ == "key = "@ + self.key@,
    {
        String::from_str("key = ").concat(self.key.as_str())
    }
}

} // verus!
