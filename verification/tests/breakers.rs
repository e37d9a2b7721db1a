use substitution_breaker::breaker::{Breaker, QuadgramCounter};
use substitution_breaker::breaker_structs::{BreakerInfo, BreakerResult};
use substitution_breaker::error::{AlphabetError, Error, ModelFileError};
use substitution_breaker::quadgram::TABLE_SIZE;

#[test]
fn corpus_shorter_than_a_quadgram_is_refused() {
    for corpus in ["", "a", "ab", "abc", "..."] {
        assert_eq!(
            Breaker::generate_quadgrams(corpus, "abcd").err(),
            Some(Error::CorpusTooShort)
        );
    }
    assert!(Breaker::generate_quadgrams("abcd", "abcd").is_ok());
    // Characters outside the alphabet count as characters of the corpus.
    assert!(Breaker::generate_quadgrams("....", "abcd").is_ok());
}

#[test]
fn alphabet_for_a_model_is_unique_and_at_most_32_long() {
    assert_eq!(
        Breaker::generate_quadgrams("abcdabcd", "abca").err(),
        Some(Error::Alphabet(AlphabetError::Duplicate))
    );
    assert_eq!(
        Breaker::generate_quadgrams("abcdabcd", "abcdefghijklmnopqrstuvwxyz0123456").err(),
        Some(Error::Alphabet(AlphabetError::TooLong))
    );
    assert!(Breaker::generate_quadgrams("abcdabcd", "abcdefghijklmnopqrstuvwxyz012345").is_ok());
    // The alphabet is judged before the corpus.
    assert_eq!(
        Breaker::generate_quadgrams("", "aa").err(),
        Some(Error::Alphabet(AlphabetError::Duplicate))
    );
}

#[test]
fn quadgrams_of_a_corpus_are_counted() {
    let counts = Breaker::generate_quadgrams("AbcdABCD", "ABCD").ok().unwrap();
    assert_eq!(counts.alphabet(), "abcd");
    assert_eq!(counts.total(), 5);
    assert_eq!(counts.min_nonzero(), 1);
    assert_eq!(counts.counts().len(), TABLE_SIZE);
    assert_eq!(counts.counts()[1091], 2);
    assert_eq!(counts.counts()[34912], 1);
    assert_eq!(counts.counts().iter().filter(|&&c| c > 0).count(), 4);
}

#[test]
fn least_count_of_a_corpus() {
    let counts = Breaker::generate_quadgrams("aaaaaaabbbbb", "ab").ok().unwrap();
    // aaaa four times, aaab, aabb, abbb once each, bbbb twice.
    assert_eq!(counts.total(), 9);
    assert_eq!(counts.counts()[0], 4);
    assert_eq!(counts.counts()[32 * 32 * 32 + 32 * 32 + 32 + 1], 2);
    assert_eq!(counts.min_nonzero(), 1);
    let even = Breaker::generate_quadgrams("aaaaaa", "ab").ok().unwrap();
    assert_eq!(even.min_nonzero(), 3);
}

#[test]
fn greatest_and_least_count() {
    let counts = Breaker::generate_quadgrams("abcdabcd", "abcd").ok().unwrap();
    assert_eq!(counts.max_count(), 2);
    assert_eq!(counts.min_nonzero(), 1);
    let even = Breaker::generate_quadgrams("aaaaaa", "ab").ok().unwrap();
    assert_eq!(even.max_count(), 3);
    assert_eq!(even.min_nonzero(), 3);
}

#[test]
fn model_of_counts_keeps_unseen_quadgrams_at_zero() {
    let counts = Breaker::generate_quadgrams("abcdabcd", "abcd").ok().unwrap();
    // The score of the count 0 is not used.
    let breaker = Breaker::from_scores(&counts, &vec![100, 7, 7]).ok().unwrap();
    let table = breaker.quadgrams();
    assert_eq!(table.len(), TABLE_SIZE);
    assert_eq!(table[1091], 7);
    assert_eq!(table[98338], 7);
    assert_eq!(table[0], 0);
    assert_eq!(table.iter().map(|&e| e as u64).sum::<u64>(), 28);
    let info = breaker.info();
    assert_eq!(info.alphabet, "abcd");
    assert_eq!(info.nbr_quadgrams, 5);
    assert_eq!(info.fitness_sum, 28);
    assert_eq!(info.max_fitness, 7);
    // Of the four quadgrams with the largest score the last slot counts.
    assert_eq!(info.most_frequent_quadgram, "dabc");
}

#[test]
fn each_quadgram_has_the_score_of_its_count() {
    let counts = Breaker::generate_quadgrams("abcdabcd", "abcd").ok().unwrap();
    let breaker = Breaker::from_scores(&counts, &vec![0, 7, 9]).ok().unwrap();
    assert_eq!(breaker.quadgrams()[1091], 9); // abcd, counted twice
    assert_eq!(breaker.quadgrams()[34912], 7); // bcda, counted once
    assert_eq!(breaker.quadgrams()[5], 0);
    assert_eq!(breaker.info().most_frequent_quadgram, "abcd");
    assert_eq!(breaker.info().max_fitness, 9);
    assert_eq!(breaker.info().fitness_sum, 30);
}

#[test]
fn most_frequent_quadgram_without_text_is_empty() {
    // With one letter the sentinel index names no character.
    let counts = Breaker::generate_quadgrams("a..a", "a").ok().unwrap();
    let breaker = Breaker::from_scores(&counts, &vec![0, 1]).ok().unwrap();
    assert_eq!(breaker.info().most_frequent_quadgram, "");
    assert_eq!(breaker.info().max_fitness, 1);
}

#[test]
fn scores_must_cover_the_counts_and_never_fall() {
    let counts = Breaker::generate_quadgrams("abcdabcd", "abcd").ok().unwrap();
    for scores in [vec![], vec![0], vec![0, 7], vec![0, 7, 9, 11], vec![0, 9, 7]] {
        assert_eq!(
            Breaker::from_scores(&counts, &scores).err(),
            Some(Error::ModelFile(ModelFileError::Scores))
        );
    }
    assert!(Breaker::from_scores(&counts, &vec![0, 7, 7]).is_ok());
    assert!(Breaker::from_scores(&counts, &vec![50, 1, 1]).is_ok());
    assert_eq!(
        Error::ModelFile(ModelFileError::Scores).message(),
        "Model must have a score above 0 for each count, and none lower than that of a smaller count."
    );
}

#[test]
fn counted_quadgrams_score_above_zero() {
    let counts = Breaker::generate_quadgrams("abcdabcd", "abcd").ok().unwrap();
    for scores in [vec![0, 0, 0], vec![50, 0, 0], vec![0, 0, 7]] {
        assert_eq!(
            Breaker::from_scores(&counts, &scores).err(),
            Some(Error::ModelFile(ModelFileError::Scores))
        );
    }
    let once = Breaker::generate_quadgrams("abcd", "abcd").ok().unwrap();
    assert_eq!(
        Breaker::from_scores(&once, &vec![0, 0]).err(),
        Some(Error::ModelFile(ModelFileError::Scores))
    );
    let breaker = Breaker::from_scores(&once, &vec![0, 1]).ok().unwrap();
    assert_eq!(breaker.quadgrams()[1091], 1);
    assert_eq!(breaker.quadgrams().iter().filter(|&&entry| entry > 0).count(), 1);
}

#[test]
fn model_alphabets_of_other_scripts_are_lowered() {
    let counter = QuadgramCounter::new("\u{c4}b").ok().unwrap();
    assert_eq!(counter.index('\u{e4}'), 0);
    assert_eq!(counter.index('b'), 1);
    let counts = Breaker::generate_quadgrams("\u{e4}b\u{e4}b\u{e4}", "\u{c4}B").ok().unwrap();
    assert_eq!(counts.alphabet(), "\u{e4}b");
    assert_eq!(counts.counts()[32 * 32 + 1], 1); // a-diaeresis, b, a-diaeresis, b
    assert_eq!(counts.counts()[32 * 32 * 32 + 32], 1); // b, a-diaeresis, b, a-diaeresis
    let breaker = Breaker::from_scores(&counts, &vec![0, 5]).ok().unwrap();
    assert_eq!(breaker.alphabet(), "\u{e4}b");
    assert_eq!(breaker.info().alphabet, "\u{e4}b");
    assert_eq!(
        QuadgramCounter::new("\u{e4}\u{c4}").err(),
        Some(Error::Alphabet(AlphabetError::Duplicate))
    );
    let loaded = Breaker::new("\u{c4}B", 2, "", vec![0u32; TABLE_SIZE]).ok().unwrap();
    assert_eq!(loaded.alphabet(), "\u{e4}b");
    assert_eq!(
        Breaker::new("\u{e4}\u{c4}", 2, "", vec![0u32; TABLE_SIZE]).err(),
        Some(Error::ModelFile(ModelFileError::Alphabet))
    );
}

#[test]
fn lowered_model_alphabets_are_checked_as_they_are() {
    assert!(QuadgramCounter::with_lowered("abcd").is_ok());
    assert_eq!(
        QuadgramCounter::with_lowered("abcD").err(),
        Some(Error::Alphabet(AlphabetError::Case))
    );
    assert_eq!(
        QuadgramCounter::with_lowered("abca").err(),
        Some(Error::Alphabet(AlphabetError::Duplicate))
    );
    assert_eq!(
        QuadgramCounter::with_lowered("abcdefghijklmnopqrstuvwxyz0123456").err(),
        Some(Error::Alphabet(AlphabetError::TooLong))
    );
    assert_eq!(
        Breaker::count_quadgrams("abcdabcd", "ABCD").err(),
        Some(Error::Alphabet(AlphabetError::Case))
    );
    assert_eq!(Breaker::count_quadgrams("abc", "abcd").err(), Some(Error::CorpusTooShort));
    let counts = Breaker::count_quadgrams("ABCDabcd", "abcd").ok().unwrap();
    assert_eq!(counts.counts()[1091], 2);
    assert_eq!(counts.total(), 5);
    assert_eq!(
        Breaker::with_lowered("ABCD", 5, "abcd", vec![0u32; TABLE_SIZE]).err(),
        Some(Error::ModelFile(ModelFileError::Alphabet))
    );
    assert_eq!(
        Breaker::with_lowered("abcd", 5, "abcd", vec![0u32; 3]).err(),
        Some(Error::ModelFile(ModelFileError::TableSize))
    );
    let breaker = Breaker::with_lowered("abcd", 5, "abcd", vec![0u32; TABLE_SIZE]).ok().unwrap();
    assert_eq!(breaker.alphabet(), "abcd");
}


#[test]
fn model_from_its_parts() {
    let mut table = vec![0u32; TABLE_SIZE];
    table[1091] = 12;
    table[98338] = 30;
    let breaker = Breaker::new("ABCD", 5, "dabc", table).ok().unwrap();
    assert_eq!(breaker.alphabet(), "abcd");
    assert_eq!(breaker.alphabet_vec(), vec!['a', 'b', 'c', 'd']);
    assert_eq!(breaker.info().alphabet, "abcd");
    assert_eq!(breaker.info().nbr_quadgrams, 5);
    assert_eq!(breaker.info().most_frequent_quadgram, "dabc");
    assert_eq!(breaker.info().max_fitness, 30);
    assert_eq!(breaker.info().fitness_sum, 42);
    assert_eq!(breaker.possible_quadgrams(), 256);
}

#[test]
fn possible_quadgrams_are_the_fourth_power_of_the_alphabet() {
    let table = vec![0u32; TABLE_SIZE];
    let empty = Breaker::new("", 0, "", table.clone()).ok().unwrap();
    assert_eq!(empty.possible_quadgrams(), 0);
    let latin = Breaker::new("abcdefghijklmnopqrstuvwxyz", 0, "", table.clone()).ok().unwrap();
    assert_eq!(latin.possible_quadgrams(), 456976);
    let full = Breaker::new("abcdefghijklmnopqrstuvwxyz012345", 0, "", table).ok().unwrap();
    assert_eq!(full.possible_quadgrams(), TABLE_SIZE);
}

#[test]
fn malformed_model_is_refused() {
    assert_eq!(
        Breaker::new("abca", 5, "abcd", vec![0u32; TABLE_SIZE]).err(),
        Some(Error::ModelFile(ModelFileError::Alphabet))
    );
    assert_eq!(
        Breaker::new("abcdefghijklmnopqrstuvwxyz0123456", 5, "abcd", vec![0u32; TABLE_SIZE]).err(),
        Some(Error::ModelFile(ModelFileError::Alphabet))
    );
    assert_eq!(
        Breaker::new("abcd", 5, "abcd", vec![0u32; TABLE_SIZE - 1]).err(),
        Some(Error::ModelFile(ModelFileError::TableSize))
    );
    assert_eq!(
        Breaker::new("abcd", 5, "abcd", vec![]).err(),
        Some(Error::ModelFile(ModelFileError::TableSize))
    );
}

#[test]
fn text_is_scored_in_lower_case_with_the_sentinel() {
    let mut table = vec![0u32; TABLE_SIZE];
    table[1091] = 12; // abcd
    table[34912] = 5; // bcda
    table[32 * 32 * 32 + 32 * 32 + 32 + 1] = 100; // bbbb
    let breaker = Breaker::new("abcd", 5, "abcd", table).ok().unwrap();
    assert_eq!(breaker.fitness("abcd"), 12);
    assert_eq!(breaker.fitness("ABCDa"), 17);
    assert_eq!(breaker.fitness("abc"), 0);
    assert_eq!(breaker.fitness(""), 0);
    // The sentinel is the index of the second letter.
    assert_eq!(breaker.fitness("a cd"), 12);
    assert_eq!(breaker.fitness("?!., "), 200);
    assert_eq!(breaker.fitness_chars(&vec!['a', 'b', 'c', 'd', 'a']), 17);
}

#[test]
fn info_without_values_is_empty() {
    let info = BreakerInfo::new(None, None, None, None, None);
    assert_eq!(info.alphabet, "");
    assert_eq!(info.nbr_quadgrams, 0);
    assert_eq!(info.most_frequent_quadgram, "");
    assert_eq!(info.fitness_sum, 0);
    assert_eq!(info.max_fitness, 0);
    let info = BreakerInfo::new(
        Some("abc".to_string()),
        Some(17),
        Some("abca".to_string()),
        Some(4000),
        Some(900),
    );
    assert_eq!(info.alphabet, "abc");
    assert_eq!(info.nbr_quadgrams, 17);
    assert_eq!(info.most_frequent_quadgram, "abca");
    assert_eq!(info.fitness_sum, 4000);
    assert_eq!(info.max_fitness, 900);
}

#[test]
fn result_without_values_is_empty() {
    let result = BreakerResult::new(None, None, None, None, None, None, None, None, None);
    assert_eq!(result.ciphertext, "");
    assert_eq!(result.plaintext, "");
    assert_eq!(result.key, "");
    assert_eq!(result.alphabet, "");
    assert_eq!(result.fitness, 0);
    assert_eq!(result.nbr_keys, 0);
    assert_eq!(result.nbr_rounds, 0);
    assert_eq!(result.keys_per_second, 0);
    assert_eq!(result.milliseconds, 0);
    assert_eq!(result.to_string(), "key = ");
}

#[test]
fn result_holds_what_it_was_given() {
    let result = BreakerResult::new(
        Some("siaa".to_string()),
        Some("flee".to_string()),
        Some("zebras".to_string()),
        Some("abcdef".to_string()),
        Some(&1234),
        Some(&5678),
        Some(&9),
        Some(&1000),
        Some(&5678),
    );
    assert_eq!(result.ciphertext, "siaa");
    assert_eq!(result.plaintext, "flee");
    assert_eq!(result.key, "zebras");
    assert_eq!(result.alphabet, "abcdef");
    assert_eq!(result.fitness, 1234);
    assert_eq!(result.nbr_keys, 5678);
    assert_eq!(result.nbr_rounds, 9);
    assert_eq!(result.keys_per_second, 1000);
    assert_eq!(result.milliseconds, 5678);
    assert_eq!(result.to_string(), "key = zebras");
}

#[test]
fn errors_have_messages() {
    assert_eq!(
        Error::Alphabet(AlphabetError::Duplicate).message(),
        "Alphabet characters must be unique."
    );
    assert_eq!(
        Error::Alphabet(AlphabetError::TooLong).message(),
        "Alphabet must have less or equal than 32 characters."
    );
    assert_eq!(Error::CorpusTooShort.message(), "Corpus must have at least four characters.");
    assert_eq!(
        Error::ModelFile(ModelFileError::TableSize).message(),
        "Model must have one entry for each of the 1048576 quadgrams."
    );
    assert_eq!(
        Error::ModelFile(ModelFileError::Alphabet).message(),
        "Model alphabet must have unique characters and at most 32 of them."
    );
}

#[test]
fn counter_wants_an_alphabet_for_a_model() {
    assert_eq!(
        QuadgramCounter::new("abca").err(),
        Some(Error::Alphabet(AlphabetError::Duplicate))
    );
    assert_eq!(
        QuadgramCounter::new("abcdefghijklmnopqrstuvwxyz0123456").err(),
        Some(Error::Alphabet(AlphabetError::TooLong))
    );
    assert!(QuadgramCounter::new("").is_ok());
}

#[test]
fn counter_without_a_quadgram_has_no_counts() {
    let mut counter = QuadgramCounter::new("abcd").ok().unwrap();
    assert_eq!(counter.len(), 0);
    counter.push_char('a');
    counter.push_char('b');
    counter.push_char('c');
    assert_eq!(counter.len(), 3);
    assert_eq!(counter.finish().err(), Some(Error::CorpusTooShort));
    let empty = QuadgramCounter::new("abcd").ok().unwrap();
    assert_eq!(empty.finish().err(), Some(Error::CorpusTooShort));
}

#[test]
fn counter_counts_character_by_character() {
    let mut counter = QuadgramCounter::new("ABCD").ok().unwrap();
    assert_eq!(counter.index('c'), 2);
    assert_eq!(counter.index('C'), 2);
    assert_eq!(counter.index('!'), 1);
    for c in "abcdAB".chars() {
        counter.push_char(c);
    }
    counter.push(2);
    counter.push(3);
    assert_eq!(counter.len(), 8);
    let counts = counter.finish().ok().unwrap();
    assert_eq!(counts.alphabet(), "abcd");
    assert_eq!(counts.total(), 5);
    assert_eq!(counts.min_nonzero(), 1);
    assert_eq!(counts.counts()[1091], 2); // abcd
    assert_eq!(counts.counts()[34912], 1); // bcda
    assert_eq!(counts.counts()[68609], 1); // cdab
    assert_eq!(counts.counts()[98338], 1); // dabc
    assert_eq!(counts.counts().iter().sum::<usize>(), 5);
}

#[test]
fn counter_and_corpus_count_alike() {
    let corpus = "The quick brown fox jumps over the lazy dog, twice: the quick brown fox!";
    let whole = Breaker::generate_quadgrams(corpus, "abcdefghijklmnopqrstuvwxyz").ok().unwrap();
    let mut counter = QuadgramCounter::new("abcdefghijklmnopqrstuvwxyz").ok().unwrap();
    for c in corpus.chars() {
        counter.push_char(c);
    }
    let streamed = counter.finish().ok().unwrap();
    assert_eq!(whole.counts(), streamed.counts());
    assert_eq!(whole.total(), streamed.total());
    assert_eq!(whole.total(), corpus.chars().count() - 3);
    assert_eq!(whole.min_nonzero(), streamed.min_nonzero());
}

#[test]
fn highest_slot_is_counted() {
    let mut counter = QuadgramCounter::new("abcdefghijklmnopqrstuvwxyz012345").ok().unwrap();
    for _ in 0..6 {
        counter.push(31);
    }
    let counts = counter.finish().ok().unwrap();
    assert_eq!(counts.counts()[TABLE_SIZE - 1], 3);
    assert_eq!(counts.min_nonzero(), 3);
}
