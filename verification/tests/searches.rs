use substitution_breaker::breaker::Breaker;
use substitution_breaker::key::Key;
use substitution_breaker::quadgram::TABLE_SIZE;
use substitution_breaker::random::Generator;
use substitution_breaker::climb::{
    add_keys, best_neighbour, climb, improve, pair_count, score, Cipher,
};
use substitution_breaker::search::{capped_millis, keys_per_second, KeySearchEngine};

const LATIN: &str = "abcdefghijklmnopqrstuvwxyz";

const CORPUS: &str = "The morning train left the station a few minutes late, and the passengers settled into \
    their seats with the quiet patience of people who had made the same journey many times \
    before. Outside the window the fields were still covered with mist, and the river that \
    followed the track shone like a thin strip of metal in the early light. A woman in a \
    grey coat opened her newspaper and read the first page without interest. The man beside \
    her looked at his watch, then at the door, then at his watch again. Nothing in the \
    carriage suggested that this day would be different from any other day of the week. At \
    the third stop a young man with a heavy suitcase came in and took the seat near the \
    door. He was out of breath, and his shoes were wet from the grass. He put the suitcase \
    on the floor between his feet and kept one hand on it for the rest of the journey. When \
    the conductor asked for his ticket he searched every pocket of his jacket before he \
    found it in his hat. The other passengers smiled at this, but the young man did not seem \
    to notice them. He was thinking about the letter that he carried, and about the person \
    who was waiting for it in the city. The letter had been written three weeks before by an \
    old teacher who lived alone in a small house at the end of the village. It was not a \
    long letter, and there was nothing in it that a stranger would have thought important. \
    It spoke of the weather, of the garden, of the books that the teacher had been reading \
    during the winter. But between the lines there was a message that only one reader would \
    understand, and the young man had promised to deliver it into the hands of that reader \
    and of no other. That was the reason for the suitcase, which contained nothing but old \
    clothes, and for the hat, which he never took off. When the train reached the city the \
    streets were already full of people. The young man walked quickly through the crowd, \
    turned into a narrow street behind the market, and stopped in front of a shop that sold \
    clocks and watches. In the window there were more than a hundred clocks, and every one \
    of them showed a different time. He waited until the street was empty, then he opened \
    the door and went inside. The owner of the shop was standing behind the counter with a \
    small tool in his hand. He looked at the young man over the top of his glasses and said \
    that the weather was rather cold for the time of the year. The young man answered that \
    the winter had been longer than anyone expected. These were the words that the teacher \
    had told him to say, and the owner of the shop nodded and put down his tool. He locked \
    the door, pulled down the blind, and led the way through a curtain into a room at the \
    back. There the letter was opened at last. The owner read it three times, then he held \
    it over the flame of a candle until the paper turned brown and the hidden writing \
    appeared between the lines. It was a short message in a simple cipher, in which every \
    letter of the alphabet had been replaced by another letter.";

const SECRET: &str = "To read such a message without the key is not as difficult as most people think. In any \
    language some letters are used far more often than others, and some groups of letters \
    appear together again and again while other groups are never seen at all. A patient \
    reader who counts the letters and compares";

/// The model of a corpus: each count becomes the logarithm of ten times its
/// ratio to the least count, scaled so that the weighted mean is 1000.
fn model(corpus: &str, alphabet: &str) -> Breaker {
    let counts = Breaker::generate_quadgrams(corpus, alphabet).ok().unwrap();
    let total = counts.total() as f64;
    let offset = (counts.min_nonzero() as f64 / 10.0 / total).ln();
    let mut norm = 0.0;
    for &count in counts.counts().iter().filter(|&&count| count > 0) {
        let share = count as f64 / total;
        norm += share * (share.ln() - offset);
    }
    let scores: Vec<u32> = (0..=counts.max_count())
        .map(|count| {
            if count == 0 {
                0
            } else {
                (((count as f64 / total).ln() - offset) / norm * 1000.0).round() as u32
            }
        })
        .collect();
    Breaker::from_scores(&counts, &scores).ok().unwrap()
}

/// A model of four letters in which each turn of `abcd` has its own score.
fn small_model() -> Breaker {
    let mut table = vec![0u32; TABLE_SIZE];
    table[1091] = 10; // abcd
    table[34912] = 20; // bcda
    table[68609] = 30; // cdab
    table[98338] = 40; // dabc
    Breaker::new("abcd", 13, "dabc", table).ok().unwrap()
}

fn swapped(key: &str, i: usize, j: usize) -> String {
    let mut chars: Vec<char> = key.chars().collect();
    chars.swap(i, j);
    chars.into_iter().collect()
}

/// The fitness of a ciphertext under a key, by way of the decoded text.
fn fitness_under(breaker: &Breaker, key: &str, ciphertext: &str) -> u128 {
    let mut key = Key::new(key, &breaker.alphabet()).unwrap();
    breaker.fitness(&key.decode(ciphertext))
}

/// The first of the best exchanges in a key, and its fitness.
fn best_exchange(breaker: &Breaker, key: &str, ciphertext: &str) -> (usize, usize, u128) {
    let n = key.chars().count();
    let mut best = (0, 0, 0);
    let mut found = false;
    for i in 0..n {
        for j in i + 1..n {
            let fitness = fitness_under(breaker, &swapped(key, i, j), ciphertext);
            if !found || fitness > best.2 {
                best = (i, j, fitness);
                found = true;
            }
        }
    }
    best
}

fn is_local_optimum(breaker: &Breaker, key: &str, ciphertext: &str) -> bool {
    let here = fitness_under(breaker, key, ciphertext);
    let n = key.chars().count();
    (0..n).all(|i| {
        (i + 1..n).all(|j| fitness_under(breaker, &swapped(key, i, j), ciphertext) <= here)
    })
}

fn is_permutation(key: &str, alphabet: &str) -> bool {
    let mut left: Vec<char> = key.chars().collect();
    let mut right: Vec<char> = alphabet.chars().collect();
    left.sort();
    right.sort();
    left == right
}

#[test]
fn generator_follows_its_formula() {
    let mut generator = Generator::new(42);
    assert_eq!(generator.next(), 2440530669);
    assert_eq!(generator.next(), 968358053);
    assert_eq!(generator.next(), 1773127077);
    let mut generator = Generator::new(42);
    assert_eq!(generator.below(10), 9);
    assert_eq!(generator.below(1), 0);
    assert_eq!(generator.below(1000), 77);
}

#[test]
fn shuffle_draws_a_permutation_from_the_seed() {
    let mut items: Vec<char> = "abcd".chars().collect();
    let mut generator = Generator::new(42);
    generator.shuffle(&mut items);
    assert_eq!(items, vec!['a', 'd', 'c', 'b']);
    // Three steps were made.
    assert_eq!(generator.next(), Generator::new(7615522811268512075).next());

    let mut items: Vec<char> = LATIN.chars().collect();
    Generator::new(7).shuffle(&mut items);
    assert_eq!(items.iter().collect::<String>(), "vzyorgdwlbcpjfqxathuikmsne");

    let mut none: Vec<char> = vec![];
    let mut generator = Generator::new(5);
    generator.shuffle(&mut none);
    assert!(none.is_empty());
    let mut one = vec!['x'];
    generator.shuffle(&mut one);
    assert_eq!(one, vec!['x']);
    assert_eq!(generator.next(), Generator::new(5).next());
}

#[test]
fn pairs_of_an_alphabet() {
    assert_eq!(pair_count(0), 0);
    assert_eq!(pair_count(1), 0);
    assert_eq!(pair_count(2), 1);
    assert_eq!(pair_count(4), 6);
    assert_eq!(pair_count(26), 325);
    assert_eq!(pair_count(32), 496);
}

#[test]
fn key_counts_stop_at_the_largest_number() {
    assert_eq!(add_keys(0, 0), 0);
    assert_eq!(add_keys(5, 7), 12);
    assert_eq!(add_keys(i32::MAX - 5, 5), i32::MAX);
    assert_eq!(add_keys(i32::MAX - 1, 5), i32::MAX);
    assert_eq!(add_keys(i32::MAX, i32::MAX), i32::MAX);
}

#[test]
fn keys_per_second_is_zero_without_time() {
    assert_eq!(keys_per_second(1000, 500), 2000);
    assert_eq!(keys_per_second(1, 3), 333);
    assert_eq!(keys_per_second(7, 0), 0);
    assert_eq!(keys_per_second(0, 10), 0);
    assert_eq!(keys_per_second(-3, 10), 0);
    assert_eq!(keys_per_second(i32::MAX, 1), 2147483647000);
    assert_eq!(keys_per_second(1, u64::MAX), 0);
}

#[test]
fn cipher_keeps_its_text() {
    let breaker = small_model();
    let cipher = Cipher::new(&breaker, "AbCd, x!");
    assert_eq!(cipher.ciphertext(), "AbCd, x!");
}

#[test]
fn score_is_the_fitness_of_the_decoded_text() {
    let breaker = small_model();
    let text = "abcdAbcd xyz dabc";
    let cipher = Cipher::new(&breaker, text);
    for key in ["abcd", "bacd", "dcba", "cdab", "bcda"] {
        let made = Key::new(key, "abcd").unwrap();
        assert_eq!(score(&breaker, &cipher, &made), fitness_under(&breaker, key, text));
    }
    let identity = Key::new("abcd", "abcd").unwrap();
    assert_eq!(score(&breaker, &Cipher::new(&breaker, "abcdabcd"), &identity), 110);
    assert_eq!(score(&breaker, &Cipher::new(&breaker, "abc"), &identity), 0);
}

#[test]
fn best_neighbour_is_the_first_of_the_best_exchanges() {
    let breaker = small_model();
    for (key, text) in [("abcd", "abcdabcdabcd"), ("bacd", "abcdabcd"), ("dcba", "dabcdabc cdab")] {
        let cipher = Cipher::new(&breaker, text);
        let mut made = Key::new(key, "abcd").unwrap();
        let found = best_neighbour(&breaker, &cipher, &mut made);
        assert_eq!(found, Some(best_exchange(&breaker, key, text)));
        assert_eq!(made.key(), key);
    }
    // Where every exchange scores the same, the first one is the best.
    let cipher = Cipher::new(&breaker, "zzzz");
    let mut made = Key::new("abcd", "abcd").unwrap();
    assert_eq!(best_neighbour(&breaker, &cipher, &mut made), Some((0, 1, 0)));
    // A key of one letter has no neighbour.
    let single = Breaker::new("a", 1, "", vec![1u32; TABLE_SIZE]).ok().unwrap();
    let cipher = Cipher::new(&single, "aaaaa");
    let mut made = Key::new("a", "a").unwrap();
    assert_eq!(best_neighbour(&single, &cipher, &mut made), None);
}

#[test]
fn improve_moves_only_to_a_better_key() {
    let breaker = small_model();
    let text = "abcdabcdabcd";
    let cipher = Cipher::new(&breaker, text);

    let mut key = Key::new("bacd", "abcd").unwrap();
    let current = score(&breaker, &cipher, &key);
    let (i, j, best) = best_exchange(&breaker, "bacd", text);
    assert!(best > current);
    assert_eq!(improve(&breaker, &cipher, &mut key, current), Some(best));
    assert_eq!(key.key(), swapped("bacd", i, j));

    // The best neighbour must beat the score that is given.
    let mut key = Key::new("bacd", "abcd").unwrap();
    assert_eq!(improve(&breaker, &cipher, &mut key, best), None);
    assert_eq!(key.key(), "bacd");
    assert_eq!(improve(&breaker, &cipher, &mut key, best - 1), Some(best));
    assert_eq!(key.key(), swapped("bacd", i, j));

    // A tie is not a step: no exchange changes the fitness of this text.
    let flat = Cipher::new(&breaker, "zzzzzz");
    let mut key = Key::new("abcd", "abcd").unwrap();
    let current = score(&breaker, &flat, &key);
    assert_eq!(improve(&breaker, &flat, &mut key, current), None);
    assert_eq!(key.key(), "abcd");

    // A key of one letter has no neighbour.
    let single = Breaker::new("a", 1, "", vec![1u32; TABLE_SIZE]).ok().unwrap();
    let cipher = Cipher::new(&single, "aaaaa");
    let mut key = Key::new("a", "a").unwrap();
    let current = score(&single, &cipher, &key);
    assert_eq!(improve(&single, &cipher, &mut key, current), None);
}

#[test]
fn climb_ends_in_a_local_optimum() {
    let breaker = small_model();
    let text = "abcdabcdabcd dabc";
    let cipher = Cipher::new(&breaker, text);
    for start in ["abcd", "bacd", "dcba", "cadb"] {
        let mut key = Key::new(start, "abcd").unwrap();
        let before = score(&breaker, &cipher, &key);
        let (fitness, tried) = climb(&breaker, &cipher, &mut key);
        assert_eq!(fitness, score(&breaker, &cipher, &key));
        assert!(fitness >= before);
        assert!(is_local_optimum(&breaker, &key.key(), text));
        assert!(is_permutation(&key.key(), "abcd"));
        // The start key, and six neighbours for each step.
        assert!(tried >= 7);
        assert_eq!((tried - 1) % 6, 0);
    }
}

#[test]
fn climb_follows_the_best_exchange_of_each_step() {
    let breaker = small_model();
    let text = "abcdabcdabcd dabc";
    let cipher = Cipher::new(&breaker, text);
    let mut expected = "cadb".to_string();
    let mut steps = 1;
    loop {
        let (i, j, best) = best_exchange(&breaker, &expected, text);
        if best <= fitness_under(&breaker, &expected, text) {
            break;
        }
        expected = swapped(&expected, i, j);
        steps += 1;
    }
    let mut key = Key::new("cadb", "abcd").unwrap();
    let (fitness, tried) = climb(&breaker, &cipher, &mut key);
    assert_eq!(key.key(), expected);
    assert_eq!(fitness, fitness_under(&breaker, &expected, text));
    assert_eq!(tried, 1 + steps * 6);
}

#[test]
fn no_round_finds_no_key() {
    let breaker = small_model();
    let result = KeySearchEngine::run(&breaker, "dcba dcba", 0, None, 1);
    assert_eq!(result.nbr_rounds, 0);
    assert_eq!(result.nbr_keys, 0);
    assert_eq!(result.key, "");
    assert_eq!(result.plaintext, "");
    assert_eq!(result.fitness, 0);
    assert_eq!(result.keys_per_second, 0);
    assert_eq!(result.ciphertext, "dcba dcba");
    assert_eq!(result.alphabet, "abcd");
    assert_eq!(result.to_string(), "key = ");

    let result = KeySearchEngine::run(&breaker, "dcba dcba", -5, None, 1);
    assert_eq!(result.nbr_rounds, 0);
    assert_eq!(result.nbr_keys, 0);
}

#[test]
fn no_time_allows_no_round() {
    let breaker = small_model();
    let result = KeySearchEngine::run(&breaker, "dcba dcba", 100, Some(0), 1);
    assert_eq!(result.nbr_rounds, 0);
    assert_eq!(result.nbr_keys, 0);
    assert_eq!(result.key, "");
}

#[test]
fn time_budget_ends_a_search() {
    let breaker = model(CORPUS, LATIN);
    let result = KeySearchEngine::run(&breaker, SECRET, i32::MAX, Some(200), 3);
    assert!(result.nbr_rounds >= 1);
    assert!(result.milliseconds >= 200);
    assert_eq!(
        result.keys_per_second,
        result.nbr_keys as u64 * 1000 / result.milliseconds
    );
}

#[test]
fn rounds_are_made_as_asked_and_reported() {
    let breaker = small_model();
    let text = "Bcda bcda, cdab!";
    let result = KeySearchEngine::run(&breaker, text, 3, None, 11);
    assert_eq!(result.nbr_rounds, 3);
    assert_eq!(result.ciphertext, text);
    assert_eq!(result.alphabet, "abcd");
    assert!(is_permutation(&result.key, "abcd"));
    let mut key = Key::new(&result.key, "abcd").unwrap();
    assert_eq!(result.plaintext, key.decode(text));
    assert_eq!(result.fitness, breaker.fitness(&result.plaintext));
    assert!(is_local_optimum(&breaker, &result.key, text));
    // Each round scores its start key and six neighbours for each step.
    assert!(result.nbr_keys >= 3 * 7);
    assert_eq!((result.nbr_keys - 3) % 6, 0);
    assert_eq!(result.to_string(), format!("key = {}", result.key));
}

#[test]
fn same_seed_gives_the_same_search() {
    let breaker = small_model();
    let text = "Bcda bcda, cdab! dabc";
    let first = KeySearchEngine::run(&breaker, text, 4, None, 99);
    let again = KeySearchEngine::run(&breaker, text, 4, None, 99);
    assert_eq!(first.key, again.key);
    assert_eq!(first.plaintext, again.plaintext);
    assert_eq!(first.fitness, again.fitness);
    assert_eq!(first.nbr_keys, again.nbr_keys);
    assert_eq!(first.nbr_rounds, again.nbr_rounds);
}

#[test]
fn first_round_climbs_from_the_shuffled_alphabet() {
    let breaker = small_model();
    let text = "Bcda bcda, cdab! dabc";
    // The start key of the first round with the seed 42.
    let mut key = Key::new("adcb", "abcd").unwrap();
    let (fitness, tried) = climb(&breaker, &Cipher::new(&breaker, text), &mut key);
    let result = KeySearchEngine::run(&breaker, text, 1, None, 42);
    assert_eq!(result.key, key.key());
    assert_eq!(result.fitness, fitness);
    assert_eq!(result.nbr_keys, tried);
    assert_eq!(result.nbr_rounds, 1);
}

#[test]
fn engine_goes_round_by_round() {
    let breaker = small_model();
    let text = "Bcda bcda, cdab! dabc";
    let mut engine = KeySearchEngine::new(&breaker, text, 42);
    assert!(engine.wants_round(2, 0, None));
    assert!(engine.wants_round(2, 10, Some(11)));
    assert!(!engine.wants_round(2, 11, Some(11)));
    assert!(!engine.wants_round(0, 0, None));
    assert_eq!(engine.rounds(), 0);
    assert_eq!(engine.keys(), 0);
    let empty = engine.finish(5);
    assert_eq!(empty.nbr_rounds, 0);
    assert_eq!(empty.key, "");
    assert_eq!(empty.milliseconds, 5);

    engine.round();
    let one = engine.finish(10);
    assert_eq!(one.nbr_rounds, 1);
    assert_eq!(engine.rounds(), 1);
    assert_eq!(engine.keys(), one.nbr_keys);
    assert_eq!(one.milliseconds, 10);
    assert_eq!(one.keys_per_second, one.nbr_keys as u64 * 100);
    assert!(engine.wants_round(2, 0, None));

    engine.round();
    let two = engine.finish(0);
    assert_eq!(two.nbr_rounds, 2);
    assert!(two.fitness >= one.fitness);
    assert!(two.nbr_keys > one.nbr_keys);
    assert_eq!(two.keys_per_second, 0);
    assert!(!engine.wants_round(2, 0, None));

    let whole = KeySearchEngine::run(&breaker, text, 2, None, 42);
    assert_eq!(whole.key, two.key);
    assert_eq!(whole.fitness, two.fitness);
    assert_eq!(whole.nbr_keys, two.nbr_keys);
}

#[test]
fn search_recovers_a_key_as_fit_as_the_true_one() {
    let breaker = model(CORPUS, LATIN);
    let mut secret = Key::new("qwertyuiopasdfghjklzxcvbnm", LATIN).unwrap();
    let ciphertext = secret.encode(SECRET);
    assert_ne!(ciphertext, SECRET);
    let true_fitness = breaker.fitness(SECRET);
    assert!(true_fitness > 0);

    let result = KeySearchEngine::run(&breaker, &ciphertext, 10, None, 2);
    assert_eq!(result.nbr_rounds, 10);
    assert!(result.fitness * 100 >= true_fitness * 95);
    assert!(is_permutation(&result.key, LATIN));
    let mut found = Key::new(&result.key, LATIN).unwrap();
    assert_eq!(result.plaintext, found.decode(&ciphertext));
    assert_eq!(result.fitness, breaker.fitness(&result.plaintext));
    // Most of the text is read as it was written.
    let same = result.plaintext.chars().zip(SECRET.chars()).filter(|(a, b)| a == b).count();
    assert!(same * 10 >= SECRET.chars().count() * 8);
}

#[test]
fn scores_grow_with_counts() {
    let counts = Breaker::generate_quadgrams(CORPUS, LATIN).ok().unwrap();
    let breaker = model(CORPUS, LATIN);
    let seen: Vec<(usize, u32)> = counts
        .counts()
        .iter()
        .zip(breaker.quadgrams().iter())
        .filter(|(&count, _)| count > 0)
        .map(|(&count, &score)| (count, score))
        .collect();
    assert_eq!(seen.iter().map(|&(count, _)| count).sum::<usize>(), counts.total());
    for &(count, score) in &seen {
        assert!(score > 0);
        for &(other_count, other_score) in &seen {
            if count > other_count {
                assert!(score >= other_score);
            }
            if count == other_count {
                assert_eq!(score, other_score);
            }
        }
    }
    // Quadgrams that the corpus lacks score nothing.
    assert!(counts
        .counts()
        .iter()
        .zip(breaker.quadgrams().iter())
        .all(|(&count, &score)| count > 0 || score == 0));
    // The mean score of the quadgrams of the corpus is 1000.
    let mean = seen.iter().map(|&(count, score)| count as f64 * score as f64).sum::<f64>()
        / counts.total() as f64;
    assert!((mean - 1000.0).abs() < 1.0);
    assert_eq!(breaker.info().nbr_quadgrams, CORPUS.chars().count() - 3);
}

#[test]
fn milliseconds_stop_at_the_largest_number() {
    assert_eq!(capped_millis(0), 0);
    assert_eq!(capped_millis(1234), 1234);
    assert_eq!(capped_millis(u64::MAX as u128), u64::MAX);
    assert_eq!(capped_millis(u64::MAX as u128 + 1), u64::MAX);
    assert_eq!(capped_millis(u128::MAX), u64::MAX);
}

#[test]
fn first_round_is_made_where_both_budgets_allow_one() {
    let breaker = small_model();
    let result = KeySearchEngine::run(&breaker, "dcba dcba", 1, Some(1), 5);
    assert_eq!(result.nbr_rounds, 1);
    assert!(result.nbr_keys >= 7);
    let result = KeySearchEngine::run(&breaker, "dcba dcba", 3, Some(u64::MAX), 5);
    assert_eq!(result.nbr_rounds, 3);
}
