//! A key that is given with or without its alphabet, and is measured in
//! grapheme clusters: what a reader sees as one character counts as one,
//! however many code points it is written with.

use crate::alphabet::{
    check_permutation, find, has_duplicates, is_permutation, lemma_position_found,
    lemma_position_unique, position, substitute,
};
use crate::error::{AlphabetError, Error, KeyError};
use crate::key::{
    alphabet_error, in_lower_case, is_lower_case, key_error, lemma_mirrored_round_trip,
    lemma_permutation_lower_case, loses_case, mirrored,
};
use crate::text::{
    count_graphemes, grapheme_count, lowercase, lowercase_of, to_chars, to_text, upper_text,
};
use crate::traits::{is_upper_letter, lemma_lower_of, lemma_upper_of, lower_of, upper_of, CharTrait};
use vstd::prelude::*;

verus! {

/// The alphabet of a key that is given without one.
pub open spec fn default_alphabet() -> Seq<char> {
    "abcdefghijklmnopqrstuvwxyz"@
}

/// What is wrong with a key and an alphabet that were lowered and of which
/// the lengths in grapheme clusters are given: lengths that differ, then an
/// alphabet with a duplicate or an upper-case letter, then a key that is no
/// permutation of it.
pub open spec fn measured_error(
    key: Seq<char>,
    alphabet: Seq<char>,
    key_length: nat,
    alphabet_length: nat,
) -> Option<Error> {
    if key_length != alphabet_length {
        Some(Error::Key(KeyError::Length))
    } else if alphabet_error(alphabet) is Some {
        alphabet_error(alphabet)
    } else {
        key_error(key, alphabet)
    }
}

/// The substitute of `c` that keeps its case: a character that is no
/// upper-case letter is substituted as it is; an upper-case letter is
/// lowered, substituted, and raised again, and stays as it is where its
/// lower case is not in `from`.
pub open spec fn ciphered(from: Seq<char>, to: Seq<char>, c: char) -> char
    recommends
        from.len() == to.len(),
{
    if !is_upper_letter(c) {
        substitute(from, to, c)
    } else if from.contains(lower_of(c)) {
        upper_of(to[position(from, lower_of(c))])
    } else {
        c
    }
}

/// `text` with each character substituted so that it keeps its case.
pub open spec fn ciphered_text(from: Seq<char>, to: Seq<char>, text: Seq<char>) -> Seq<char>
    recommends
        from.len() == to.len(),
{
    Seq::new(text.len(), |i: int| ciphered(from, to, text[i]))
}

/// A key together with the alphabet that it permutes.
pub struct Key {
    key: Vec<char>,
    alphabet: Vec<char>,
}

impl Key {
    /// The key, in lower case.
    pub closed spec fn key_chars(&self) -> Seq<char> {
        self.key@
    }

    /// The alphabet, in lower case.
    pub closed spec fn alphabet_chars(&self) -> Seq<char> {
        self.alphabet@
    }

    /// The key is a permutation of an alphabet without duplicates, both in lower case.
    pub closed spec fn wf(&self) -> bool {
        &&& self.alphabet@.no_duplicates()
        &&& is_lower_case(self.alphabet@)
        &&& is_permutation(self.key@, self.alphabet@)
    }

    /// What holds of every key.
    pub proof fn lemma_wf(&self)
        requires
            self.wf(),
        ensures
            self.alphabet_chars().no_duplicates(),
            is_lower_case(self.alphabet_chars()),
            is_permutation(self.key_chars(), self.alphabet_chars()),
    {
    }

    /// Makes a key for the alphabet `a` to `z`. The key is taken in lower
    /// case. It must have 26 grapheme clusters and be a permutation of the
    /// alphabet.
    pub fn new(key: &str) -> (made: Result<Key, Error>)
        ensures
            match made {
                Ok(k) => {
                    &&& k.wf()
                    &&& k.key_chars() == lowercase_of(key@)
                    &&& k.alphabet_chars() == default_alphabet()
                    &&& measured_error(
                        lowercase_of(key@),
                        default_alphabet(),
                        grapheme_count(key@),
                        26,
                    ) is None
                },
                Err(e) => measured_error(
                    lowercase_of(key@),
                    default_alphabet(),
                    grapheme_count(key@),
                    26,
                ) == Some(e),
            },
    {
        Self::with_lengths(
            lowercase(key).as_str(),
            "abcdefghijklmnopqrstuvwxyz",
            count_graphemes(key),
            26,
        )
    }

    /// Makes a key for an alphabet. Both are taken in lower case. They must
    /// have the same number of grapheme clusters, the alphabet must not hold
    /// a character twice, and the key must be a permutation of it.
    pub fn new_with_alphabet(key: &str, alphabet: &str) -> (made: Result<Key, Error>)
        ensures
            match made {
                Ok(k) => {
                    &&& k.wf()
                    &&& k.key_chars() == lowercase_of(key@)
                    &&& k.alphabet_chars() == lowercase_of(alphabet@)
                    &&& measured_error(
                        lowercase_of(key@),
                        lowercase_of(alphabet@),
                        grapheme_count(key@),
                        grapheme_count(alphabet@),
                    ) is None
                },
                Err(e) => measured_error(
                    lowercase_of(key@),
                    lowercase_of(alphabet@),
                    grapheme_count(key@),
                    grapheme_count(alphabet@),
                ) == Some(e),
            },
    {
        Self::with_lengths(
            lowercase(key).as_str(),
            lowercase(alphabet).as_str(),
            count_graphemes(key),
            count_graphemes(alphabet),
        )
    }

    /// Makes a key for an alphabet, both of which were lowered before and
    /// of which the lengths are known.
    pub fn with_lengths(
        key: &str,
        alphabet: &str,
        key_length: usize,
        alphabet_length: usize,
    ) -> (made: Result<Key, Error>)
        ensures
            match made {
                Ok(k) => {
                    &&& k.wf()
                    &&& k.key_chars() == key@
                    &&& k.alphabet_chars() == alphabet@
                    &&& measured_error(key@, alphabet@, key_length as nat, alphabet_length as nat)
                        is None
                },
                Err(e) => measured_error(
                    key@,
                    alphabet@,
                    key_length as nat,
                    alphabet_length as nat,
                ) == Some(e),
            },
    {
        if key_length != alphabet_length {
            return Err(Error::Key(KeyError::Length));
        }
        let alphabet_chars = to_chars(alphabet);
        if has_duplicates(&alphabet_chars) {
            return Err(Error::Alphabet(AlphabetError::Duplicate));
        }
        if !in_lower_case(&alphabet_chars) {
            return Err(Error::Alphabet(AlphabetError::Case));
        }
        let key_chars = to_chars(key);
        if has_duplicates(&key_chars) {
            return Err(Error::Key(KeyError::Duplicate));
        }
        if key_chars.len() != alphabet_chars.len() {
            return Err(Error::Key(KeyError::Length));
        }
        if !check_permutation(&key_chars, &alphabet_chars) {
            return Err(Error::Key(KeyError::Charset));
        }
        Ok(Key { key: key_chars, alphabet: alphabet_chars })
    }

    /// The key, in lower case.
    pub fn key(&self) -> (key: String)
        ensures
            key@ == self.key_chars(),
    {
        to_text(&self.key)
    }

    /// The alphabet, in lower case.
    pub fn alphabet(&self) -> (alphabet: String)
        ensures
            alphabet@ == self.alphabet_chars(),
    {
        to_text(&self.alphabet)
    }

    /// Encodes a plaintext with the key. Leaves the key as it is.
    pub fn encode(&mut self, text: &str) -> (ciphertext: String)
        requires
            old(self).wf(),
        ensures
            final(self).wf(),
            final(self).key_chars() == old(self).key_chars(),
            final(self).alphabet_chars() == old(self).alphabet_chars(),
            ciphertext@ == ciphered_text(old(self).alphabet_chars(), old(self).key_chars(), text@),
    {
        Self::ciphers(&self.alphabet, &self.key, text)
    }

    /// Decodes a ciphertext with the key. Leaves the key as it is.
    pub fn decode(&mut self, text: &str) -> (plaintext: String)
        requires
            old(self).wf(),
        ensures
            final(self).wf(),
            final(self).key_chars() == old(self).key_chars(),
            final(self).alphabet_chars() == old(self).alphabet_chars(),
            plaintext@ == ciphered_text(old(self).key_chars(), old(self).alphabet_chars(), text@),
    {
        Self::ciphers(&self.key, &self.alphabet, text)
    }

    /// Substitutes each character of `text` by the character of `to` that
    /// stands where the character stands in `from`, so that upper-case
    /// letters stay upper-case letters.
    pub fn ciphers(from: &Vec<char>, to: &Vec<char>, text: &str) -> (out: String)
        requires
            from.len() == to.len(),
        ensures
            out@ == ciphered_text(from@, to@, text@),
    {
        let mut out = String::new();
        for c in it: text.chars()
            invariant
                it.seq() == text@,
                from.len() == to.len(),
                out@ == ciphered_text(from@, to@, text@).take(it.index() as int),
        {
            out.push(cipher_char(from, to, c));
        }
        out
    }
}

/// The substitute of one character, with its case kept.
fn cipher_char(from: &Vec<char>, to: &Vec<char>, c: char) -> (out: char)
    requires
        from.len() == to.len(),
    ensures
        out == ciphered(from@, to@, c),
{
    let lower = c.to_lower_case();
    proof {
        lemma_lower_of(c);
    }
    match find(from, lower) {
        Some(i) => {
            proof {
                lemma_position_found(from@, lower);
            }
            if lower == c {
                to[i]
            } else {
                to[i].to_upper_case()
            }
        },
        None => c,
    }
}

/// The letters `a` to `z` are an alphabet: in lower case and without duplicates.
pub proof fn lemma_default_alphabet()
    ensures
        default_alphabet().len() == 26,
        default_alphabet().no_duplicates(),
        is_lower_case(default_alphabet()),
{
    reveal_strlit("abcdefghijklmnopqrstuvwxyz");
    let a = default_alphabet();
    assert forall|i: int| 0 <= i < 26 implies a[i] as int == 97 + i by {}
}

/// On the tables of a key, substituting with the case kept is substituting
/// through a table and its upper-case mirror.
pub proof fn lemma_ciphered_is_mirrored(from: Seq<char>, to: Seq<char>, c: char)
    requires
        from.len() == to.len(),
        from.no_duplicates(),
        is_lower_case(from),
    ensures
        ciphered(from, to, c) == mirrored(from, to, c),
{
    let upper = upper_text(from);
    lemma_lower_of(c);
    if from.contains(c) {
        lemma_position_found(from, c);
    } else if upper.contains(c) {
        lemma_position_found(upper, c);
        let i = position(upper, c);
        lemma_upper_of(from[i]);
        lemma_position_unique(from, i);
    } else {
        if is_upper_letter(c) && from.contains(lower_of(c)) {
            lemma_position_found(from, lower_of(c));
            let i = position(from, lower_of(c));
            assert(upper[i] == c);
        }
    }
}

/// Decoding what was encoded gives the text back: for every valid key and
/// every text in which no character loses its case on the way forth.
pub proof fn lemma_decode_encode(k: Key, text: Seq<char>)
    requires
        k.wf(),
        forall|i: int|
            0 <= i < text.len() ==> !loses_case(k.alphabet_chars(), k.key_chars(), #[trigger] text[i]),
    ensures
        ciphered_text(
            k.key_chars(),
            k.alphabet_chars(),
            ciphered_text(k.alphabet_chars(), k.key_chars(), text),
        ) == text,
{
    let alphabet = k.alphabet_chars();
    let key = k.key_chars();
    let there = ciphered_text(alphabet, key, text);
    lemma_permutation_lower_case(key, alphabet);
    assert forall|i: int| 0 <= i < text.len() implies ciphered_text(key, alphabet, there)[i]
        == text[i] by {
        lemma_ciphered_is_mirrored(alphabet, key, text[i]);
        lemma_ciphered_is_mirrored(key, alphabet, there[i]);
        lemma_mirrored_round_trip(alphabet, key, text[i]);
    }
}

} // verus!
