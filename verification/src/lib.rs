//! Breaking substitution ciphers: keys that encode and decode, a quadgram
//! model of a language, and the search for the key under which a ciphertext
//! reads most like the language.

use vstd::prelude::*;

pub mod alphabet;
pub mod breaker;
pub mod breaker_structs;
pub mod climb;
pub mod error;
pub mod key;
pub mod key_struct;
pub mod quadgram;
pub mod random;
pub mod search;
pub mod text;
pub mod traits;

use crate::alphabet::{
    check_permutation, has_duplicates, is_permutation, lemma_substitute_round_trip,
    substitute_char, transcode,
};
use crate::error::{AlphabetError, Error, KeyError};
use crate::key::key_error;
use crate::key_struct::default_alphabet;
use crate::text::{count_graphemes, grapheme_count, to_chars, to_text};

verus! {

/// What is wrong with a key and an alphabet as they are given, of which the
/// lengths in grapheme clusters are known: lengths that differ, then an
/// alphabet with a duplicate, then a key that is no permutation of it.
pub open spec fn plain_error(
    key: Seq<char>,
    alphabet: Seq<char>,
    key_length: nat,
    alphabet_length: nat,
) -> Option<Error> {
    if key_length != alphabet_length {
        Some(Error::Key(KeyError::Length))
    } else if !alphabet.no_duplicates() {
        Some(Error::Alphabet(AlphabetError::Duplicate))
    } else {
        key_error(key, alphabet)
    }
}

/// A key that substitutes exactly the characters of its alphabet: no case
/// is folded, so a key for `a` to `z` leaves `A` to `Z` as they are.
pub struct Key {
    key: Vec<char>,
    alphabet: Vec<char>,
}

impl Key {
    /// The key as it was given.
    pub closed spec fn key_chars(&self) -> Seq<char> {
        self.key@
    }

    /// The alphabet as it was given.
    pub closed spec fn alphabet_chars(&self) -> Seq<char> {
        self.alphabet@
    }

    /// The key is a permutation of an alphabet without duplicates.
    pub closed spec fn wf(&self) -> bool {
        &&& self.alphabet@.no_duplicates()
        &&& is_permutation(self.key@, self.alphabet@)
    }

    /// What holds of every key.
    pub proof fn lemma_wf(&self)
        requires
            self.wf(),
        ensures
            self.alphabet_chars().no_duplicates(),
            is_permutation(self.key_chars(), self.alphabet_chars()),
    {
    }

    /// The ciphertext of a plaintext.
    pub open spec fn encode_text(&self, text: Seq<char>) -> Seq<char> {
        transcode(self.alphabet_chars(), self.key_chars(), text)
    }

    /// The plaintext of a ciphertext.
    pub open spec fn decode_text(&self, text: Seq<char>) -> Seq<char> {
        transcode(self.key_chars(), self.alphabet_chars(), text)
    }

    /// Makes a key for the alphabet `a` to `z`. The key must have 26
    /// grapheme clusters and be a permutation of the alphabet.
    pub fn new(key: &str) -> (made: Result<Key, Error>)
        ensures
            match made {
                Ok(k) => {
                    &&& k.wf()
                    &&& k.key_chars() == key@
                    &&& k.alphabet_chars() == default_alphabet()
                    &&& plain_error(key@, default_alphabet(), grapheme_count(key@), 26) is None
                },
                Err(e) => plain_error(key@, default_alphabet(), grapheme_count(key@), 26)
                    == Some(e),
            },
    {
        Self::with_lengths(key, "abcdefghijklmnopqrstuvwxyz", count_graphemes(key), 26)
    }

    /// Makes a key for an alphabet. They must have the same number of
    /// grapheme clusters, the alphabet must not hold a character twice, and
    /// the key must be a permutation of it.
    pub fn new_with_alphabet(key: &str, alphabet: &str) -> (made: Result<Key, Error>)
        ensures
            match made {
                Ok(k) => {
                    &&& k.wf()
                    &&& k.key_chars() == key@
                    &&& k.alphabet_chars() == alphabet@
                    &&& plain_error(
                        key@,
                        alphabet@,
                        grapheme_count(key@),
                        grapheme_count(alphabet@),
                    ) is None
                },
                Err(e) => plain_error(
                    key@,
                    alphabet@,
                    grapheme_count(key@),
                    grapheme_count(alphabet@),
                ) == Some(e),
            },
    {
        Self::with_lengths(key, alphabet, count_graphemes(key), count_graphemes(alphabet))
    }

    /// Makes a key for an alphabet of which the lengths are known.
    pub fn with_lengths(
        key: &str,
        alphabet: &str,
        key_length: usize,
        alphabet_length: usize,
    ) -> (made: Result<Key, Error>)
        ensures
            match made {
                Ok(k) => {
                    &&& k.wf()
                    &&& k.key_chars() == key@
                    &&& k.alphabet_chars() == alphabet@
                    &&& plain_error(key@, alphabet@, key_length as nat, alphabet_length as nat)
                        is None
                },
                Err(e) => plain_error(
                    key@,
                    alphabet@,
                    key_length as nat,
                    alphabet_length as nat,
                ) == Some(e),
            },
    {
        if key_length != alphabet_length {
            return Err(Error::Key(KeyError::Length));
        }
        let alphabet_chars = to_chars(alphabet);
        if has_duplicates(&alphabet_chars) {
            return Err(Error::Alphabet(AlphabetError::Duplicate));
        }
        let key_chars = to_chars(key);
        if has_duplicates(&key_chars) {
            return Err(Error::Key(KeyError::Duplicate));
        }
        if key_chars.len() != alphabet_chars.len() {
            return Err(Error::Key(KeyError::Length));
        }
        if !check_permutation(&key_chars, &alphabet_chars) {
            return Err(Error::Key(KeyError::Charset));
        }
        Ok(Key { key: key_chars, alphabet: alphabet_chars })
    }

    /// The key as it was given.
    pub fn key(&self) -> (key: String)
        ensures
            key@ == self.key_chars(),
    {
        to_text(&self.key)
    }

    /// The alphabet as it was given.
    pub fn alphabet(&self) -> (alphabet: String)
        ensures
            alphabet@ == self.alphabet_chars(),
    {
        to_text(&self.alphabet)
    }

    /// Encodes a plaintext: each character of the alphabet becomes the
    /// character of the key at the same place, every other character stays.
    /// Leaves the key as it is.
    pub fn encode(&mut self, text: &str) -> (ciphertext: String)
        requires
            old(self).wf(),
        ensures
            final(self).wf(),
            final(self).key_chars() == old(self).key_chars(),
            final(self).alphabet_chars() == old(self).alphabet_chars(),
            ciphertext@ == old(self).encode_text(text@),
    {
        let mut ciphertext = String::new();
        for c in it: text.chars()
            invariant
                it.seq() == text@,
                self.key.len() == self.alphabet.len(),
                ciphertext@ == self.encode_text(text@).take(it.index() as int),
        {
            ciphertext.push(substitute_char(&self.alphabet, &self.key, c));
        }
        ciphertext
    }

    /// Decodes a ciphertext: each character of the key becomes the character
    /// of the alphabet at the same place, every other character stays.
    /// Leaves the key as it is.
    pub fn decode(&mut self, text: &str) -> (plaintext: String)
        requires
            old(self).wf(),
        ensures
            final(self).wf(),
            final(self).key_chars() == old(self).key_chars(),
            final(self).alphabet_chars() == old(self).alphabet_chars(),
            plaintext@ == old(self).decode_text(text@),
    {
        let mut plaintext = String::new();
        for c in it: text.chars()
            invariant
                it.seq() == text@,
                self.key.len() == self.alphabet.len(),
                plaintext@ == self.decode_text(text@).take(it.index() as int),
        {
            plaintext.push(substitute_char(&self.key, &self.alphabet, c));
        }
        plaintext
    }
}

/// Decoding what was encoded gives every text back, and so does encoding
/// what was decoded.
pub proof fn lemma_decode_encode(k: Key, text: Seq<char>)
    requires
        k.wf(),
    ensures
        k.decode_text(k.encode_text(text)) == text,
        k.encode_text(k.decode_text(text)) == text,
{
    assert forall|i: int| 0 <= i < text.len() implies k.decode_text(k.encode_text(text))[i]
        == text[i] && k.encode_text(k.decode_text(text))[i] == text[i] by {
        lemma_substitute_round_trip(k.alphabet_chars(), k.key_chars(), text[i]);
    }
}

} // verus!
