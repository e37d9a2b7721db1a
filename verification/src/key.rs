//! A key and an alphabet for transcoding substitution ciphers.
//!
//! The first character of the alphabet corresponds to the first character of
//! the key, the second to the second, and so on. The alphabet can consist of
//! any characters and may have any length. A key is valid only as a
//! permutation of its alphabet.
//!
//! With the alphabet `abcdefghijklmnopqrstuvwxyz` and the key
//! `zebrascdfghijklmnopqtuvwxy` the letter `a` of a plaintext becomes `z`,
//! `b` becomes `e`, and `flee at once. we are discovered!` is enciphered as
//! `siaa zq lkba. va zoa rfpbluaoar!`.

use crate::alphabet::{
    all_found, find, has_duplicates, is_permutation, lemma_position_found, lemma_position_unique,
    lemma_swapped_permutation, position, same_characters, swap, swapped,
};
use crate::error::{AlphabetError, Error, KeyError};
use crate::text::{lowercase, lowercase_of, to_chars, to_text, to_upper, upper_text};
use crate::traits::{
    is_lower_letter, is_upper_letter, lemma_lower_of, lemma_upper_of, lemma_upper_of_injective,
    upper_of, CharTrait,
};
use vstd::pervasive::unreached;
use vstd::prelude::*;

verus! {

/// No character of `s` is an upper-case letter.
pub open spec fn is_lower_case(s: Seq<char>) -> bool {
    forall|i: int| 0 <= i < s.len() ==> !is_upper_letter(#[trigger] s[i])
}

/// The substitute of `c` in a table and its upper-case mirror: a character
/// of `from` becomes the character of `to` at the same place, the upper case
/// of a character of `from` becomes the upper case of that character of
/// `to`, and every other character stays. Where both apply, the first does.
pub open spec fn mirrored(from: Seq<char>, to: Seq<char>, c: char) -> char
    recommends
        from.len() == to.len(),
{
    if from.contains(c) {
        to[position(from, c)]
    } else if upper_text(from).contains(c) {
        upper_of(to[position(upper_text(from), c)])
    } else {
        c
    }
}

/// `text` with each character substituted through the mirrored table.
pub open spec fn mirrored_text(from: Seq<char>, to: Seq<char>, text: Seq<char>) -> Seq<char>
    recommends
        from.len() == to.len(),
{
    Seq::new(text.len(), |i: int| mirrored(from, to, text[i]))
}

/// What is wrong with an alphabet that was lowered, if anything: a
/// character that stands twice, then an upper-case letter that is left.
pub open spec fn alphabet_error(alphabet: Seq<char>) -> Option<Error> {
    if !alphabet.no_duplicates() {
        Some(Error::Alphabet(AlphabetError::Duplicate))
    } else if !is_lower_case(alphabet) {
        Some(Error::Alphabet(AlphabetError::Case))
    } else {
        None
    }
}

/// What is wrong with a key and an alphabet that were lowered, if anything:
/// first with the alphabet, then with the key.
pub open spec fn lowered_error(key: Seq<char>, alphabet: Seq<char>) -> Option<Error> {
    if alphabet_error(alphabet) is Some {
        alphabet_error(alphabet)
    } else {
        key_error(key, alphabet)
    }
}

/// What is wrong with a key in lower case for an alphabet, if anything: a
/// character that stands twice, then a wrong length, then a foreign character.
pub open spec fn key_error(key: Seq<char>, alphabet: Seq<char>) -> Option<Error> {
    if !key.no_duplicates() {
        Some(Error::Key(KeyError::Duplicate))
    } else if key.len() != alphabet.len() {
        Some(Error::Key(KeyError::Length))
    } else if !same_characters(key, alphabet) {
        Some(Error::Key(KeyError::Charset))
    } else {
        None
    }
}

/// A key that passes [`key_error`] is a permutation of the alphabet, and no other is.
pub proof fn lemma_key_error(key: Seq<char>, alphabet: Seq<char>)
    ensures
        key_error(key, alphabet) is None <==> is_permutation(key, alphabet),
{
}

/// A key together with the alphabet that it permutes.
pub struct Key {
    key: Vec<char>,
    alphabet: Vec<char>,
    upper_key: Vec<char>,
    upper_alphabet: Vec<char>,
}

impl Key {
    /// The key, in lower case.
    pub closed spec fn key_chars(&self) -> Seq<char> {
        self.key@
    }

    /// The alphabet, in lower case.
    pub closed spec fn alphabet_chars(&self) -> Seq<char> {
        self.alphabet@
    }

    /// The key is a permutation of an alphabet without duplicates, both in
    /// lower case, and the upper-case tables mirror them.
    pub closed spec fn wf(&self) -> bool {
        &&& self.alphabet@.no_duplicates()
        &&& is_lower_case(self.alphabet@)
        &&& is_permutation(self.key@, self.alphabet@)
        &&& self.upper_key@ == upper_text(self.key@)
        &&& self.upper_alphabet@ == upper_text(self.alphabet@)
    }

    /// What holds of every key.
    pub proof fn lemma_wf(&self)
        requires
            self.wf(),
        ensures
            self.alphabet_chars().no_duplicates(),
            is_lower_case(self.alphabet_chars()),
            is_permutation(self.key_chars(), self.alphabet_chars()),
    {
    }

    /// The ciphertext of a plaintext.
    pub open spec fn encode_text(&self, text: Seq<char>) -> Seq<char> {
        mirrored_text(self.alphabet_chars(), self.key_chars(), text)
    }

    /// The plaintext of a ciphertext.
    pub open spec fn decode_text(&self, text: Seq<char>) -> Seq<char> {
        mirrored_text(self.key_chars(), self.alphabet_chars(), text)
    }

    /// Makes the key for an alphabet. Both are taken in lower case. Fails
    /// where the alphabet holds a character twice, and where the key is no
    /// permutation of the alphabet.
    pub fn new(key: &str, alphabet: &str) -> (made: Result<Self, Error>)
        ensures
            match made {
                Ok(k) => {
                    &&& k.wf()
                    &&& k.key_chars() == lowercase_of(key@)
                    &&& k.alphabet_chars() == lowercase_of(alphabet@)
                    &&& lowered_error(lowercase_of(key@), lowercase_of(alphabet@)) is None
                },
                Err(e) => lowered_error(lowercase_of(key@), lowercase_of(alphabet@)) == Some(e),
            },
            alphabet_error(lowercase_of(alphabet@)) is None && !is_permutation(
                lowercase_of(key@),
                lowercase_of(alphabet@),
            ) ==> made matches Err(Error::Key(_)),
    {
        Self::new_lowered(lowercase(key).as_str(), lowercase(alphabet).as_str())
    }

    /// Makes the key for an alphabet, both of which were lowered before.
    /// Fails where the alphabet holds a character twice or an upper-case
    /// letter, and where the key is no permutation of the alphabet.
    pub fn new_lowered(key: &str, alphabet: &str) -> (made: Result<Self, Error>)
        ensures
            match made {
                Ok(k) => {
                    &&& k.wf()
                    &&& k.key_chars() == key@
                    &&& k.alphabet_chars() == alphabet@
                    &&& lowered_error(key@, alphabet@) is None
                },
                Err(e) => lowered_error(key@, alphabet@) == Some(e),
            },
            alphabet_error(alphabet@) is None && !is_permutation(key@, alphabet@)
                ==> made matches Err(Error::Key(_)),
    {
        let alphabet = match Self::checked_alphabet(alphabet) {
            Ok(a) => a,
            Err(e) => {
                return Err(e);
            },
        };
        let key = match Self::checked_key(key, alphabet.as_str()) {
            Ok(k) => k,
            Err(e) => {
                return Err(e);
            },
        };
        Ok(Self::assemble(to_chars(key.as_str()), to_chars(alphabet.as_str())))
    }

    /// The key made of a permutation and its alphabet, with its upper-case tables.
    pub(crate) fn assemble(key: Vec<char>, alphabet: Vec<char>) -> (made: Self)
        requires
            alphabet@.no_duplicates(),
            is_lower_case(alphabet@),
            is_permutation(key@, alphabet@),
        ensures
            made.wf(),
            made.key_chars() == key@,
            made.alphabet_chars() == alphabet@,
    {
        let upper_key = to_upper(&key);
        let upper_alphabet = to_upper(&alphabet);
        Self { key, alphabet, upper_key, upper_alphabet }
    }

    /// The number of characters of the key, which is that of the alphabet.
    pub fn len(&self) -> (len: usize)
        requires
            self.wf(),
        ensures
            len == self.key_chars().len(),
            len == self.alphabet_chars().len(),
    {
        self.key.len()
    }

    /// Exchanges the characters at `i` and `j` of the key.
    pub fn swap(&mut self, i: usize, j: usize)
        requires
            old(self).wf(),
            i < old(self).key_chars().len(),
            j < old(self).key_chars().len(),
        ensures
            final(self).wf(),
            final(self).key_chars() == swapped(old(self).key_chars(), i as int, j as int),
            final(self).alphabet_chars() == old(self).alphabet_chars(),
    {
        proof {
            lemma_swapped_permutation(self.key@, self.alphabet@, i as int, j as int);
        }
        swap(&mut self.key, i, j);
        swap(&mut self.upper_key, i, j);
        assert(self.upper_key@ =~= upper_text(self.key@));
    }

    /// For each place of the alphabet, the place at which its character
    /// stands in the key.
    pub fn inverse(&self) -> (places: Vec<usize>)
        requires
            self.wf(),
        ensures
            places.len() == self.alphabet_chars().len(),
            forall|q: int|
                0 <= q < places.len() ==> #[trigger] places[q] as int == position(
                    self.key_chars(),
                    self.alphabet_chars()[q],
                ),
            forall|q: int| 0 <= q < places.len() ==> #[trigger] places[q] < places.len(),
    {
        let mut places: Vec<usize> = Vec::new();
        let mut q: usize = 0;
        while q < self.alphabet.len()
            invariant
                q <= self.alphabet.len(),
                self.wf(),
                places.len() == q,
                forall|p: int|
                    0 <= p < q ==> #[trigger] places[p] as int == position(
                        self.key@,
                        self.alphabet@[p],
                    ),
                forall|p: int| 0 <= p < q ==> #[trigger] places[p] < self.alphabet.len(),
            decreases self.alphabet.len() - q,
        {
            proof {
                lemma_position_found(self.key@, self.alphabet@[q as int]);
            }
            match find(&self.key, self.alphabet[q]) {
                Some(i) => places.push(i),
                None => unreached(),
            }
            q += 1;
        }
        places
    }

    /// The plaintext of a ciphertext, character by character.
    pub fn decode_chars(&self, ciphertext: &Vec<char>) -> (plaintext: Vec<char>)
        requires
            self.wf(),
        ensures
            plaintext@ == self.decode_text(ciphertext@),
    {
        let mut plaintext: Vec<char> = Vec::new();
        let mut i: usize = 0;
        while i < ciphertext.len()
            invariant
                i <= ciphertext.len(),
                self.key.len() == self.alphabet.len(),
                self.upper_key@ == upper_text(self.key@),
                self.upper_alphabet@ == upper_text(self.alphabet@),
                plaintext@ == self.decode_text(ciphertext@).take(i as int),
            decreases ciphertext.len() - i,
        {
            plaintext.push(
                transcode_char(
                    &self.key,
                    &self.upper_key,
                    &self.alphabet,
                    &self.upper_alphabet,
                    ciphertext[i],
                ),
            );
            i += 1;
        }
        plaintext
    }

    /// Checks that each character of an alphabet is unique, and returns the
    /// alphabet in lower case.
    pub fn check_alphabet(alphabet: &str) -> (checked: Result<String, Error>)
        ensures
            match checked {
                Ok(a) => a@ == lowercase_of(alphabet@) && alphabet_error(a@) is None,
                Err(e) => alphabet_error(lowercase_of(alphabet@)) == Some(e),
            },
    {
        Self::checked_alphabet(lowercase(alphabet).as_str())
    }

    /// Checks an alphabet that was lowered before, and returns it: each of
    /// its characters must be unique, and none may be an upper-case letter.
    pub fn checked_alphabet(alphabet: &str) -> (checked: Result<String, Error>)
        ensures
            match checked {
                Ok(a) => a@ == alphabet@ && alphabet_error(a@) is None,
                Err(e) => alphabet_error(alphabet@) == Some(e),
            },
    {
        let chars = to_chars(alphabet);
        if has_duplicates(&chars) {
            return Err(Error::Alphabet(AlphabetError::Duplicate));
        }
        if !in_lower_case(&chars) {
            return Err(Error::Alphabet(AlphabetError::Case));
        }
        Ok(to_text(&chars))
    }

    /// Checks a key against an alphabet that was checked before, and returns
    /// the key in lower case. The characters of the key must be unique, the
    /// key must be as long as the alphabet, and it must hold the same set of
    /// characters.
    pub fn check_key(key: &str, alphabet: &str) -> (checked: Result<String, Error>)
        ensures
            match checked {
                Ok(k) => k@ == lowercase_of(key@) && key_error(k@, alphabet@) is None,
                Err(e) => key_error(lowercase_of(key@), alphabet@) == Some(e),
            },
    {
        Self::checked_key(lowercase(key).as_str(), alphabet)
    }

    /// Checks a key that was lowered before against an alphabet that was
    /// checked before, and returns the key.
    pub fn checked_key(key: &str, alphabet: &str) -> (checked: Result<String, Error>)
        ensures
            match checked {
                Ok(k) => k@ == key@ && key_error(k@, alphabet@) is None,
                Err(e) => key_error(key@, alphabet@) == Some(e),
            },
    {
        let key_chars = to_chars(key);
        let alphabet_chars = to_chars(alphabet);
        if has_duplicates(&key_chars) {
            return Err(Error::Key(KeyError::Duplicate));
        }
        if key_chars.len() != alphabet_chars.len() {
            return Err(Error::Key(KeyError::Length));
        }
        let forth = all_found(&key_chars, &alphabet_chars);
        let back = all_found(&alphabet_chars, &key_chars);
        if !(forth && back) {
            return Err(Error::Key(KeyError::Charset));
        }
        Ok(to_text(&key_chars))
    }

    /// Converts a string to upper case letter by letter, so that the result
    /// is as long as the string: a character whose upper case would be more
    /// than one character, such as the German sharp s, stays as it is.
    pub fn _upper(string: &str) -> (upper: String)
        ensures
            upper@ == upper_text(string@),
    {
        to_text(&to_upper(&to_chars(string)))
    }

    /// The key, in lower case.
    pub fn key(&self) -> (key: String)
        ensures
            key@ == self.key_chars(),
    {
        to_text(&self.key)
    }

    /// The alphabet, in lower case.
    pub fn alphabet(&self) -> (alphabet: String)
        ensures
            alphabet@ == self.alphabet_chars(),
    {
        to_text(&self.alphabet)
    }

    /// Encodes a plaintext with the key into the ciphertext. Upper-case
    /// letters are encoded to upper-case letters; characters outside the
    /// alphabet stay as they are.
    pub fn encode(&mut self, plaintext: &str) -> (ciphertext: String)
        requires
            old(self).wf(),
        ensures
            final(self).wf(),
            final(self).key_chars() == old(self).key_chars(),
            final(self).alphabet_chars() == old(self).alphabet_chars(),
            ciphertext@ == old(self).encode_text(plaintext@),
    {
        let mut ciphertext = String::new();
        for c in it: plaintext.chars()
            invariant
                it.seq() == plaintext@,
                self.key.len() == self.alphabet.len(),
                self.upper_key@ == upper_text(self.key@),
                self.upper_alphabet@ == upper_text(self.alphabet@),
                ciphertext@ == self.encode_text(plaintext@).take(it.index() as int),
        {
            ciphertext.push(
                transcode_char(&self.alphabet, &self.upper_alphabet, &self.key, &self.upper_key, c),
            );
        }
        ciphertext
    }

    /// Decodes a ciphertext with the key into the plaintext, the other way
    /// round than [`Key::encode`].
    pub fn decode(&mut self, ciphertext: &str) -> (plaintext: String)
        requires
            old(self).wf(),
        ensures
            final(self).wf(),
            final(self).key_chars() == old(self).key_chars(),
            final(self).alphabet_chars() == old(self).alphabet_chars(),
            plaintext@ == old(self).decode_text(ciphertext@),
    {
        let mut plaintext = String::new();
        for c in it: ciphertext.chars()
            invariant
                it.seq() == ciphertext@,
                self.key.len() == self.alphabet.len(),
                self.upper_key@ == upper_text(self.key@),
                self.upper_alphabet@ == upper_text(self.alphabet@),
                plaintext@ == self.decode_text(ciphertext@).take(it.index() as int),
        {
            plaintext.push(
                transcode_char(&self.key, &self.upper_key, &self.alphabet, &self.upper_alphabet, c),
            );
        }
        plaintext
    }
}

/// The substitute of one character through a table and its upper-case mirror.
fn transcode_char(
    from: &Vec<char>,
    upper_from: &Vec<char>,
    to: &Vec<char>,
    upper_to: &Vec<char>,
    c: char,
) -> (out: char)
    requires
        from.len() == to.len(),
        upper_from@ == upper_text(from@),
        upper_to@ == upper_text(to@),
    ensures
        out == mirrored(from@, to@, c),
{
    match find(from, c) {
        Some(i) => {
            proof {
                lemma_position_found(from@, c);
            }
            to[i]
        },
        None => match find(upper_from, c) {
            Some(i) => {
                proof {
                    lemma_position_found(upper_from@, c);
                }
                upper_to[i]
            },
            None => c,
        },
    }
}

/// `c` is the upper case of a letter of `from` that is not itself in `from`,
/// and the character of `to` at that letter's place has no upper case of its
/// own. Such a character is substituted by a character without case, from
/// which the way back leads to the lower-case letter.
pub open spec fn loses_case(from: Seq<char>, to: Seq<char>, c: char) -> bool {
    &&& !from.contains(c)
    &&& upper_text(from).contains(c)
    &&& !is_lower_letter(to[position(upper_text(from), c)])
}

/// The upper-case mirror of a lower-case sequence without duplicates has none either.
proof fn lemma_mirror_unique(s: Seq<char>)
    requires
        s.no_duplicates(),
        is_lower_case(s),
    ensures
        upper_text(s).no_duplicates(),
{
    assert forall|i: int, j: int|
        0 <= i < s.len() && 0 <= j < s.len() && i != j implies upper_text(s)[i] != upper_text(
        s,
    )[j] by {
        if upper_of(s[i]) == upper_of(s[j]) {
            lemma_upper_of_injective(s[i], s[j]);
        }
    }
}

/// A permutation of a lower-case alphabet is in lower case.
pub proof fn lemma_permutation_lower_case(key: Seq<char>, alphabet: Seq<char>)
    requires
        is_lower_case(alphabet),
        is_permutation(key, alphabet),
    ensures
        is_lower_case(key),
{
    assert forall|i: int| 0 <= i < key.len() implies !is_upper_letter(#[trigger] key[i]) by {
        lemma_position_found(alphabet, key[i]);
    }
}

/// Substituting a character forth and back along a permutation gives it
/// back, unless the way forth loses its case.
pub proof fn lemma_mirrored_round_trip(alphabet: Seq<char>, key: Seq<char>, c: char)
    requires
        alphabet.no_duplicates(),
        is_lower_case(alphabet),
        is_permutation(key, alphabet),
    ensures
        !loses_case(alphabet, key, c) ==> mirrored(key, alphabet, mirrored(alphabet, key, c)) == c,
        loses_case(alphabet, key, c) ==> mirrored(key, alphabet, mirrored(alphabet, key, c)) != c,
{
    let upper_alphabet = upper_text(alphabet);
    let upper_key = upper_text(key);
    lemma_permutation_lower_case(key, alphabet);
    lemma_mirror_unique(key);
    if alphabet.contains(c) {
        lemma_position_found(alphabet, c);
        let i = position(alphabet, c);
        lemma_position_unique(key, i);
    } else if upper_alphabet.contains(c) {
        lemma_position_found(upper_alphabet, c);
        let i = position(upper_alphabet, c);
        let e = upper_of(key[i]);
        lemma_upper_of(key[i]);
        lemma_upper_of(alphabet[i]);
        if is_lower_letter(key[i]) {
            if key.contains(e) {
                lemma_position_found(key, e);
            }
            lemma_position_unique(upper_key, i);
        } else {
            lemma_position_unique(key, i);
        }
    } else {
        if upper_key.contains(c) {
            lemma_position_found(upper_key, c);
            let j = position(upper_key, c);
            lemma_position_found(alphabet, key[j]);
            let m = position(alphabet, key[j]);
            assert(upper_alphabet[m] == c);
        }
    }
}

/// Decoding what was encoded gives the text back: for every valid key and
/// every text in which no character loses its case on the way forth.
pub proof fn lemma_decode_encode(k: Key, text: Seq<char>)
    requires
        k.wf(),
        forall|i: int|
            0 <= i < text.len() ==> !loses_case(k.alphabet_chars(), k.key_chars(), #[trigger] text[i]),
    ensures
        k.decode_text(k.encode_text(text)) == text,
{
    assert forall|i: int| 0 <= i < text.len() implies k.decode_text(k.encode_text(text))[i]
        == text[i] by {
        lemma_mirrored_round_trip(k.alphabet_chars(), k.key_chars(), text[i]);
    }
}

/// Decoding what was encoded gives back every text that is made of the
/// characters of the alphabet.
pub proof fn lemma_decode_encode_alphabet(k: Key, text: Seq<char>)
    requires
        k.wf(),
        forall|i: int| 0 <= i < text.len() ==> k.alphabet_chars().contains(#[trigger] text[i]),
    ensures
        k.decode_text(k.encode_text(text)) == text,
{
    lemma_decode_encode(k, text);
}

/// Where the key gives every letter of the alphabet a letter, decoding what
/// was encoded gives back every text, whatever its case and its characters.
pub proof fn lemma_decode_encode_letters(k: Key, text: Seq<char>)
    requires
        k.wf(),
        forall|i: int|
            0 <= i < k.alphabet_chars().len() && is_lower_letter(#[trigger] k.alphabet_chars()[i])
                ==> is_lower_letter(k.key_chars()[i]),
    ensures
        k.decode_text(k.encode_text(text)) == text,
{
    let alphabet = k.alphabet_chars();
    assert forall|i: int| 0 <= i < text.len() implies !loses_case(
        alphabet,
        k.key_chars(),
        #[trigger] text[i],
    ) by {
        if upper_text(alphabet).contains(text[i]) && !alphabet.contains(text[i]) {
            lemma_position_found(upper_text(alphabet), text[i]);
            let at = position(upper_text(alphabet), text[i]);
            lemma_upper_of(alphabet[at]);
        }
    }
    lemma_decode_encode(k, text);
}

/// Whether no character of `chars` is an upper-case letter.
pub fn in_lower_case(chars: &Vec<char>) -> (lower: bool)
    ensures
        lower == is_lower_case(chars@),
{
    let mut i: usize = 0;
    while i < chars.len()
        invariant
            i <= chars.len(),
            forall|k: int| 0 <= k < i ==> !is_upper_letter(#[trigger] chars@[k]),
        decreases chars.len() - i,
    {
        proof {
            lemma_lower_of(chars@[i as int]);
        }
        if chars[i].to_lower_case() != chars[i] {
            return false;
        }
        i += 1;
    }
    true
}

impl Clone for Key {
    fn clone(&self) -> (copy: Self)
        ensures
            copy.key_chars() == self.key_chars(),
            copy.alphabet_chars() == self.alphabet_chars(),
            self.wf() ==> copy.wf(),
    {
        Self {
            key: self.key.clone(),
            alphabet: self.alphabet.clone(),
            upper_key: self.upper_key.clone(),
            upper_alphabet: self.upper_alphabet.clone(),
        }
    }
}

} // verus!
