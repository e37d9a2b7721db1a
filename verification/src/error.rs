//! What can be wrong with an alphabet, a key, a corpus or a stored model.

use vstd::prelude::*;

verus! {

/// An alphabet that cannot be used.
#[derive(Clone, Copy, Debug, PartialEq, Eq, Structural)]
pub enum AlphabetError {
    /// A character stands twice in the alphabet.
    Duplicate,
    /// An upper-case letter is left in the alphabet after it was lowered.
    Case,
    /// The alphabet has more characters than a quadgram table can index.
    TooLong,
}

/// A key that is no permutation of its alphabet.
#[derive(Clone, Copy, Debug, PartialEq, Eq, Structural)]
pub enum KeyError {
    /// A character stands twice in the key.
    Duplicate,
    /// The key is not as long as the alphabet.
    Length,
    /// The key holds a character that the alphabet lacks.
    Charset,
}

/// A stored model whose parts do not fit together.
#[derive(Clone, Copy, Debug, PartialEq, Eq, Structural)]
pub enum ModelFileError {
    /// The alphabet has duplicates or is too long for the table.
    Alphabet,
    /// The table does not have one slot per packed quadgram.
    TableSize,
    /// The scores do not cover the counts, a count above 0 has the score 0,
    /// or a greater count has a lower score.
    Scores,
}

/// Why a key or a model could not be made.
#[derive(Clone, Copy, Debug, PartialEq, Eq, Structural)]
pub enum Error {
    Alphabet(AlphabetError),
    Key(KeyError),
    /// The corpus has fewer than four characters, so it holds no quadgram.
    CorpusTooShort,
    ModelFile(ModelFileError),
}

impl Error {
    /// The sentence that [`Error::message`] returns.
    pub open spec fn message_text(self) -> Seq<char> {
        match self {
            Error::Alphabet(AlphabetError::Duplicate) => "Alphabet characters must be unique."@,
            Error::Alphabet(AlphabetError::Case) => "Alphabet must be in lower case."@,
            Error::Alphabet(AlphabetError::TooLong) => {
                "Alphabet must have less or equal than 32 characters."@
            },
            Error::Key(KeyError::Duplicate) => "Key characters must be unique."@,
            Error::Key(KeyError::Length) => "Key must be as long as the alphabet."@,
            Error::Key(KeyError::Charset) => {
                "Key must use the same set of characters than the alphabet."@
            },
            Error::CorpusTooShort => "Corpus must have at least four characters."@,
            Error::ModelFile(ModelFileError::Alphabet) => {
                "Model alphabet must have unique characters and at most 32 of them."@
            },
            Error::ModelFile(ModelFileError::TableSize) => {
                "Model must have one entry for each of the 1048576 quadgrams."@
            },
            Error::ModelFile(ModelFileError::Scores) => {
                "Model must have a score above 0 for each count, and none lower than that of a smaller count."@
            },
        }
    }

    /// The error as a sentence for a reader.
    pub fn message(&self) -> (text: String)
        ensures
            text@ == self.message_text(),
    {
        match self {
            Error::Alphabet(AlphabetError::Duplicate) => String::from_str(
                "Alphabet characters must be unique.",
            ),
            Error::Alphabet(AlphabetError::Case) => String::from_str(
                "Alphabet must be in lower case.",
            ),
            Error::Alphabet(AlphabetError::TooLong) => String::from_str(
                "Alphabet must have less or equal than 32 characters.",
            ),
            Error::Key(KeyError::Duplicate) => String::from_str("Key characters must be unique."),
            Error::Key(KeyError::Length) => String::from_str("Key must be as long as the alphabet."),
            Error::Key(KeyError::Charset) => String::from_str(
                "Key must use the same set of characters than the alphabet.",
            ),
            Error::CorpusTooShort => String::from_str("Corpus must have at least four characters."),
            Error::ModelFile(ModelFileError::Alphabet) => String::from_str(
                "Model alphabet must have unique characters and at most 32 of them.",
            ),
            Error::ModelFile(ModelFileError::TableSize) => String::from_str(
                "Model must have one entry for each of the 1048576 quadgrams.",
            ),
            Error::ModelFile(ModelFileError::Scores) => String::from_str(
                "Model must have a score above 0 for each count, and none lower than that of a smaller count.",
            ),
        }
    }
}

} // verus!
