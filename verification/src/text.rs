//! Strings as sequences of characters.

use crate::traits::{upper_of, CharTrait};
use unicode_segmentation::UnicodeSegmentation;
use vstd::prelude::*;

verus! {

/// The number of extended grapheme clusters of a text, as Unicode's rules
/// for text segmentation divide it.
pub uninterp spec fn grapheme_count(text: Seq<char>) -> nat;

/// `UnicodeSegmentation::graphemes`, counted: the number of extended
/// grapheme clusters of `text`. It depends on the characters of `text` alone.
#[verifier::external_body]
pub(crate) fn count_graphemes(text: &str) -> (count: usize)
    ensures
        count == grapheme_count(text@),
{
    text.graphemes(true).count()
}

/// The lower case of a text as the standard library gives it: each
/// character by Unicode's lower-case mapping, which may be more than one
/// character long, without regard to a locale.
pub uninterp spec fn lowercase_of(text: Seq<char>) -> Seq<char>;

/// `str::to_lowercase`: the lower case of `text`. It depends on the
/// characters of `text` alone. Nothing more is claimed of it: which
/// characters it leaves is found out where that matters.
#[verifier::external_body]
pub(crate) fn lowercase(text: &str) -> (lower: String)
    ensures
        lower@ == lowercase_of(text@),
{
    text.to_lowercase()
}

/// `String::push`: appends one character at the end of the string.
pub assume_specification[ String::push ](s: &mut String, c: char)
    ensures
        final(s)@ == old(s)@.push(c),
;

/// `text` with every character in upper case.
pub open spec fn upper_text(text: Seq<char>) -> Seq<char> {
    Seq::new(text.len(), |i: int| upper_of(text[i]))
}

/// The characters of `text`, in order.
pub fn to_chars(text: &str) -> (chars: Vec<char>)
    ensures
        chars@ == text@,
{
    let mut chars: Vec<char> = Vec::new();
    for c in it: text.chars()
        invariant
            chars@ == it.seq().take(it.index() as int),
            it.seq() == text@,
    {
        chars.push(c);
    }
    chars
}

/// The string made of `chars`, in order.
pub fn to_text(chars: &Vec<char>) -> (text: String)
    ensures
        text@ == chars@,
{
    let mut text = String::new();
    let mut i: usize = 0;
    while i < chars.len()
        invariant
            i <= chars.len(),
            text@ == chars@.take(i as int),
        decreases chars.len() - i,
    {
        text.push(chars[i]);
        i += 1;
    }
    text
}

/// Every character of `chars` in upper case.
pub fn to_upper(chars: &Vec<char>) -> (upper: Vec<char>)
    ensures
        upper@ == upper_text(chars@),
{
    let mut upper: Vec<char> = Vec::new();
    let mut i: usize = 0;
    while i < chars.len()
        invariant
            i <= chars.len(),
            upper@ == upper_text(chars@).take(i as int),
        decreases chars.len() - i,
    {
        upper.push(chars[i].to_upper_case());
        i += 1;
    }
    upper
}

} // verus!
