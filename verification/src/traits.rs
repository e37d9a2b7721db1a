//! Case mapping for the letters that alphabets are written in.
//!
//! The mapping is total and one to one in each direction: the basic Latin
//! letters and the Russian Cyrillic letters have two cases, every other
//! character is its own upper and lower case. A letter such as the German
//! sharp s, whose upper case in Unicode is two characters long, therefore
//! stays as it is and never breaks a transcoding table.

use vstd::prelude::*;

verus! {

/// `c` is one of the letters that have an upper case here.
pub open spec fn is_lower_letter(c: char) -> bool {
    ('a' <= c && c <= 'z') || ('\u{430}' <= c && c <= '\u{44f}') || c == '\u{451}'
}

/// `c` is one of the letters that have a lower case here.
pub open spec fn is_upper_letter(c: char) -> bool {
    ('A' <= c && c <= 'Z') || ('\u{410}' <= c && c <= '\u{42f}') || c == '\u{401}'
}

/// The upper case of `c`: Latin `a..z` and Cyrillic `U+0430..U+044F` move
/// down by 32 code points, `U+0451` becomes `U+0401`, all else is unchanged.
pub open spec fn upper_of(c: char) -> char {
    if ('a' <= c && c <= 'z') || ('\u{430}' <= c && c <= '\u{44f}') {
        ((c as u32) - 0x20) as char
    } else if c == '\u{451}' {
        '\u{401}'
    } else {
        c
    }
}

/// The lower case of `c`, the inverse of [`upper_of`] on the upper-case letters.
pub open spec fn lower_of(c: char) -> char {
    if ('A' <= c && c <= 'Z') || ('\u{410}' <= c && c <= '\u{42f}') {
        ((c as u32) + 0x20) as char
    } else if c == '\u{401}' {
        '\u{451}'
    } else {
        c
    }
}

/// `core::char::from_u32`: yields the character with code point `i`, and
/// `None` exactly for the surrogates and for values above `U+10FFFF`.
pub assume_specification[ char::from_u32 ](i: u32) -> (c: Option<char>)
    ensures
        c == if i <= 0xD7FF || (0xE000 <= i && i <= 0x10FFFF) {
            Some(i as char)
        } else {
            None::<char>
        },
;

/// Upper and lower case of a single character.
pub trait CharTrait: Sized {
    /// What [`CharTrait::to_lower_case`] returns.
    spec fn lower_case(&self) -> Self;

    /// What [`CharTrait::to_upper_case`] returns.
    spec fn upper_case(&self) -> Self;

    fn to_lower_case(&self) -> (lower: Self)
        ensures
            lower == self.lower_case(),
    ;

    fn to_upper_case(&self) -> (upper: Self)
        ensures
            upper == self.upper_case(),
    ;
}

impl CharTrait for char {
    open spec fn lower_case(&self) -> char {
        lower_of(*self)
    }

    open spec fn upper_case(&self) -> char {
        upper_of(*self)
    }

    fn to_lower_case(&self) -> (lower: char) {
        let c = *self;
        if ('A' <= c && c <= 'Z') || ('\u{410}' <= c && c <= '\u{42f}') {
            match char::from_u32(c as u32 + 0x20) {
                Some(l) => l,
                None => c,
            }
        } else if c == '\u{401}' {
            '\u{451}'
        } else {
            c
        }
    }

    fn to_upper_case(&self) -> (upper: char) {
        let c = *self;
        if ('a' <= c && c <= 'z') || ('\u{430}' <= c && c <= '\u{44f}') {
            match char::from_u32(c as u32 - 0x20) {
                Some(u) => u,
                None => c,
            }
        } else if c == '\u{451}' {
            '\u{401}'
        } else {
            c
        }
    }
}

/// Lowering never yields an upper-case letter, and raising undoes lowering
/// exactly on the upper-case letters.
pub proof fn lemma_lower_of(c: char)
    ensures
        !is_upper_letter(lower_of(c)),
        lower_of(lower_of(c)) == lower_of(c),
        is_upper_letter(c) ==> is_lower_letter(lower_of(c)) && upper_of(lower_of(c)) == c,
        !is_upper_letter(c) ==> lower_of(c) == c,
{
}

/// Raising never yields a lower-case letter, and lowering undoes raising
/// exactly on the lower-case letters.
pub proof fn lemma_upper_of(c: char)
    ensures
        !is_lower_letter(upper_of(c)),
        upper_of(upper_of(c)) == upper_of(c),
        is_lower_letter(c) ==> is_upper_letter(upper_of(c)) && lower_of(upper_of(c)) == c,
        !is_lower_letter(c) ==> upper_of(c) == c,
{
}

/// On characters that are not upper-case letters, [`upper_of`] is one to one.
pub proof fn lemma_upper_of_injective(a: char, b: char)
    requires
        !is_upper_letter(a),
        !is_upper_letter(b),
        upper_of(a) == upper_of(b),
    ensures
        a == b,
{
    lemma_upper_of(a);
    lemma_upper_of(b);
}

} // verus!
