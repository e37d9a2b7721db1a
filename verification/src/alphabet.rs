//! Ordered character sets: positions, uniqueness, permutations and the
//! substitution of one set by another.

use vstd::prelude::*;

verus! {

/// The first index at which `c` stands in `s`. Meaningful where `s` holds `c`.
pub open spec fn position(s: Seq<char>, c: char) -> int {
    choose|i: int| 0 <= i < s.len() && s[i] == c && forall|j: int| 0 <= j < i ==> s[j] != c
}

/// `key` holds the characters of `alphabet`, each exactly once.
pub open spec fn is_permutation(key: Seq<char>, alphabet: Seq<char>) -> bool {
    &&& key.len() == alphabet.len()
    &&& key.no_duplicates()
    &&& same_characters(key, alphabet)
}

/// `a` and `b` hold the same set of characters.
pub open spec fn same_characters(a: Seq<char>, b: Seq<char>) -> bool {
    forall|c: char| a.contains(c) <==> b.contains(c)
}

/// The character that stands in `to` where `c` first stands in `from`;
/// `c` itself where `from` does not hold it.
pub open spec fn substitute(from: Seq<char>, to: Seq<char>, c: char) -> char
    recommends
        from.len() == to.len(),
{
    if from.contains(c) {
        to[position(from, c)]
    } else {
        c
    }
}

/// `text` with each character substituted.
pub open spec fn transcode(from: Seq<char>, to: Seq<char>, text: Seq<char>) -> Seq<char>
    recommends
        from.len() == to.len(),
{
    Seq::new(text.len(), |i: int| substitute(from, to, text[i]))
}

/// An index at which `c` stands, with no earlier one, is its position.
pub proof fn lemma_position(s: Seq<char>, c: char, i: int)
    requires
        0 <= i < s.len(),
        s[i] == c,
        forall|j: int| 0 <= j < i ==> s[j] != c,
    ensures
        s.contains(c),
        position(s, c) == i,
{
}

/// In a sequence without duplicates every index is the position of its character.
pub proof fn lemma_position_unique(s: Seq<char>, i: int)
    requires
        s.no_duplicates(),
        0 <= i < s.len(),
    ensures
        s.contains(s[i]),
        position(s, s[i]) == i,
{
    lemma_position(s, s[i], i);
}

/// The position of a character that `s` holds is an index of it.
pub proof fn lemma_position_found(s: Seq<char>, c: char)
    requires
        s.contains(c),
    ensures
        0 <= position(s, c) < s.len(),
        s[position(s, c)] == c,
{
    let k = choose|k: int| 0 <= k < s.len() && s[k] == c;
    lemma_first_occurrence(s, c, k);
}

/// A character that stands at `k` stands first at or before `k`.
proof fn lemma_first_occurrence(s: Seq<char>, c: char, k: int)
    requires
        0 <= k < s.len(),
        s[k] == c,
    ensures
        exists|i: int| 0 <= i <= k && s[i] == c && forall|j: int| 0 <= j < i ==> s[j] != c,
    decreases k,
{
    if exists|j: int| 0 <= j < k && s[j] == c {
        let j = choose|j: int| 0 <= j < k && s[j] == c;
        lemma_first_occurrence(s, c, j);
    }
}

/// Where `c` first stands in `s`, if anywhere.
pub fn find(s: &Vec<char>, c: char) -> (at: Option<usize>)
    ensures
        match at {
            Some(i) => i < s.len() && s@[i as int] == c && i == position(s@, c),
            None => !s@.contains(c),
        },
{
    let mut i: usize = 0;
    while i < s.len()
        invariant
            i <= s.len(),
            forall|j: int| 0 <= j < i ==> s@[j] != c,
        decreases s.len() - i,
    {
        if s[i] == c {
            proof {
                lemma_position(s@, c, i as int);
            }
            return Some(i);
        }
        i += 1;
    }
    None
}

/// Whether some character stands twice in `s`.
pub fn has_duplicates(s: &Vec<char>) -> (twice: bool)
    ensures
        twice == !s@.no_duplicates(),
{
    let mut i: usize = 0;
    while i < s.len()
        invariant
            i <= s.len(),
            forall|a: int, b: int| 0 <= a < i && 0 <= b < s.len() && a != b ==> s@[a] != s@[b],
        decreases s.len() - i,
    {
        let mut j: usize = i + 1;
        while j < s.len()
            invariant
                i < j <= s.len(),
                forall|b: int| i < b < j ==> s@[i as int] != s@[b],
            decreases s.len() - j,
        {
            if s[i] == s[j] {
                return true;
            }
            j += 1;
        }
        i += 1;
    }
    false
}

/// Whether every character of `a` stands in `b`.
pub fn all_found(a: &Vec<char>, b: &Vec<char>) -> (found: bool)
    ensures
        found == forall|i: int| 0 <= i < a.len() ==> b@.contains(#[trigger] a@[i]),
{
    let mut i: usize = 0;
    while i < a.len()
        invariant
            i <= a.len(),
            forall|k: int| 0 <= k < i ==> b@.contains(#[trigger] a@[k]),
        decreases a.len() - i,
    {
        if find(b, a[i]).is_none() {
            return false;
        }
        i += 1;
    }
    true
}

/// Whether `key` holds the characters of `alphabet`, each exactly once.
pub fn check_permutation(key: &Vec<char>, alphabet: &Vec<char>) -> (ok: bool)
    ensures
        ok == is_permutation(key@, alphabet@),
{
    if key.len() != alphabet.len() || has_duplicates(key) {
        return false;
    }
    let forth = all_found(key, alphabet);
    let back = all_found(alphabet, key);
    forth && back
}

/// The substitute of one character.
pub fn substitute_char(from: &Vec<char>, to: &Vec<char>, c: char) -> (out: char)
    requires
        from.len() == to.len(),
    ensures
        out == substitute(from@, to@, c),
{
    match find(from, c) {
        Some(i) => {
            proof {
                lemma_position_found(from@, c);
            }
            to[i]
        },
        None => c,
    }
}

/// Substituting forth and back along a permutation gives every character back.
pub proof fn lemma_substitute_round_trip(alphabet: Seq<char>, key: Seq<char>, c: char)
    requires
        alphabet.no_duplicates(),
        is_permutation(key, alphabet),
    ensures
        substitute(key, alphabet, substitute(alphabet, key, c)) == c,
        substitute(alphabet, key, substitute(key, alphabet, c)) == c,
{
    if alphabet.contains(c) {
        lemma_position_found(alphabet, c);
        lemma_position_unique(key, position(alphabet, c));
    }
    if key.contains(c) {
        lemma_position_found(key, c);
        lemma_position_unique(alphabet, position(key, c));
    }
}

/// `s` with the characters at `i` and `j` exchanged.
pub open spec fn swapped(s: Seq<char>, i: int, j: int) -> Seq<char>
    recommends
        0 <= i < s.len(),
        0 <= j < s.len(),
{
    s.update(i, s[j]).update(j, s[i])
}

/// Exchanging two characters of a permutation leaves a permutation.
pub proof fn lemma_swapped_permutation(key: Seq<char>, alphabet: Seq<char>, i: int, j: int)
    requires
        is_permutation(key, alphabet),
        0 <= i < key.len(),
        0 <= j < key.len(),
    ensures
        is_permutation(swapped(key, i, j), alphabet),
        swapped(swapped(key, i, j), i, j) == key,
{
    let after = swapped(key, i, j);
    assert forall|c: char| after.contains(c) <==> key.contains(c) by {
        if key.contains(c) {
            let k = choose|k: int| 0 <= k < key.len() && key[k] == c;
            if k == i {
                assert(after[j] == c);
            } else if k == j {
                assert(after[i] == c);
            } else {
                assert(after[k] == c);
            }
        }
    }
}

/// Exchanges the characters at `i` and `j`.
pub fn swap(s: &mut Vec<char>, i: usize, j: usize)
    requires
        i < old(s).len(),
        j < old(s).len(),
    ensures
        final(s)@ == swapped(old(s)@, i as int, j as int),
{
    let a = s[i];
    let b = s[j];
    s.set(i, b);
    s.set(j, a);
}

} // verus!
