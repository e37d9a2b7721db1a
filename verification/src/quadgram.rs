//! Quadgrams as table indices: how characters become five-bit indices, how
//! four of them are packed into one slot number, how a text's quadgrams are
//! counted and how a text is scored against a table.

use crate::alphabet::{find, position};
use crate::traits::{lower_of, CharTrait};
use vstd::prelude::*;

verus! {

/// The longest alphabet whose indices fit into five bits.
pub const MAX_ALPHABET: usize = 32;

/// The number of slots of a quadgram table: four indices of five bits each.
pub const TABLE_SIZE: usize = 1048576;

/// The index that stands for every character outside the alphabet.
pub const SENTINEL: usize = 1;

/// The largest fitness that a text of `usize::MAX` characters can reach.
pub const FITNESS_LIMIT: u128 = 0x1_0000_0000_0000_0000_0000_0000;

/// The index of `c`: where its lower case stands in the alphabet, or the sentinel.
pub open spec fn char_index(alphabet: Seq<char>, c: char) -> usize {
    if alphabet.contains(lower_of(c)) {
        position(alphabet, lower_of(c)) as usize
    } else {
        SENTINEL
    }
}

/// The indices of the characters of `text`, one for one.
pub open spec fn indices_of(alphabet: Seq<char>, text: Seq<char>) -> Seq<usize> {
    Seq::new(text.len(), |i: int| char_index(alphabet, text[i]))
}

/// Every index fits into five bits.
pub open spec fn five_bit(indices: Seq<usize>) -> bool {
    forall|i: int| 0 <= i < indices.len() ==> indices[i] < 32
}

/// The slot of the quadgram that ends at position `i`: the indices at
/// `i - 3 ..= i`, the oldest in the highest five bits.
pub open spec fn window_at(indices: Seq<usize>, i: int) -> int
    recommends
        3 <= i < indices.len(),
{
    ((indices[i - 3] * 32 + indices[i - 2]) * 32 + indices[i - 1]) * 32 + indices[i]
}

/// How many of the quadgrams that end before position `n` fall into slot `w`.
pub open spec fn occurrences(indices: Seq<usize>, w: int, n: int) -> nat
    decreases n,
{
    if n < 4 {
        0
    } else {
        occurrences(indices, w, n - 1) + if window_at(indices, n - 1) == w {
            1nat
        } else {
            0nat
        }
    }
}

/// The sum of the table entries of the quadgrams that end before position `n`.
pub open spec fn fitness_upto(table: Seq<u32>, indices: Seq<usize>, n: int) -> nat
    decreases n,
{
    if n < 4 {
        0
    } else {
        fitness_upto(table, indices, n - 1) + table[window_at(indices, n - 1)] as nat
    }
}

/// The fitness of a text with these indices: the sum of the table entries of
/// all its quadgrams, and 0 for a text of fewer than four characters.
pub open spec fn fitness_of(table: Seq<u32>, indices: Seq<usize>) -> nat {
    fitness_upto(table, indices, indices.len() as int)
}

/// No slot is counted more often than there are quadgrams.
pub proof fn lemma_occurrences_bound(indices: Seq<usize>, w: int, n: int)
    ensures
        occurrences(indices, w, n) <= if n < 4 { 0 } else { n - 3 },
    decreases n,
{
    if n >= 4 {
        lemma_occurrences_bound(indices, w, n - 1);
    }
}

/// The window holds what the indices end with: all of them while there are
/// fewer than three, and the last three in its lower fifteen bits after that.
pub open spec fn window_holds(indices: Seq<usize>, window: usize) -> bool {
    let n = indices.len() as int;
    if n == 0 {
        window == 0
    } else if n == 1 {
        window == indices[0]
    } else if n == 2 {
        window == indices[0] * 32 + indices[1]
    } else {
        window % 32768 == (indices[n - 3] * 32 + indices[n - 2]) * 32 + indices[n - 1]
    }
}

/// The quadgrams that end before position `n` depend on the indices before `n` alone.
pub proof fn lemma_occurrences_prefix(a: Seq<usize>, b: Seq<usize>, w: int, n: int)
    requires
        n <= a.len(),
        n <= b.len(),
        forall|i: int| 0 <= i < n ==> a[i] == b[i],
    ensures
        occurrences(a, w, n) == occurrences(b, w, n),
    decreases n,
{
    if n >= 4 {
        lemma_occurrences_prefix(a, b, w, n - 1);
    }
}

/// A quadgram of five-bit indices names a slot of the table.
pub proof fn lemma_window_in_table(indices: Seq<usize>, i: int)
    requires
        five_bit(indices),
        3 <= i < indices.len(),
    ensures
        0 <= window_at(indices, i) < TABLE_SIZE,
{
}

/// The fitness grows by at most `u32::MAX` with each quadgram.
pub proof fn lemma_fitness_bound(table: Seq<u32>, indices: Seq<usize>, n: int)
    ensures
        fitness_upto(table, indices, n) <= if n < 4 { 0 } else { (n - 3) * 0xFFFF_FFFF },
    decreases n,
{
    if n >= 4 {
        lemma_fitness_bound(table, indices, n - 1);
    }
}

/// The index of one character.
pub fn index_of_char(alphabet: &Vec<char>, c: char) -> (index: usize)
    requires
        alphabet.len() <= MAX_ALPHABET,
    ensures
        index == char_index(alphabet@, c),
        index < 32,
{
    match find(alphabet, c.to_lower_case()) {
        Some(i) => i,
        None => SENTINEL,
    }
}

/// The indices of all characters of a text.
pub fn text_indices(alphabet: &Vec<char>, text: &Vec<char>) -> (indices: Vec<usize>)
    requires
        alphabet.len() <= MAX_ALPHABET,
    ensures
        indices@ == indices_of(alphabet@, text@),
        five_bit(indices@),
{
    let mut indices: Vec<usize> = Vec::new();
    let mut i: usize = 0;
    while i < text.len()
        invariant
            i <= text.len(),
            alphabet.len() <= MAX_ALPHABET,
            indices@ == indices_of(alphabet@, text@).take(i as int),
            five_bit(indices@),
        decreases text.len() - i,
    {
        indices.push(index_of_char(alphabet, text[i]));
        i += 1;
    }
    indices
}

/// Moves a window on by one character: the three latest indices move up by
/// five bits, the oldest leaves, and `index` takes the lowest five bits.
pub fn slide(window: usize, index: usize) -> (next: usize)
    requires
        index < 32,
    ensures
        next == (window % 32768) * 32 + index,
        next < TABLE_SIZE,
{
    (window % 32768) * 32 + index
}

/// Scores a text: the sum of the table entries of all its quadgrams.
pub fn fitness(table: &Vec<u32>, indices: &Vec<usize>) -> (sum: u128)
    requires
        table.len() == TABLE_SIZE,
        five_bit(indices@),
    ensures
        sum == fitness_of(table@, indices@),
        sum < FITNESS_LIMIT,
{
    let mut sum: u128 = 0;
    if indices.len() < 4 {
        return sum;
    }
    let mut window: usize = slide(slide(indices[0], indices[1]), indices[2]);
    let mut i: usize = 3;
    while i < indices.len()
        invariant
            3 <= i <= indices.len(),
            five_bit(indices@),
            table.len() == TABLE_SIZE,
            window % 32768 == (indices[i - 3] * 32 + indices[i - 2]) * 32 + indices[i - 1],
            sum == fitness_upto(table@, indices@, i as int),
            sum <= (i - 3) * 0xFFFF_FFFF,
        decreases indices.len() - i,
    {
        window = slide(window, indices[i]);
        sum = sum + table[window] as u128;
        i += 1;
    }
    sum
}

/// The sum of the first `n` counts.
pub open spec fn count_sum(counts: Seq<usize>, n: int) -> nat
    decreases n,
{
    if n <= 0 {
        0
    } else {
        count_sum(counts, n - 1) + counts[n - 1] as nat
    }
}

/// Counts that are all 0 add up to 0.
pub proof fn lemma_count_sum_zero(counts: Seq<usize>, n: int)
    requires
        n <= counts.len(),
        forall|w: int| 0 <= w < n ==> counts[w] == 0,
    ensures
        count_sum(counts, n) == 0,
    decreases n,
{
    if n > 0 {
        lemma_count_sum_zero(counts, n - 1);
    }
}

/// One more in one slot is one more in the sum.
pub proof fn lemma_count_sum_update(counts: Seq<usize>, w: int, n: int)
    requires
        0 <= w < counts.len(),
        n <= counts.len(),
        counts[w] < usize::MAX,
    ensures
        count_sum(counts.update(w, (counts[w] + 1) as usize), n) == count_sum(counts, n) + if w
            < n {
            1nat
        } else {
            0nat
        },
    decreases n,
{
    if n > 0 {
        lemma_count_sum_update(counts, w, n - 1);
    }
}

/// `m` is the slot of the largest entry; of several largest, the last.
pub open spec fn is_last_maximum(table: Seq<u32>, m: int) -> bool {
    &&& 0 <= m < table.len()
    &&& forall|w: int| 0 <= w < table.len() ==> table[w] <= table[m]
    &&& forall|w: int| m < w < table.len() ==> table[w] < table[m]
}

/// The sum of the first `n` entries.
pub open spec fn sum_upto(table: Seq<u32>, n: int) -> nat
    decreases n,
{
    if n <= 0 {
        0
    } else {
        sum_upto(table, n - 1) + table[n - 1] as nat
    }
}

/// The four characters of the quadgram in slot `w`, the oldest first; `None`
/// where one of its indices names no character of the alphabet.
pub open spec fn quadgram_chars(alphabet: Seq<char>, w: int) -> Option<Seq<char>> {
    let a = w / 32768 % 32;
    let b = w / 1024 % 32;
    let c = w / 32 % 32;
    let d = w % 32;
    if a < alphabet.len() && b < alphabet.len() && c < alphabet.len() && d < alphabet.len() {
        Some(seq![alphabet[a], alphabet[b], alphabet[c], alphabet[d]])
    } else {
        None
    }
}

/// The slot of the largest entry; of several largest, the last.
pub fn last_maximum(table: &Vec<u32>) -> (m: usize)
    requires
        table.len() > 0,
    ensures
        is_last_maximum(table@, m as int),
{
    let mut m: usize = 0;
    let mut i: usize = 1;
    while i < table.len()
        invariant
            0 <= m < i <= table.len(),
            forall|w: int| 0 <= w < i ==> table[w] <= table[m as int],
            forall|w: int| m < w < i ==> table[w] < table[m as int],
        decreases table.len() - i,
    {
        if table[i] >= table[m] {
            m = i;
        }
        i += 1;
    }
    m
}

/// The sum of all entries of a table.
pub fn table_sum(table: &Vec<u32>) -> (sum: u64)
    requires
        table.len() <= TABLE_SIZE,
    ensures
        sum == sum_upto(table@, table.len() as int),
{
    let mut sum: u64 = 0;
    let mut i: usize = 0;
    while i < table.len()
        invariant
            i <= table.len() <= TABLE_SIZE,
            sum == sum_upto(table@, i as int),
            sum <= i * 0xFFFF_FFFF,
        decreases table.len() - i,
    {
        sum = sum + table[i] as u64;
        i += 1;
    }
    sum
}

/// The four characters of the quadgram in slot `w`.
pub fn quadgram_text(alphabet: &Vec<char>, w: usize) -> (text: Option<String>)
    ensures
        match text {
            Some(t) => quadgram_chars(alphabet@, w as int) == Some(t@),
            None => quadgram_chars(alphabet@, w as int) is None,
        },
{
    let a = w / 32768 % 32;
    let b = w / 1024 % 32;
    let c = w / 32 % 32;
    let d = w % 32;
    let n = alphabet.len();
    if a < n && b < n && c < n && d < n {
        let mut text = String::new();
        text.push(alphabet[a]);
        text.push(alphabet[b]);
        text.push(alphabet[c]);
        text.push(alphabet[d]);
        assert(text@ =~= seq![
            alphabet@[a as int],
            alphabet@[b as int],
            alphabet@[c as int],
            alphabet@[d as int],
        ]);
        Some(text)
    } else {
        None
    }
}

/// `most` is the greatest of the counts.
pub open spec fn is_greatest(counts: Seq<usize>, most: usize) -> bool {
    &&& exists|w: int| 0 <= w < counts.len() && counts[w] == most
    &&& forall|w: int| 0 <= w < counts.len() ==> counts[w] <= most
}

/// From the count 1 on, no count has a lower score than a smaller count.
pub open spec fn never_falls(scores: Seq<u32>) -> bool {
    forall|a: int, b: int| 1 <= a <= b < scores.len() ==> scores[a] <= scores[b]
}

/// Whether, from the count 1 on, no count has a lower score than a smaller count.
pub fn check_never_falls(scores: &Vec<u32>) -> (ok: bool)
    ensures
        ok == never_falls(scores@),
{
    let mut i: usize = 2;
    while i < scores.len()
        invariant
            2 <= i,
            forall|a: int, b: int| 1 <= a <= b < i && b < scores.len() ==> scores[a] <= scores[b],
        decreases scores.len() - i,
    {
        if scores[i - 1] > scores[i] {
            return false;
        }
        i += 1;
    }
    true
}

/// `m` is the smallest of the counts that are not 0.
pub open spec fn is_least_nonzero(counts: Seq<usize>, m: usize) -> bool {
    &&& m > 0
    &&& exists|w: int| 0 <= w < counts.len() && counts[w] == m
    &&& forall|w: int| 0 <= w < counts.len() && counts[w] > 0 ==> m <= counts[w]
}

/// The quadgram that ends at position `i` is counted in its slot.
pub proof fn lemma_occurrences_positive(indices: Seq<usize>, i: int, n: int)
    requires
        3 <= i < n,
    ensures
        occurrences(indices, window_at(indices, i), n) >= 1,
    decreases n,
{
    if i < n - 1 {
        lemma_occurrences_positive(indices, i, n - 1);
    }
}

/// The smallest of the counts that are not 0.
pub fn least_nonzero(counts: &Vec<usize>) -> (least: usize)
    requires
        exists|w: int| 0 <= w < counts.len() && counts[w] > 0,
    ensures
        is_least_nonzero(counts@, least),
{
    let mut least: usize = 0;
    let mut i: usize = 0;
    while i < counts.len()
        invariant
            i <= counts.len(),
            least == 0 ==> forall|w: int| 0 <= w < i ==> counts[w] == 0,
            least > 0 ==> exists|w: int| 0 <= w < i && counts[w] == least,
            forall|w: int| 0 <= w < i && counts[w] > 0 ==> least <= counts[w],
        decreases counts.len() - i,
    {
        let count = counts[i];
        if count > 0 && (least == 0 || count < least) {
            least = count;
        }
        i += 1;
    }
    least
}

} // verus!
