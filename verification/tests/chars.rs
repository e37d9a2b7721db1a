use substitution_breaker::alphabet::{
    all_found, check_permutation, find, has_duplicates, substitute_char, swap,
};
use substitution_breaker::text::{to_chars, to_text, to_upper};
use substitution_breaker::traits::CharTrait;

#[test]
fn latin_letters_change_case() {
    assert_eq!('a'.to_upper_case(), 'A');
    assert_eq!('z'.to_upper_case(), 'Z');
    assert_eq!('M'.to_lower_case(), 'm');
    assert_eq!('A'.to_lower_case(), 'a');
    assert_eq!('Z'.to_lower_case(), 'z');
    assert_eq!('A'.to_upper_case(), 'A');
    assert_eq!('a'.to_lower_case(), 'a');
}

#[test]
fn cyrillic_letters_change_case() {
    assert_eq!('\u{430}'.to_upper_case(), '\u{410}');
    assert_eq!('\u{44f}'.to_upper_case(), '\u{42f}');
    assert_eq!('\u{451}'.to_upper_case(), '\u{401}');
    assert_eq!('\u{410}'.to_lower_case(), '\u{430}');
    assert_eq!('\u{42f}'.to_lower_case(), '\u{44f}');
    assert_eq!('\u{401}'.to_lower_case(), '\u{451}');
}

#[test]
fn other_characters_have_one_case() {
    for c in ['1', ' ', '@', '[', '`', '{', '\u{df}', '\u{e9}', '\u{c9}', '\u{40f}', '\u{450}'] {
        assert_eq!(c.to_upper_case(), c);
        assert_eq!(c.to_lower_case(), c);
    }
}

#[test]
fn strings_become_characters_and_back() {
    assert_eq!(to_chars("a\u{e9}\u{1f600}z"), vec!['a', '\u{e9}', '\u{1f600}', 'z']);
    assert_eq!(to_chars(""), Vec::<char>::new());
    assert_eq!(to_text(&vec!['h', 'i', '\u{451}']), "hi\u{451}");
    assert_eq!(to_text(&vec![]), "");
}

#[test]
fn texts_are_raised_character_by_character() {
    assert_eq!(to_upper(&to_chars("AbC \u{451}\u{df}")), to_chars("ABC \u{401}\u{df}"));
    assert_eq!(to_upper(&vec![]), Vec::<char>::new());
}

#[test]
fn find_gives_the_first_place() {
    let s = vec!['a', 'b', 'a', 'c'];
    assert_eq!(find(&s, 'a'), Some(0));
    assert_eq!(find(&s, 'c'), Some(3));
    assert_eq!(find(&s, 'd'), None);
    assert_eq!(find(&vec![], 'a'), None);
}

#[test]
fn duplicates_are_found() {
    assert!(has_duplicates(&vec!['a', 'b', 'a']));
    assert!(has_duplicates(&vec!['a', 'b', 'c', 'c']));
    assert!(!has_duplicates(&vec!['a', 'b', 'c']));
    assert!(!has_duplicates(&vec![]));
}

#[test]
fn permutations_are_told_from_other_sequences() {
    assert!(check_permutation(&vec!['c', 'a', 'b'], &vec!['a', 'b', 'c']));
    assert!(check_permutation(&vec![], &vec![]));
    assert!(!check_permutation(&vec!['c', 'a'], &vec!['a', 'b', 'c']));
    assert!(!check_permutation(&vec!['c', 'a', 'a'], &vec!['a', 'b', 'c']));
    assert!(!check_permutation(&vec!['c', 'a', 'd'], &vec!['a', 'b', 'c']));
    assert!(all_found(&vec!['a', 'a'], &vec!['a', 'b']));
    assert!(!all_found(&vec!['a', 'c'], &vec!['a', 'b']));
}

#[test]
fn substitute_and_swap() {
    let from = vec!['a', 'b'];
    let to = vec!['x', 'y'];
    assert_eq!(substitute_char(&from, &to, 'a'), 'x');
    assert_eq!(substitute_char(&from, &to, 'b'), 'y');
    assert_eq!(substitute_char(&from, &to, 'c'), 'c');
    let mut s = vec!['a', 'b', 'c'];
    swap(&mut s, 0, 2);
    assert_eq!(s, vec!['c', 'b', 'a']);
    swap(&mut s, 1, 1);
    assert_eq!(s, vec!['c', 'b', 'a']);
}
