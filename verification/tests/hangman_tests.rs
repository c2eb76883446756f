use deet::hangman::{concat_word, is_required, LetterCounts};

fn counts(pairs: &[(char, u32)]) -> LetterCounts {
    let mut t = LetterCounts::new();
    for (c, n) in pairs {
        for _ in 0..*n {
            t.increment(*c);
        }
    }
    t
}

#[test]
fn counting_letters() {
    let mut t = LetterCounts::new();
    assert_eq!(t.get('a'), None);
    t.increment('a');
    t.increment('a');
    t.increment('b');
    assert_eq!(t.get('a'), Some(2));
    assert_eq!(t.get('b'), Some(1));
    assert_eq!(t.get('c'), None);
}

#[test]
fn a_guess_counts_while_occurrences_remain() {
    let ans = counts(&[('a', 2), ('b', 1)]);
    let none_revealed = counts(&[]);
    let one_a = counts(&[('a', 1)]);
    let two_a = counts(&[('a', 2)]);
    assert!(is_required(&none_revealed, &ans, 'a'));
    assert!(is_required(&one_a, &ans, 'a'));
    assert!(!is_required(&two_a, &ans, 'a'));
    assert!(!is_required(&none_revealed, &ans, 'z'));
}

#[test]
fn masked_word_reveals_counted_occurrences() {
    let cur = counts(&[('l', 2), ('e', 1)]);
    let word: Vec<char> = "hello".chars().collect();
    let mut shown: Vec<char> = Vec::new();
    concat_word(&cur, &word, &mut shown);
    let s: String = shown.into_iter().collect();
    assert_eq!(s, "-ell-");
}

#[test]
fn masked_word_runs_out_of_revealed_letters() {
    let cur = counts(&[('l', 1)]);
    let word: Vec<char> = "llama".chars().collect();
    let mut shown: Vec<char> = Vec::new();
    concat_word(&cur, &word, &mut shown);
    let s: String = shown.into_iter().collect();
    assert_eq!(s, "l----");
}
