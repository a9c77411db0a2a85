use voxplay::library::LibraryIndex;
use voxplay::matcher::{
    best_match, find_best, fuzzy, join_words, play, NoMatch, BEST_PARTIAL, EXACT_MATCH,
    WORD_SCORE,
};

fn beatles() -> LibraryIndex {
    let mut index = LibraryIndex::new();
    index.insert("hey jude".to_string(), "/music/hey_jude.mp3".to_string());
    index.insert("let it be".to_string(), "/music/let_it_be.mp3".to_string());
    index
}

#[test]
fn fuzzy_scores_equal_texts_with_the_sentinel() {
    assert_eq!(fuzzy("hey jude", "hey jude"), i64::MAX);
    assert_eq!(fuzzy("  hey jude\n", "hey jude "), i64::MAX);
    assert_eq!(fuzzy("", ""), i64::MAX);
    assert_eq!(fuzzy(" ", ""), i64::MAX);
    assert_eq!(EXACT_MATCH, i64::MAX);
    assert_eq!(BEST_PARTIAL, i64::MAX - 1);
    assert_eq!(WORD_SCORE, 10);
}

#[test]
fn fuzzy_scores_ten_for_each_shared_word() {
    assert_eq!(fuzzy("hey jude", "hey you"), 10);
    assert_eq!(fuzzy("let it be", "let it bleed"), 20);
    assert_eq!(fuzzy("let it be", "be it let now"), 30);
    assert_eq!(fuzzy("hey jude", "yesterday"), 0);
}

#[test]
fn fuzzy_counts_the_words_of_the_target_with_repetition() {
    assert_eq!(fuzzy("na na na", "na"), 30);
    assert_eq!(fuzzy("na", "na na na"), 10);
}

#[test]
fn fuzzy_compares_whole_words_only() {
    assert_eq!(fuzzy("heyjude", "hey jude"), 0);
    assert_eq!(fuzzy("he", "hey"), 0);
    assert_eq!(fuzzy("Hey", "hey you"), 0);
}

#[test]
fn fuzzy_counts_the_empty_words_between_spaces() {
    assert_eq!(fuzzy("a  b", "c  d"), 10);
    assert_eq!(fuzzy("a ", "b "), 10);
}

#[test]
fn find_best_prefers_the_title_that_shares_words() {
    let index = beatles();
    assert_eq!(find_best("hey jude", &index), Ok("/music/hey_jude.mp3".to_string()));
    assert_eq!(find_best("jude", &index), Ok("/music/hey_jude.mp3".to_string()));
    assert_eq!(find_best("it be", &index), Ok("/music/let_it_be.mp3".to_string()));
}

#[test]
fn find_best_returns_the_exact_title_although_others_share_many_words() {
    let mut index = LibraryIndex::new();
    index.insert("a b c d".to_string(), "long".to_string());
    index.insert("a b c".to_string(), "exact".to_string());
    index.insert("a b c e f".to_string(), "longer".to_string());
    assert_eq!(find_best("a b c", &index), Ok("exact".to_string()));
    assert_eq!(find_best("a b c d", &index), Ok("long".to_string()));
    assert_eq!(find_best("a b c e f", &index), Ok("longer".to_string()));
}

#[test]
fn find_best_breaks_ties_by_title_order() {
    let mut index = LibraryIndex::new();
    index.insert("zebra song".to_string(), "z".to_string());
    index.insert("apple song".to_string(), "a".to_string());
    index.insert("mango song".to_string(), "m".to_string());
    assert_eq!(find_best("song", &index), Ok("a".to_string()));
    assert_eq!(best_match("song", &index), Some(0));
    assert_eq!(find_best("mango", &index), Ok("m".to_string()));
    assert_eq!(best_match("mango", &index), Some(1));
}

#[test]
fn find_best_returns_some_title_even_if_nothing_matches() {
    let index = beatles();
    assert_eq!(find_best("yesterday", &index), Ok("/music/hey_jude.mp3".to_string()));
}

#[test]
fn find_best_fails_on_an_empty_index_only() {
    let index = LibraryIndex::new();
    assert_eq!(find_best("hey jude", &index), Err(NoMatch));
    assert_eq!(best_match("hey jude", &index), None);
    assert!(find_best("", &beatles()).is_ok());
}

#[test]
fn exact_match_between_titles_equal_up_to_whitespace_goes_to_the_first() {
    let mut index = LibraryIndex::new();
    index.insert("a ".to_string(), "second".to_string());
    index.insert("a".to_string(), "first".to_string());
    assert_eq!(find_best("a ", &index), Ok("first".to_string()));
    assert_eq!(find_best("a", &index), Ok("first".to_string()));
}

#[test]
fn join_words_puts_one_space_between_words() {
    assert_eq!(join_words(&vec!["hey", "jude"]), "hey jude");
    assert_eq!(join_words(&vec!["hey"]), "hey");
    assert_eq!(join_words(&Vec::new()), "");
    assert_eq!(join_words(&vec!["a", "", "b"]), "a  b");
}

#[test]
fn play_matches_the_phrase_that_the_words_form() {
    let index = beatles();
    assert_eq!(play(vec!["hey", "jude"], &index), Ok("/music/hey_jude.mp3".to_string()));
    assert_eq!(play(vec!["let", "it"], &index), Ok("/music/let_it_be.mp3".to_string()));
    assert_eq!(play(vec!["hey"], &LibraryIndex::new()), Err(NoMatch));
}
