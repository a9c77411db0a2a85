use voxplay::text::{
    char_folds_cleanly, chars_of, folds_cleanly_throughout, is_settled, normalize, same_text,
    split_words, trim,
};

#[test]
fn normalize_keeps_letters_and_whitespace_in_lower_case() {
    assert_eq!(normalize("Hey Jude!"), "hey jude");
    assert_eq!(normalize("Let It Be (Remastered 2009)"), "let it be remastered ");
    assert_eq!(normalize("A-B_C.d"), "abcd");
    assert_eq!(normalize("Tab\tand\nline"), "tab\tand\nline");
}

#[test]
fn normalize_drops_digits_and_punctuation_without_replacing_them() {
    assert_eq!(normalize("1999"), "");
    assert_eq!(normalize("9 to 5"), " to ");
    assert_eq!(normalize("rock'n'roll"), "rocknroll");
}

#[test]
fn normalize_of_empty_text_is_empty() {
    assert_eq!(normalize(""), "");
}

#[test]
fn normalize_lower_cases_letters_beyond_ascii() {
    assert_eq!(normalize("ÄÖÜ Straße"), "äöü straße");
    assert_eq!(normalize("ΣΊΣΥΦΟΣ"), "σίσυφοσ");
}

#[test]
fn normalize_twice_is_normalize_once() {
    for raw in ["Hey Jude!", "  Let It Be  ", "ÄÖÜ Straße", "", "42", "play\n", "MiXeD cAsE"] {
        let once = normalize(raw);
        assert_eq!(normalize(&once), once);
    }
}

#[test]
fn normalize_gives_the_full_lower_case_mapping_of_a_letter() {
    // The capital I with a dot above has a lower-case mapping of two
    // characters; the second is a combining mark and no letter.
    let once = normalize("\u{130}");
    assert_eq!(once, "i\u{307}");
    assert_eq!(normalize(&once), "i");
}

#[test]
fn chars_of_lists_the_characters_in_order() {
    assert_eq!(chars_of("aé z"), vec!['a', 'é', ' ', 'z']);
    assert_eq!(chars_of(""), Vec::<char>::new());
}

#[test]
fn trim_removes_whitespace_at_both_ends_only() {
    assert_eq!(trim("  hey jude \n"), "hey jude");
    assert_eq!(trim("hey  jude"), "hey  jude");
    assert_eq!(trim(" \t\n"), "");
    assert_eq!(trim(""), "");
    assert_eq!(trim("\u{a0}né\u{2003}"), "né");
}

#[test]
fn split_words_cuts_at_every_space() {
    assert_eq!(split_words("play hey jude"), vec!["play", "hey", "jude"]);
    assert_eq!(split_words("play"), vec!["play"]);
    assert_eq!(split_words(""), vec![""]);
    assert_eq!(split_words("a  b"), vec!["a", "", "b"]);
    assert_eq!(split_words(" a "), vec!["", "a", ""]);
    assert_eq!(split_words("a\tb c"), vec!["a\tb", "c"]);
    assert_eq!(split_words("né à"), vec!["né", "à"]);
}

#[test]
fn split_words_agrees_with_the_standard_split() {
    for text in ["", " ", "play hey jude", "  two  spaces ", "über alles", "x"] {
        let expected: Vec<&str> = text.split(' ').collect();
        assert_eq!(split_words(text), expected);
        assert_eq!(trim(text), text.trim());
    }
}

#[test]
fn same_text_compares_character_by_character() {
    assert!(same_text("", ""));
    assert!(same_text("hey jude", "hey jude"));
    assert!(same_text("né", "n\u{e9}"));
    assert!(!same_text("hey jude", "hey judf"));
    assert!(!same_text("hey", "hey "));
    assert!(!same_text("", "a"));
    assert!(!same_text("Hey", "hey"));
    assert!(!same_text("e\u{301}", "\u{e9}"));
}

#[test]
fn settled_characters_are_lower_case_letters_and_whitespace() {
    for c in ['a', 'z', 'ß', 'σ', ' ', '\n', '\t'] {
        assert!(is_settled(c));
    }
    for c in ['A', 'Ä', '1', '!', '\u{307}', '\u{130}'] {
        assert!(!is_settled(c));
    }
}

#[test]
fn characters_fold_cleanly_but_for_the_dotted_capital_i() {
    for c in ['a', 'A', 'Ä', 'Σ', ' ', '1', '!', '\u{307}'] {
        assert!(char_folds_cleanly(c));
    }
    assert!(!char_folds_cleanly('\u{130}'));
}

#[test]
fn text_that_folds_cleanly_is_normalised_for_good() {
    for raw in ["Hey Jude!", "  Let It Be  ", "ÄÖÜ Straße", "", "42"] {
        assert!(folds_cleanly_throughout(raw));
        let once = normalize(raw);
        assert_eq!(normalize(&once), once);
    }
    assert!(!folds_cleanly_throughout("\u{130}stanbul"));
}
