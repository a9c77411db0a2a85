use voxplay::library::{accepts_extension, index, rank_titles, LibraryIndex, Rank, ScannedFile};

fn file(path: &str, extension: Option<&str>, title: Option<&str>) -> ScannedFile {
    ScannedFile {
        path: path.to_string(),
        extension: extension.map(|e| e.to_string()),
        title: title.map(|t| t.to_string()),
    }
}

#[test]
fn new_index_is_empty() {
    let index = LibraryIndex::new();
    assert_eq!(index.len(), 0);
    assert!(index.is_empty());
    assert_eq!(index.get("hey jude"), None);
}

#[test]
fn insert_then_get_finds_the_path() {
    let mut index = LibraryIndex::new();
    index.insert("hey jude".to_string(), "a.mp3".to_string());
    index.insert("let it be".to_string(), "b.mp3".to_string());
    assert_eq!(index.len(), 2);
    assert!(!index.is_empty());
    assert_eq!(index.get("hey jude"), Some("a.mp3"));
    assert_eq!(index.get("let it be"), Some("b.mp3"));
    assert_eq!(index.get("hey"), None);
    assert_eq!(index.get("Hey Jude"), None);
}

#[test]
fn insert_of_a_known_title_replaces_its_path() {
    let mut index = LibraryIndex::new();
    index.insert("hey jude".to_string(), "first.mp3".to_string());
    index.insert("let it be".to_string(), "b.mp3".to_string());
    index.insert("hey jude".to_string(), "second.mp3".to_string());
    assert_eq!(index.len(), 2);
    assert_eq!(index.get("hey jude"), Some("second.mp3"));
    assert_eq!(index.get("let it be"), Some("b.mp3"));
}

#[test]
fn listing_is_in_title_order_whatever_the_order_of_insertion() {
    let mut index = LibraryIndex::new();
    for title in ["mango", "apple", "zebra", "app", "", "äpfel", "apple pie"] {
        index.insert(title.to_string(), format!("{title}.mp3"));
    }
    let mut expected = vec!["mango", "apple", "zebra", "app", "", "äpfel", "apple pie"];
    expected.sort();
    assert_eq!(index.len(), expected.len());
    for (at, title) in expected.iter().enumerate() {
        assert_eq!(index.title_at(at), *title);
        assert_eq!(index.path_at(at), format!("{title}.mp3"));
    }
}

#[test]
fn rank_titles_is_the_order_of_str() {
    assert_eq!(rank_titles("a", "b"), Rank::Before);
    assert_eq!(rank_titles("b", "a"), Rank::After);
    assert_eq!(rank_titles("a", "a"), Rank::Same);
    assert_eq!(rank_titles("", ""), Rank::Same);
    assert_eq!(rank_titles("", "a"), Rank::Before);
    assert_eq!(rank_titles("app", "apple"), Rank::Before);
    assert_eq!(rank_titles("apple", "app"), Rank::After);
    assert_eq!(rank_titles("z", "ä"), Rank::Before);
    assert_eq!(rank_titles("a ", "a"), Rank::After);
}

#[test]
fn accepts_extension_knows_four_extensions() {
    for accepted in ["m4a", "m4p", "m4v", "mp3"] {
        assert!(accepts_extension(accepted));
    }
    for refused in ["txt", "MP3", "Mp3", "mp4", "wav", "flac", "", "mp3 ", ".mp3", "m4"] {
        assert!(!accepts_extension(refused));
    }
}

#[test]
fn index_enters_tagged_audio_files_under_their_normalised_title() {
    let files = vec![
        file("/m/a.mp3", Some("mp3"), Some("Hey Jude")),
        file("/m/b.m4a", Some("m4a"), Some("Let It Be!")),
    ];
    let library = index(files);
    assert_eq!(library.len(), 2);
    assert_eq!(library.get("hey jude"), Some("/m/a.mp3"));
    assert_eq!(library.get("let it be"), Some("/m/b.m4a"));
}

#[test]
fn index_skips_files_without_a_title() {
    let files = vec![
        file("/m/untagged.mp3", Some("mp3"), None),
        file("/m/a.mp3", Some("mp3"), Some("Hey Jude")),
        file("/m/also_untagged.m4a", Some("m4a"), None),
    ];
    let library = index(files);
    assert_eq!(library.len(), 1);
    assert_eq!(library.title_at(0), "hey jude");
    assert_eq!(library.path_at(0), "/m/a.mp3");
}

#[test]
fn index_never_includes_a_text_file() {
    let files = vec![
        file("/m/notes.txt", Some("txt"), Some("Hey Jude")),
        file("/m/README", None, Some("Let It Be")),
        file("/m/loud.MP3", Some("MP3"), Some("Help")),
    ];
    let library = index(files);
    assert!(library.is_empty());
    assert_eq!(library.get("hey jude"), None);
}

#[test]
fn index_keeps_the_later_of_two_files_with_one_title() {
    let files = vec![
        file("/m/one.mp3", Some("mp3"), Some("Hey Jude")),
        file("/m/two.mp3", Some("mp3"), Some("hey, jude")),
    ];
    let library = index(files);
    assert_eq!(library.len(), 1);
    assert_eq!(library.get("hey jude"), Some("/m/two.mp3"));
}

#[test]
fn index_of_nothing_is_empty() {
    assert!(index(Vec::new()).is_empty());
}
