use voxplay::library::LibraryIndex;
use voxplay::store::{
    decode_index, encode_index, index_of_pairs, pairs_of, should_rebuild, StoreError,
};

fn pair(title: &str, path: &str) -> (String, String) {
    (title.to_string(), path.to_string())
}

fn beatles() -> LibraryIndex {
    let mut index = LibraryIndex::new();
    index.insert("let it be".to_string(), "/m/b.mp3".to_string());
    index.insert("hey jude".to_string(), "/m/a.mp3".to_string());
    index
}

#[test]
fn encode_index_writes_one_json_object() {
    let bytes = encode_index(&beatles()).ok().unwrap();
    assert_eq!(
        String::from_utf8(bytes).unwrap(),
        "{\"hey jude\":\"/m/a.mp3\",\"let it be\":\"/m/b.mp3\"}"
    );
    assert_eq!(encode_index(&LibraryIndex::new()), Ok(b"{}".to_vec()));
}

#[test]
fn encode_index_escapes_what_json_asks_for() {
    let mut index = LibraryIndex::new();
    index.insert("a\tb".to_string(), "C:\\music\\\"x\".mp3".to_string());
    let bytes = encode_index(&index).ok().unwrap();
    assert_eq!(String::from_utf8(bytes).unwrap(), "{\"a\\tb\":\"C:\\\\music\\\\\\\"x\\\".mp3\"}");
}

#[test]
fn decode_index_reads_the_object_back() {
    let index = decode_index(b" { \"let it be\" : \"/m/b.mp3\", \"hey jude\" : \"/m/a.mp3\" } ")
        .ok()
        .unwrap();
    assert_eq!(pairs_of(&index), vec![pair("hey jude", "/m/a.mp3"), pair("let it be", "/m/b.mp3")]);
}

#[test]
fn decode_index_refuses_what_is_no_object_of_strings() {
    for bad in ["", "[]", "{\"a\":1}", "{\"a\":\"b\"", "null", "{\"a\":\"b\"} x", "{a:\"b\"}"] {
        assert_eq!(decode_index(bad.as_bytes()).err(), Some(StoreError::Decode));
    }
}

#[test]
fn decode_index_keeps_the_last_of_a_repeated_title() {
    let index = decode_index(b"{\"a\":\"one\",\"a\":\"two\"}").ok().unwrap();
    assert_eq!(index.len(), 1);
    assert_eq!(index.get("a"), Some("two"));
}

#[test]
fn stored_index_comes_back_as_it_was() {
    let mut index = beatles();
    index.insert("ÄÖ \"ü\"\n".to_string(), "/m/ü ber.m4a".to_string());
    index.insert("".to_string(), "".to_string());
    let bytes = encode_index(&index).ok().unwrap();
    let back = decode_index(&bytes).ok().unwrap();
    assert_eq!(pairs_of(&back), pairs_of(&index));
    assert_eq!(back.len(), 4);
}

#[test]
fn every_index_can_be_written() {
    let mut index = LibraryIndex::new();
    assert!(encode_index(&index).is_ok());
    for (title, path) in [("", ""), ("\u{0}", "\u{1f}"), ("\\", "\""), ("日本語", "/m/日本語.mp3")] {
        index.insert(title.to_string(), path.to_string());
        assert!(encode_index(&index).is_ok());
    }
}

#[test]
fn pairs_of_lists_the_entries_in_title_order() {
    assert_eq!(pairs_of(&beatles()), vec![pair("hey jude", "/m/a.mp3"), pair("let it be", "/m/b.mp3")]);
    assert_eq!(pairs_of(&LibraryIndex::new()), Vec::new());
}

#[test]
fn index_of_pairs_enters_the_pairs_in_order() {
    let index = index_of_pairs(vec![pair("b", "1"), pair("a", "2"), pair("b", "3")]);
    assert_eq!(pairs_of(&index), vec![pair("a", "2"), pair("b", "3")]);
}

#[test]
fn index_is_rebuilt_when_none_is_stored_or_on_request() {
    assert!(should_rebuild(false, None));
    assert!(should_rebuild(false, Some("reindex")));
    assert!(should_rebuild(false, Some("other")));
    assert!(should_rebuild(true, Some("reindex")));
    assert!(!should_rebuild(true, None));
    assert!(!should_rebuild(true, Some("Reindex")));
    assert!(!should_rebuild(true, Some("")));
}
