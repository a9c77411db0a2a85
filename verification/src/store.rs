//! Keeping the index between runs: the index as JSON text, and the rule that
//! decides when it is built anew.

use crate::library::{sorted, LibraryIndex};
use crate::text::same_text;
use vstd::prelude::*;
use vstd::string::StringExecFns;

verus! {

/// `serde_json::Error`, the error of reading or writing JSON. It is carried
/// through unopened.
#[verifier::external_type_specification]
#[verifier::external_body]
pub struct ExJsonError(serde_json::Error);

/// The JSON text that stands for a list of `(title, path)` pairs: one
/// object with a member for each title.
pub uninterp spec fn json_of(pairs: Seq<(Seq<char>, Seq<char>)>) -> Seq<u8>;

/// The `(title, path)` pairs that a JSON text holds, in title order, or
/// `None` where the text is not a JSON object of strings.
pub uninterp spec fn parsed_json(bytes: Seq<u8>) -> Option<Seq<(Seq<char>, Seq<char>)>>;

/// Why the stored index could not be written or read.
#[derive(Debug, Clone, Copy, PartialEq, Eq, Structural)]
pub enum StoreError {
    /// The index could not be turned into JSON.
    Encode,
    /// The stored bytes are not the JSON of an index.
    Decode,
}

/// The texts of a list of pairs of strings.
pub open spec fn pair_texts(pairs: Seq<(String, String)>) -> Seq<(Seq<char>, Seq<char>)> {
    pairs.map_values(|p: (String, String)| (p.0@, p.1@))
}

/// `serde_json::to_vec` on a map from string to string. The pairs come in
/// title order without a repeated title, so the `BTreeMap` they are handed
/// over in holds each of them, in the same order, and the bytes that come
/// out depend on the pairs alone; the contract names them `json_of`. The
/// call succeeds: writing a map whose keys and values are strings fails only
/// where the writer fails, and the writer is a `Vec<u8>`, which takes every
/// byte.
#[verifier::external_body]
fn to_json(pairs: &Vec<(String, String)>) -> (r: Result<Vec<u8>, serde_json::Error>)
    requires
        sorted(pair_texts(pairs@)),
    ensures
        r is Ok,
        r matches Ok(bytes) ==> bytes@ == json_of(pair_texts(pairs@)),
{
    let map: std::collections::BTreeMap<&str, &str> = pairs.iter().map(
        |p| (p.0.as_str(), p.1.as_str()),
    ).collect();
    serde_json::to_vec(&map)
}

/// `serde_json::from_slice` into a map from string to string, handed out as
/// the list of its pairs in key order. Whether it succeeds, and with which
/// pairs, depends on the bytes alone; the contract names that `parsed_json`.
#[verifier::external_body]
fn from_json(bytes: &[u8]) -> (r: Result<Vec<(String, String)>, serde_json::Error>)
    ensures
        match r {
            Ok(pairs) => parsed_json(bytes@) == Some(pair_texts(pairs@)),
            Err(_) => parsed_json(bytes@) is None,
        },
{
    serde_json::from_slice::<std::collections::BTreeMap<String, String>>(bytes).map(
        |map| map.into_iter().collect(),
    )
}

/// The map that a list of pairs stands for when they are entered one after
/// the other: a title that occurs twice keeps its last path.
pub open spec fn map_of_pairs(pairs: Seq<(Seq<char>, Seq<char>)>) -> Map<Seq<char>, Seq<char>>
    decreases pairs.len(),
{
    if pairs.len() == 0 {
        Map::empty()
    } else {
        map_of_pairs(pairs.drop_last()).insert(pairs.last().0, pairs.last().1)
    }
}

/// The entries of `index` as pairs of strings, in title order.
pub fn pairs_of(index: &LibraryIndex) -> (pairs: Vec<(String, String)>)
    ensures
        pair_texts(pairs@) == index.listing(),
        sorted(index.listing()),
{
    let n = index.len();
    let mut pairs: Vec<(String, String)> = Vec::new();
    let mut i: usize = 0;
    while i < n
        invariant
            n == index.listing().len(),
            i <= n,
            pair_texts(pairs@) == index.listing().take(i as int),
        decreases n - i,
    {
        let ghost before = pair_texts(pairs@);
        let pair = (String::from_str(index.title_at(i)), String::from_str(index.path_at(i)));
        pairs.push(pair);
        assert(pair_texts(pairs@) == before.push(index.listing()[i as int]));
        i += 1;
    }
    assert(index.listing().take(i as int) == index.listing());
    pairs
}

/// The index that holds `pairs`, entered in order.
pub fn index_of_pairs(pairs: Vec<(String, String)>) -> (index: LibraryIndex)
    ensures
        index@ == map_of_pairs(pair_texts(pairs@)),
{
    let ghost all = pairs@;
    let mut index = LibraryIndex::new();
    assert(pair_texts(all).take(0) == Seq::<(Seq<char>, Seq<char>)>::empty());
    for pair in it: pairs
        invariant
            it.seq() == all,
            index@ == map_of_pairs(pair_texts(all).take(it.index() as int)),
    {
        let ghost upto = pair_texts(all).take(it.index() + 1);
        assert(upto.drop_last() == pair_texts(all).take(it.index() as int));
        assert(upto.last() == (pair.0@, pair.1@));
        index.insert(pair.0, pair.1);
    }
    assert(pair_texts(all).take(all.len() as int) == pair_texts(all));
    index
}

/// The index as JSON text: one object whose members are the titles, each
/// with its path. Every index can be written.
pub fn encode_index(index: &LibraryIndex) -> (r: Result<Vec<u8>, StoreError>)
    ensures
        r matches Ok(bytes) && bytes@ == json_of(index.listing()),
{
    let pairs = pairs_of(index);
    match to_json(&pairs) {
        Ok(bytes) => Ok(bytes),
        Err(_) => Err(StoreError::Encode),
    }
}

/// Reads an index back from JSON text. Succeeds exactly on the texts that
/// are a JSON object of strings.
pub fn decode_index(bytes: &[u8]) -> (r: Result<LibraryIndex, StoreError>)
    ensures
        match r {
            Ok(index) => parsed_json(bytes@) matches Some(pairs) && index@ == map_of_pairs(pairs),
            Err(e) => parsed_json(bytes@) is None && e == StoreError::Decode,
        },
{
    match from_json(bytes) {
        Ok(pairs) => Ok(index_of_pairs(pairs)),
        Err(_) => Err(StoreError::Decode),
    }
}

/// Whether the index is built anew at start-up: when none is stored, or
/// when the first argument of the command line is `reindex`.
pub fn should_rebuild(stored: bool, directive: Option<&str>) -> (rebuild: bool)
    ensures
        rebuild == (!stored || (directive matches Some(word) && word@ == "reindex"@)),
{
    if !stored {
        return true;
    }
    match directive {
        Some(word) => same_text(word, "reindex"),
        None => false,
    }
}

} // verus!
