//! The fuzzy matcher: a cheap bag-of-words score between a spoken phrase and
//! a title, and the choice of the best-scoring title of an index.

use crate::library::{
    listed_at, lookup_finds_each_entry, lookup_is_empty_for_no_entries,
    title_order_is_strict_and_total, title_precedes,
    LibraryIndex,
};
use crate::text::{same_text, split_words, texts, trim, trimmed, words};
use vstd::prelude::*;
use vstd::string::StringExecFns;

verus! {

/// The score of a title that equals the phrase.
pub const EXACT_MATCH: i64 = i64::MAX;

/// What each shared word adds to the score.
pub const WORD_SCORE: i64 = 10;

/// The highest score that shared words alone can reach: one below the score
/// of an exact match.
pub const BEST_PARTIAL: i64 = i64::MAX - 1;

/// The index holds no title, so nothing can be matched.
#[derive(Debug, Clone, Copy, PartialEq, Eq, Structural)]
pub struct NoMatch;

/// How many of the words `ts`, counted with repetition, occur among the
/// words `qs`.
pub open spec fn shared_words(ts: Seq<Seq<char>>, qs: Seq<Seq<char>>) -> nat
    decreases ts.len(),
{
    if ts.len() == 0 {
        0
    } else {
        shared_words(ts.drop_last(), qs) + if qs.contains(ts.last()) {
            1nat
        } else {
            0nat
        }
    }
}

/// The score of `target` against `query`. Equal texts, leading and trailing
/// whitespace aside, score `EXACT_MATCH`. Otherwise every word of `target`
/// that is also a word of `query` adds `WORD_SCORE`, up to `BEST_PARTIAL`, so
/// that an exact match outranks every other.
pub open spec fn match_score(target: Seq<char>, query: Seq<char>) -> int {
    if trimmed(target) == trimmed(query) {
        EXACT_MATCH as int
    } else {
        let partial = WORD_SCORE * shared_words(words(target), words(query));
        if partial <= BEST_PARTIAL {
            partial
        } else {
            BEST_PARTIAL as int
        }
    }
}

fn contains_word(list: &Vec<&str>, word: &str) -> (found: bool)
    ensures
        found == texts(list@).contains(word@),
{
    let mut i: usize = 0;
    while i < list.len()
        invariant
            i <= list@.len(),
            forall|k: int| 0 <= k < i ==> texts(list@)[k] != word@,
        decreases list@.len() - i,
    {
        if same_text(list[i], word) {
            assert(texts(list@)[i as int] == word@);
            return true;
        }
        i += 1;
    }
    false
}

/// Scores `target` against `query`.
pub fn fuzzy(target: &str, query: &str) -> (score: i64)
    ensures
        score == match_score(target@, query@),
{
    if same_text(trim(target), trim(query)) {
        return EXACT_MATCH;
    }
    let target_words = split_words(target);
    let query_words = split_words(query);
    let mut shared: usize = 0;
    let mut i: usize = 0;
    assert(texts(target_words@).take(0) == Seq::<Seq<char>>::empty());
    while i < target_words.len()
        invariant
            i <= target_words@.len(),
            shared <= i,
            shared == shared_words(texts(target_words@).take(i as int), texts(query_words@)),
        decreases target_words@.len() - i,
    {
        let ghost upto = texts(target_words@).take(i + 1);
        assert(upto.drop_last() == texts(target_words@).take(i as int));
        assert(upto.last() == target_words@[i as int]@);
        if contains_word(&query_words, target_words[i]) {
            shared += 1;
        }
        i += 1;
    }
    assert(texts(target_words@).take(i as int) == texts(target_words@));
    if shared as u64 > 922337203685477580 {
        BEST_PARTIAL
    } else {
        WORD_SCORE * (shared as i64)
    }
}

/// `title` is the best match for `query` in `index`: it is in the index, no
/// title scores higher, and of the titles that score as high it is the first
/// in title order.
pub open spec fn is_best(index: Map<Seq<char>, Seq<char>>, query: Seq<char>, title: Seq<char>) -> bool {
    &&& index.contains_key(title)
    &&& forall|other: Seq<char>| #[trigger]
        index.contains_key(other) ==> match_score(other, query) <= match_score(title, query)
    &&& forall|other: Seq<char>| #[trigger]
        index.contains_key(other) && other != title && match_score(other, query) == match_score(
            title,
            query,
        ) ==> title_precedes(title, other)
}

/// There is at most one best match.
pub proof fn best_match_is_unique(
    index: Map<Seq<char>, Seq<char>>,
    query: Seq<char>,
    a: Seq<char>,
    b: Seq<char>,
)
    requires
        is_best(index, query, a),
        is_best(index, query, b),
    ensures
        a == b,
{
    if a != b {
        title_order_is_strict_and_total(a, b);
    }
}

/// The position in the listing of the best match for `query`; `None` if and
/// only if the index is empty.
pub fn best_match(query: &str, index: &LibraryIndex) -> (r: Option<usize>)
    ensures
        match r {
            Some(at) => {
                &&& at < index.listing().len()
                &&& is_best(index@, query@, index.listing()[at as int].0)
                &&& index@[index.listing()[at as int].0] == index.listing()[at as int].1
            },
            None => index.listing().len() == 0,
        },
{
    let n = index.len();
    if n == 0 {
        return None;
    }
    let ghost listing = index.listing();
    let mut best: usize = 0;
    let mut best_score = fuzzy(index.title_at(0), query);
    let mut i: usize = 1;
    while i < n
        invariant
            listing == index.listing(),
            n == listing.len(),
            best < i <= n,
            best_score == match_score(listing[best as int].0, query@),
            forall|k: int| 0 <= k < i ==> match_score(listing[k].0, query@) <= best_score,
            forall|k: int| 0 <= k < best ==> match_score(listing[k].0, query@) < best_score,
        decreases n - i,
    {
        let score = fuzzy(index.title_at(i), query);
        if score > best_score {
            best = i;
            best_score = score;
        }
        i += 1;
    }
    proof {
        let title = listing[best as int].0;
        lookup_finds_each_entry(listing, best as int);
        assert forall|other: Seq<char>| #[trigger] index@.contains_key(other) implies match_score(
            other,
            query@,
        ) <= match_score(title, query@) && (other != title && match_score(other, query@)
            == match_score(title, query@) ==> title_precedes(title, other)) by {
            let k = choose|k: int| listed_at(listing, other, k);
            if other != title && match_score(other, query@) == match_score(title, query@) {
                assert(best < k);
                assert(title_precedes(listing[best as int].0, listing[k].0));
            }
        }
    }
    Some(best)
}

/// Whether `r` is the answer of the matcher to `query`: the path of the best
/// match, or `NoMatch` where the index is empty.
pub open spec fn is_answer(
    index: Map<Seq<char>, Seq<char>>,
    query: Seq<char>,
    r: Result<String, NoMatch>,
) -> bool {
    match r {
        Ok(path) => exists|title: Seq<char>| is_best(index, query, title) && path@ == index[title],
        Err(_) => index.dom() == Set::<Seq<char>>::empty(),
    }
}

/// The path of the title that matches `query` best. Fails only on an empty
/// index: otherwise some title is returned, however poorly it matches.
pub fn find_best(query: &str, index: &LibraryIndex) -> (r: Result<String, NoMatch>)
    ensures
        is_answer(index@, query@, r),
{
    match best_match(query, index) {
        Some(at) => Ok(String::from_str(index.path_at(at))),
        None => {
            proof {
                lookup_is_empty_for_no_entries(index.listing());
            }
            Err(NoMatch)
        },
    }
}

/// The words of `list` put together with one space between each two.
pub open spec fn joined(list: Seq<Seq<char>>) -> Seq<char>
    decreases list.len(),
{
    if list.len() == 0 {
        Seq::empty()
    } else if list.len() == 1 {
        list[0]
    } else {
        joined(list.drop_last()) + seq![' '] + list.last()
    }
}

/// Joins `list` with single spaces.
pub fn join_words(list: &Vec<&str>) -> (phrase: String)
    ensures
        phrase@ == joined(texts(list@)),
{
    let mut phrase = String::new();
    let mut i: usize = 0;
    assert(texts(list@).take(0) == Seq::<Seq<char>>::empty());
    while i < list.len()
        invariant
            i <= list@.len(),
            phrase@ == joined(texts(list@).take(i as int)),
        decreases list@.len() - i,
    {
        let ghost upto = texts(list@).take(i + 1);
        assert(upto.drop_last() == texts(list@).take(i as int));
        assert(upto.last() == list@[i as int]@);
        if i > 0 {
            proof {
                reveal_strlit(" ");
                assert(" "@ == seq![' ']);
            }
            phrase.append(" ");
        } else {
            assert(Seq::<char>::empty() + list@[0]@ == list@[0]@);
        }
        phrase.append(list[i]);
        i += 1;
    }
    assert(texts(list@).take(i as int) == texts(list@));
    phrase
}

/// Finds what to play for the spoken words `words`: the path of the title
/// that best matches the phrase they form.
pub fn play(words: Vec<&str>, index: &LibraryIndex) -> (r: Result<String, NoMatch>)
    ensures
        is_answer(index@, joined(texts(words@)), r),
{
    let title = join_words(&words);
    find_best(title.as_str(), index)
}

/// A title of the index, given as the query, finds its own path, whatever
/// words the other titles share with it. The one proviso: a title that
/// differs from it only by whitespace at the ends, and that comes before it
/// in title order, must lead to the same path, since such a title matches
/// exactly as well.
pub proof fn exact_title_finds_its_path(
    index: Map<Seq<char>, Seq<char>>,
    title: Seq<char>,
    r: Result<String, NoMatch>,
)
    requires
        index.contains_key(title),
        forall|other: Seq<char>| #[trigger]
            index.contains_key(other) && trimmed(other) == trimmed(title) && title_precedes(
                other,
                title,
            ) ==> index[other] == index[title],
        is_answer(index, title, r),
    ensures
        r is Ok,
        r->Ok_0@ == index[title],
{
    match r {
        Ok(path) => {
            let best = choose|best: Seq<char>| is_best(index, title, best) && path@ == index[best];
            assert(match_score(title, title) == EXACT_MATCH);
            assert(match_score(best, title) == EXACT_MATCH);
            if best != title {
                assert(title_precedes(best, title));
            }
        },
        Err(_) => {
            assert(index.dom().contains(title));
        },
    }
}

} // verus!
