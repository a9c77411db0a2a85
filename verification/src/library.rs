//! The library index: a map from normalised titles to file paths, kept in
//! title order, and the rules by which scanned files enter it.

use crate::text::{normalize, normalized, same_text};
use vstd::prelude::*;
use vstd::utf8::{encode_utf8, encode_utf8_decode_utf8};

verus! {

/// How one text stands to another in the order of the index.
#[derive(Debug, Clone, Copy, PartialEq, Eq, Structural)]
pub enum Rank {
    Before,
    Same,
    After,
}

/// The strict lexicographic order on byte strings: `a` comes before `b` when
/// it is a proper prefix of `b`, or holds the smaller byte at the first
/// position where the two differ.
pub open spec fn precedes(a: Seq<u8>, b: Seq<u8>) -> bool
    decreases a.len(),
{
    if b.len() == 0 {
        false
    } else if a.len() == 0 {
        true
    } else if a.first() != b.first() {
        a.first() < b.first()
    } else {
        precedes(a.drop_first(), b.drop_first())
    }
}

/// No byte string comes before itself.
pub proof fn precedes_is_irreflexive(a: Seq<u8>)
    ensures
        !precedes(a, a),
    decreases a.len(),
{
    if a.len() > 0 {
        precedes_is_irreflexive(a.drop_first());
    }
}

/// What comes before something that comes before `c` comes before `c`.
pub proof fn precedes_is_transitive(a: Seq<u8>, b: Seq<u8>, c: Seq<u8>)
    requires
        precedes(a, b),
        precedes(b, c),
    ensures
        precedes(a, c),
    decreases a.len(),
{
    if a.len() > 0 && a.first() == b.first() && b.first() == c.first() {
        precedes_is_transitive(a.drop_first(), b.drop_first(), c.drop_first());
    }
}

/// Of two different byte strings one comes before the other.
pub proof fn precedes_is_total(a: Seq<u8>, b: Seq<u8>)
    ensures
        a == b || precedes(a, b) || precedes(b, a),
    decreases a.len(),
{
    if a.len() > 0 && b.len() > 0 && a.first() == b.first() {
        precedes_is_total(a.drop_first(), b.drop_first());
        if a.drop_first() == b.drop_first() {
            assert(a == seq![a.first()] + a.drop_first());
            assert(b == seq![b.first()] + b.drop_first());
        }
    } else if a.len() == 0 && b.len() == 0 {
        assert(a == b);
    }
}

/// The order of titles in the index: the lexicographic order of their UTF-8
/// encodings, which is the order of `str`.
pub open spec fn title_precedes(a: Seq<char>, b: Seq<char>) -> bool {
    precedes(encode_utf8(a), encode_utf8(b))
}

/// How title `a` stands to title `b`.
pub open spec fn rank_of(a: Seq<char>, b: Seq<char>) -> Rank {
    if a == b {
        Rank::Same
    } else if title_precedes(a, b) {
        Rank::Before
    } else {
        Rank::After
    }
}

/// Different titles have different encodings, so the order of titles is
/// strict and total: exactly one of "before", "same" and "after" holds.
pub proof fn title_order_is_strict_and_total(a: Seq<char>, b: Seq<char>)
    ensures
        !title_precedes(a, a),
        a != b ==> (title_precedes(a, b) <==> !title_precedes(b, a)),
{
    precedes_is_irreflexive(encode_utf8(a));
    if a != b {
        encode_utf8_decode_utf8(a);
        encode_utf8_decode_utf8(b);
        precedes_is_total(encode_utf8(a), encode_utf8(b));
        if title_precedes(a, b) && title_precedes(b, a) {
            precedes_is_transitive(encode_utf8(a), encode_utf8(b), encode_utf8(a));
        }
    }
}

/// The title order is transitive.
pub proof fn title_order_is_transitive(a: Seq<char>, b: Seq<char>, c: Seq<char>)
    requires
        title_precedes(a, b),
        title_precedes(b, c),
    ensures
        title_precedes(a, c),
{
    precedes_is_transitive(encode_utf8(a), encode_utf8(b), encode_utf8(c));
}

fn rank_bytes(a: &[u8], b: &[u8]) -> (r: Rank)
    ensures
        match r {
            Rank::Before => precedes(a@, b@),
            Rank::Same => a@ == b@,
            Rank::After => precedes(b@, a@),
        },
{
    let mut i: usize = 0;
    assert(a@.skip(0) == a@ && b@.skip(0) == b@);
    while i < a.len() && i < b.len()
        invariant
            i <= a@.len(),
            i <= b@.len(),
            a@.take(i as int) == b@.take(i as int),
            precedes(a@, b@) == precedes(a@.skip(i as int), b@.skip(i as int)),
            precedes(b@, a@) == precedes(b@.skip(i as int), a@.skip(i as int)),
        decreases a@.len() - i,
    {
        let ghost ra = a@.skip(i as int);
        let ghost rb = b@.skip(i as int);
        assert(ra.first() == a@[i as int] && rb.first() == b@[i as int]);
        if a[i] < b[i] {
            return Rank::Before;
        }
        if b[i] < a[i] {
            return Rank::After;
        }
        assert(ra.drop_first() == a@.skip(i + 1));
        assert(rb.drop_first() == b@.skip(i + 1));
        assert(a@.take(i + 1) == a@.take(i as int).push(a@[i as int]));
        assert(b@.take(i + 1) == b@.take(i as int).push(b@[i as int]));
        i += 1;
    }
    if i < b.len() {
        Rank::Before
    } else if i < a.len() {
        Rank::After
    } else {
        assert(a@.take(i as int) == a@ && b@.take(i as int) == b@);
        Rank::Same
    }
}

/// Compares two titles in the order of the index.
pub fn rank_titles(a: &str, b: &str) -> (r: Rank)
    ensures
        r == rank_of(a@, b@),
{
    let r = rank_bytes(a.as_bytes(), b.as_bytes());
    proof {
        title_order_is_strict_and_total(a@, b@);
        title_order_is_strict_and_total(b@, a@);
    }
    r
}

/// The titles of a listing come in strictly rising order, so no title
/// occurs twice.
pub open spec fn sorted(listing: Seq<(Seq<char>, Seq<char>)>) -> bool {
    forall|i: int, j: int|
        #![trigger listing[i], listing[j]]
        0 <= i < j < listing.len() ==> title_precedes(listing[i].0, listing[j].0)
}

/// Whether `title` is the title of the entry at position `at`.
pub open spec fn listed_at(listing: Seq<(Seq<char>, Seq<char>)>, title: Seq<char>, at: int) -> bool {
    0 <= at < listing.len() && listing[at].0 == title
}

/// The map that a listing of `(title, path)` pairs stands for.
pub open spec fn lookup(listing: Seq<(Seq<char>, Seq<char>)>) -> Map<Seq<char>, Seq<char>> {
    Map::new(
        |title: Seq<char>| exists|at: int| listed_at(listing, title, at),
        |title: Seq<char>| listing[choose|at: int| listed_at(listing, title, at)].1,
    )
}

/// A listing stands for the empty map exactly when it has no entry.
pub proof fn lookup_is_empty_for_no_entries(listing: Seq<(Seq<char>, Seq<char>)>)
    ensures
        (listing.len() == 0) == (lookup(listing).dom() == Set::<Seq<char>>::empty()),
{
    if listing.len() > 0 {
        assert(listed_at(listing, listing[0].0, 0));
        assert(lookup(listing).dom().contains(listing[0].0));
    } else {
        assert(lookup(listing).dom() == Set::<Seq<char>>::empty());
    }
}

/// In a sorted listing every entry is found under its title.
pub proof fn lookup_finds_each_entry(listing: Seq<(Seq<char>, Seq<char>)>, at: int)
    requires
        sorted(listing),
        0 <= at < listing.len(),
    ensures
        lookup(listing).contains_key(listing[at].0),
        lookup(listing)[listing[at].0] == listing[at].1,
{
    let title = listing[at].0;
    assert(listed_at(listing, title, at));
    let found = choose|k: int| listed_at(listing, title, k);
    title_order_is_strict_and_total(title, title);
    if found < at {
        assert(title_precedes(listing[found].0, listing[at].0));
    } else if at < found {
        assert(title_precedes(listing[at].0, listing[found].0));
    }
}

/// Putting a new title at its place in a sorted listing keeps the listing
/// sorted and adds the title to the map.
proof fn lookup_after_insertion(
    listing: Seq<(Seq<char>, Seq<char>)>,
    at: int,
    title: Seq<char>,
    path: Seq<char>,
)
    requires
        sorted(listing),
        0 <= at <= listing.len(),
        forall|k: int| 0 <= k < at ==> title_precedes(listing[k].0, title),
        forall|k: int| at <= k < listing.len() ==> title_precedes(title, listing[k].0),
    ensures
        sorted(listing.insert(at, (title, path))),
        lookup(listing.insert(at, (title, path))) == lookup(listing).insert(title, path),
{
    let grown = listing.insert(at, (title, path));
    assert(sorted(grown)) by {
        assert forall|i: int, j: int| 0 <= i < j < grown.len() implies title_precedes(
            grown[i].0,
            grown[j].0,
        ) by {
            let oi = if i < at { i } else { i - 1 };
            let oj = if j < at { j } else { j - 1 };
            if i != at && j != at {
                assert(grown[i] == listing[oi] && grown[j] == listing[oj]);
            } else if i == at {
                assert(grown[j] == listing[oj]);
            } else {
                assert(grown[i] == listing[oi]);
            }
        }
    }
    assert forall|key: Seq<char>|
        lookup(grown).contains_key(key) <==> #[trigger] lookup(listing).insert(
            title,
            path,
        ).contains_key(key) by {
        if lookup(grown).contains_key(key) {
            let k = choose|k: int| listed_at(grown, key, k);
            if k != at {
                let ok = if k < at { k } else { k - 1 };
                assert(listed_at(listing, key, ok));
            }
        }
        if lookup(listing).contains_key(key) {
            let k = choose|k: int| listed_at(listing, key, k);
            let nk = if k < at { k } else { k + 1 };
            assert(listed_at(grown, key, nk));
        }
        if key == title {
            assert(listed_at(grown, key, at));
        }
    }
    assert forall|key: Seq<char>| #[trigger] lookup(grown).contains_key(key) implies lookup(
        grown,
    )[key] == lookup(listing).insert(title, path)[key] by {
        let k = choose|k: int| listed_at(grown, key, k);
        lookup_finds_each_entry(grown, k);
        if k != at {
            let ok = if k < at { k } else { k - 1 };
            assert(grown[k] == listing[ok]);
            lookup_finds_each_entry(listing, ok);
            title_order_is_strict_and_total(title, title);
            assert(key != title);
        }
    }
    assert(lookup(grown) =~= lookup(listing).insert(title, path));
}

/// Giving a listed title a new path keeps the listing sorted and replaces
/// the path in the map.
proof fn lookup_after_replacement(
    listing: Seq<(Seq<char>, Seq<char>)>,
    at: int,
    title: Seq<char>,
    path: Seq<char>,
)
    requires
        sorted(listing),
        0 <= at < listing.len(),
        listing[at].0 == title,
    ensures
        sorted(listing.update(at, (title, path))),
        lookup(listing.update(at, (title, path))) == lookup(listing).insert(title, path),
{
    let changed = listing.update(at, (title, path));
    assert(sorted(changed)) by {
        assert forall|i: int, j: int| 0 <= i < j < changed.len() implies title_precedes(
            changed[i].0,
            changed[j].0,
        ) by {
            assert(changed[i].0 == listing[i].0 && changed[j].0 == listing[j].0);
        }
    }
    assert forall|key: Seq<char>|
        lookup(changed).contains_key(key) <==> #[trigger] lookup(listing).insert(
            title,
            path,
        ).contains_key(key) by {
        if lookup(changed).contains_key(key) {
            let k = choose|k: int| listed_at(changed, key, k);
            assert(listed_at(listing, key, k));
        }
        if lookup(listing).contains_key(key) {
            let k = choose|k: int| listed_at(listing, key, k);
            assert(listed_at(changed, key, k));
        }
        if key == title {
            assert(listed_at(changed, key, at));
        }
    }
    assert forall|key: Seq<char>| #[trigger] lookup(changed).contains_key(key) implies lookup(
        changed,
    )[key] == lookup(listing).insert(title, path)[key] by {
        let k = choose|k: int| listed_at(changed, key, k);
        lookup_finds_each_entry(changed, k);
        if k != at {
            lookup_finds_each_entry(listing, k);
            title_order_is_strict_and_total(title, title);
            if k < at {
                assert(title_precedes(listing[k].0, listing[at].0));
            } else {
                assert(title_precedes(listing[at].0, listing[k].0));
            }
            assert(key != title);
        }
    }
    assert(lookup(changed) =~= lookup(listing).insert(title, path));
}

struct Entry {
    title: String,
    path: String,
}

spec fn listing_of(entries: Seq<Entry>) -> Seq<(Seq<char>, Seq<char>)> {
    entries.map_values(|e: Entry| (e.title@, e.path@))
}

/// A searchable index of a music library: each normalised title leads to
/// the path of one file.
pub struct LibraryIndex {
    entries: Vec<Entry>,
}

impl View for LibraryIndex {
    type V = Map<Seq<char>, Seq<char>>;

    /// The index as a map from title to path.
    open spec fn view(&self) -> Map<Seq<char>, Seq<char>> {
        lookup(self.listing())
    }
}

impl LibraryIndex {
    #[verifier::type_invariant]
    spec fn in_order(&self) -> bool {
        sorted(self.listing())
    }

    /// The entries of the index as `(title, path)` pairs, in title order.
    pub closed spec fn listing(&self) -> Seq<(Seq<char>, Seq<char>)> {
        listing_of(self.entries@)
    }

    /// An index without entries.
    pub fn new() -> (index: LibraryIndex)
        ensures
            index.listing() == Seq::<(Seq<char>, Seq<char>)>::empty(),
            index@ == Map::<Seq<char>, Seq<char>>::empty(),
    {
        let index = LibraryIndex { entries: Vec::new() };
        assert(index.listing() == Seq::<(Seq<char>, Seq<char>)>::empty());
        assert(index@ == Map::<Seq<char>, Seq<char>>::empty());
        index
    }

    /// The number of titles in the index.
    pub fn len(&self) -> (n: usize)
        ensures
            n == self.listing().len(),
            sorted(self.listing()),
    {
        proof {
            use_type_invariant(self);
        }
        self.entries.len()
    }

    /// Whether the index holds no title.
    pub fn is_empty(&self) -> (empty: bool)
        ensures
            empty == (self.listing().len() == 0),
            empty == (self@.dom() == Set::<Seq<char>>::empty()),
    {
        proof {
            lookup_is_empty_for_no_entries(self.listing());
        }
        self.entries.len() == 0
    }

    /// The title of the entry at position `at` of the listing.
    pub fn title_at(&self, at: usize) -> (title: &str)
        requires
            at < self.listing().len(),
        ensures
            title@ == self.listing()[at as int].0,
    {
        self.entries[at].title.as_str()
    }

    /// The path of the entry at position `at` of the listing.
    pub fn path_at(&self, at: usize) -> (path: &str)
        requires
            at < self.listing().len(),
        ensures
            path@ == self.listing()[at as int].1,
    {
        self.entries[at].path.as_str()
    }

    /// Where `title` stands in the listing: the position of its entry and
    /// `true` if it is listed, else the position at which it would have to be
    /// put and `false`.
    fn locate(&self, title: &str) -> (r: (usize, bool))
        ensures
            r.0 <= self.listing().len(),
            sorted(self.listing()),
            forall|k: int| 0 <= k < r.0 ==> title_precedes(self.listing()[k].0, title@),
            r.1 ==> r.0 < self.listing().len() && self.listing()[r.0 as int].0 == title@,
            !r.1 ==> forall|k: int|
                r.0 <= k < self.listing().len() ==> title_precedes(title@, self.listing()[k].0),
    {
        proof {
            use_type_invariant(self);
        }
        let ghost listing = self.listing();
        let mut at: usize = 0;
        while at < self.entries.len()
            invariant
                at <= listing.len(),
                listing == self.listing(),
                listing.len() == self.entries@.len(),
                sorted(listing),
                forall|k: int| 0 <= k < at ==> title_precedes(listing[k].0, title@),
            decreases listing.len() - at,
        {
            let here = self.entries[at].title.as_str();
            assert(here@ == listing[at as int].0);
            match rank_titles(here, title) {
                Rank::Before => {
                    at += 1;
                },
                Rank::Same => {
                    return (at, true);
                },
                Rank::After => {
                    proof {
                        title_order_is_strict_and_total(here@, title@);
                        assert forall|k: int| at <= k < listing.len() implies title_precedes(
                            title@,
                            listing[k].0,
                        ) by {
                            if k > at {
                                assert(title_precedes(listing[at as int].0, listing[k].0));
                                title_order_is_transitive(title@, here@, listing[k].0);
                            }
                        }
                    }
                    return (at, false);
                },
            }
        }
        (at, false)
    }

    /// The path that `title` leads to, if the title is in the index.
    pub fn get(&self, title: &str) -> (r: Option<&str>)
        ensures
            match r {
                Some(path) => self@.contains_key(title@) && self@[title@] == path@,
                None => !self@.contains_key(title@),
            },
    {
        let (at, found) = self.locate(title);
        if found {
            proof {
                lookup_finds_each_entry(self.listing(), at as int);
            }
            Some(self.entries[at].path.as_str())
        } else {
            proof {
                title_order_is_strict_and_total(title@, title@);
                assert forall|k: int| !listed_at(self.listing(), title@, k) by {
                    if 0 <= k < at {
                        assert(title_precedes(self.listing()[k].0, title@));
                    } else if at <= k < self.listing().len() {
                        assert(title_precedes(title@, self.listing()[k].0));
                    }
                }
            }
            None
        }
    }

    /// Records that `title` leads to `path`. A title that is already in the
    /// index gets the new path: of two files with the same normalised title
    /// the one indexed last is kept.
    pub fn insert(&mut self, title: String, path: String)
        ensures
            final(self)@ == old(self)@.insert(title@, path@),
    {
        let (at, found) = self.locate(title.as_str());
        let ghost before = self.listing();
        let ghost pair = (title@, path@);
        let entry = Entry { title, path };
        let mut entries: Vec<Entry> = Vec::new();
        assert(listing_of(entries@).len() == 0);
        std::mem::swap(&mut self.entries, &mut entries);
        if found {
            proof {
                lookup_after_replacement(before, at as int, pair.0, pair.1);
                assert(listing_of(entries@.update(at as int, entry)) == before.update(
                    at as int,
                    pair,
                ));
            }
            entries.set(at, entry);
        } else {
            proof {
                lookup_after_insertion(before, at as int, pair.0, pair.1);
                assert(listing_of(entries@.insert(at as int, entry)) == before.insert(
                    at as int,
                    pair,
                ));
            }
            entries.insert(at, entry);
        }
        self.entries = entries;
    }
}

/// The extensions of the files that are indexed.
pub open spec fn accepted_extension(extension: Seq<char>) -> bool {
    extension == "m4a"@ || extension == "m4p"@ || extension == "m4v"@ || extension == "mp3"@
}

/// Whether a file with this extension is indexed. Letter case counts.
pub fn accepts_extension(extension: &str) -> (accepted: bool)
    ensures
        accepted == accepted_extension(extension@),
{
    same_text(extension, "m4a") || same_text(extension, "m4p") || same_text(extension, "m4v")
        || same_text(extension, "mp3")
}

/// Text files are not indexed.
pub proof fn text_extension_is_refused()
    ensures
        !accepted_extension("txt"@),
{
    reveal_strlit("txt");
    reveal_strlit("m4a");
    reveal_strlit("m4p");
    reveal_strlit("m4v");
    reveal_strlit("mp3");
    assert("txt"@[0] == 't');
    assert("m4a"@[0] == 'm' && "m4p"@[0] == 'm' && "m4v"@[0] == 'm' && "mp3"@[0] == 'm');
}

/// What the scan of the library found of one regular file.
pub struct ScannedFile {
    /// Where the file is.
    pub path: String,
    /// The extension of its name, if it has one.
    pub extension: Option<String>,
    /// The title in its tags, if one could be read.
    pub title: Option<String>,
}

/// A file enters the index when its extension is accepted and a title was
/// read from its tags.
pub open spec fn admitted(file: ScannedFile) -> bool {
    &&& file.title is Some
    &&& file.extension matches Some(extension) && accepted_extension(extension@)
}

/// The index of a scan: the admitted files, taken in order, each under its
/// normalised title. Where two of them share a normalised title the later
/// one is kept.
pub open spec fn indexed(files: Seq<ScannedFile>) -> Map<Seq<char>, Seq<char>>
    decreases files.len(),
{
    if files.len() == 0 {
        Map::empty()
    } else if admitted(files.last()) {
        indexed(files.drop_last()).insert(normalized(files.last().title->0@), files.last().path@)
    } else {
        indexed(files.drop_last())
    }
}

/// Builds the index of a library from what the scan found of its files.
/// Files without an accepted extension or without a readable title are
/// passed over; no file makes the build fail.
pub fn index(files: Vec<ScannedFile>) -> (library: LibraryIndex)
    ensures
        library@ == indexed(files@),
{
    let ghost all = files@;
    let mut library = LibraryIndex::new();
    assert(all.take(0) == Seq::<ScannedFile>::empty());
    for file in it: files
        invariant
            it.seq() == all,
            library@ == indexed(all.take(it.index() as int)),
    {
        assert(all.take(it.index() + 1).drop_last() == all.take(it.index() as int));
        assert(all.take(it.index() + 1).last() == file);
        match (file.extension, file.title) {
            (Some(extension), Some(title)) => {
                if accepts_extension(extension.as_str()) {
                    library.insert(normalize(title.as_str()), file.path);
                }
            },
            _ => {},
        }
    }
    assert(all.take(all.len() as int) == all);
    library
}

/// Whether the file at position `at` is the one from which the index has
/// the entry for `title`: the last admitted file with that normalised title.
pub open spec fn is_source(files: Seq<ScannedFile>, title: Seq<char>, at: int) -> bool {
    &&& 0 <= at < files.len()
    &&& admitted(files[at])
    &&& normalized(files[at].title->0@) == title
    &&& forall|later: int|
        at < later < files.len() && admitted(files[later]) ==> normalized(
            #[trigger] files[later].title->0@,
        ) != title
}

/// Every title of the index is the normalised title of a file that has an
/// accepted extension and a readable title, and leads to the path of the
/// last such file.
pub proof fn indexed_titles_have_a_source(files: Seq<ScannedFile>, title: Seq<char>)
    requires
        indexed(files).contains_key(title),
    ensures
        exists|at: int| is_source(files, title, at) && indexed(files)[title] == files[at].path@,
    decreases files.len(),
{
    let last = files.len() - 1;
    if admitted(files.last()) && normalized(files.last().title->0@) == title {
        assert(is_source(files, title, last));
    } else {
        let head = files.drop_last();
        indexed_titles_have_a_source(head, title);
        let at = choose|at: int| is_source(head, title, at) && indexed(head)[title] == head[at].path@;
        assert(files[at] == head[at]);
        assert forall|later: int|
            at < later < files.len() && admitted(files[later]) implies normalized(
            #[trigger] files[later].title->0@,
        ) != title by {
            if later < last {
                assert(files[later] == head[later]);
            }
        }
        assert(is_source(files, title, at));
    }
}

/// A file without a readable title, or with an extension that is not
/// accepted, leaves no trace: the index is the one of the scan without it.
pub proof fn unadmitted_file_leaves_no_trace(files: Seq<ScannedFile>, at: int)
    requires
        0 <= at < files.len(),
        !admitted(files[at]),
    ensures
        indexed(files) == indexed(files.remove(at)),
    decreases files.len(),
{
    if at == files.len() - 1 {
        assert(files.remove(at) == files.drop_last());
    } else {
        unadmitted_file_leaves_no_trace(files.drop_last(), at);
        assert(files.remove(at).drop_last() == files.drop_last().remove(at));
        assert(files.remove(at).last() == files.last());
    }
}

} // verus!
