//! Canonical text: the characters of a title or a spoken phrase reduced to
//! lower-case letters and whitespace.

use vstd::prelude::*;
use vstd::utf8::encode_utf8_decode_utf8;

verus! {

/// Whether `c` has the Unicode `Alphabetic` property.
pub uninterp spec fn alphabetic(c: char) -> bool;

/// Whether `c` has the Unicode `White_Space` property.
pub uninterp spec fn whitespace(c: char) -> bool;

/// The lower-case mapping of `c`, one or more characters long.
pub uninterp spec fn lowercase(c: char) -> Seq<char>;

/// `char::is_alphabetic` decides the Unicode `Alphabetic` property; the
/// contract gives that answer the name `alphabetic`.
pub assume_specification[ char::is_alphabetic ](c: char) -> (r: bool)
    ensures
        r == alphabetic(c),
;

/// `char::is_whitespace` decides the Unicode `White_Space` property; the
/// contract gives that answer the name `whitespace`.
pub assume_specification[ char::is_whitespace ](c: char) -> (r: bool)
    ensures
        r == whitespace(c),
;

/// `String::push` appends one character to the end of the string.
pub assume_specification[ String::push ](s: &mut String, c: char)
    ensures
        final(s)@ == old(s)@.push(c),
;

/// `char::to_lowercase` yields the characters of the lower-case mapping of
/// `c`; they are gathered here in the order the iterator gives them, and the
/// contract names that sequence `lowercase`.
#[verifier::external_body]
fn lowercase_of(c: char) -> (r: Vec<char>)
    ensures
        r@ == lowercase(c),
{
    c.to_lowercase().collect()
}

/// A character survives normalisation when it is a letter or whitespace.
pub open spec fn kept(c: char) -> bool {
    alphabetic(c) || whitespace(c)
}

/// What one character contributes to the normalised text.
pub open spec fn normalized_char(c: char) -> Seq<char> {
    if kept(c) {
        lowercase(c)
    } else {
        Seq::empty()
    }
}

/// The normalised form of `s`: every kept character replaced by its
/// lower-case mapping, every other character dropped.
pub open spec fn normalized(s: Seq<char>) -> Seq<char>
    decreases s.len(),
{
    if s.len() == 0 {
        Seq::empty()
    } else {
        normalized(s.drop_last()) + normalized_char(s.last())
    }
}

/// The characters of `s`, in order.
pub fn chars_of(s: &str) -> (v: Vec<char>)
    ensures
        v@ == s@,
{
    let mut v: Vec<char> = Vec::new();
    for c in it: s.chars()
        invariant
            v@ == it.seq().take(it.index() as int),
            it.seq() == s@,
    {
        v.push(c);
    }
    v
}

/// Reduces `text` to its normalised form: letters and whitespace only, each
/// replaced by its lower-case mapping. Never fails; empty input gives empty
/// output.
pub fn normalize(text: &str) -> (out: String)
    ensures
        out@ == normalized(text@),
{
    let mut out = String::new();
    for c in it: text.chars()
        invariant
            it.seq() == text@,
            out@ == normalized(it.seq().take(it.index() as int)),
    {
        let ghost done = it.seq().take(it.index() as int);
        let ghost next = it.seq().take(it.index() + 1);
        assert(next.drop_last() == done && next.last() == c);
        if c.is_alphabetic() || c.is_whitespace() {
            let lower = lowercase_of(c);
            let mut j: usize = 0;
            while j < lower.len()
                invariant
                    j <= lower.len(),
                    out@ == normalized(done) + lower@.take(j as int),
                decreases lower.len() - j,
            {
                out.push(lower[j]);
                assert(lower@.take(j + 1) == lower@.take(j as int).push(lower@[j as int]));
                j += 1;
            }
            assert(lower@.take(j as int) == lower@);
        }
    }
    assert(text@.take(text@.len() as int) == text@);
    out
}

/// `s` without its leading whitespace.
pub open spec fn trimmed_start(s: Seq<char>) -> Seq<char>
    decreases s.len(),
{
    if s.len() > 0 && whitespace(s.first()) {
        trimmed_start(s.drop_first())
    } else {
        s
    }
}

/// `s` without its trailing whitespace.
pub open spec fn trimmed_end(s: Seq<char>) -> Seq<char>
    decreases s.len(),
{
    if s.len() > 0 && whitespace(s.last()) {
        trimmed_end(s.drop_last())
    } else {
        s
    }
}

/// `s` without its leading and trailing whitespace.
pub open spec fn trimmed(s: Seq<char>) -> Seq<char> {
    trimmed_end(trimmed_start(s))
}

proof fn trimmed_start_is_suffix(s: Seq<char>, lo: int)
    requires
        0 <= lo <= s.len(),
        forall|i: int| 0 <= i < lo ==> whitespace(s[i]),
        lo < s.len() ==> !whitespace(s[lo]),
    ensures
        trimmed_start(s) == s.subrange(lo, s.len() as int),
    decreases lo,
{
    if lo == 0 {
        assert(s.subrange(0, s.len() as int) == s);
    } else {
        let rest = s.drop_first();
        assert forall|i: int| 0 <= i < lo - 1 implies whitespace(rest[i]) by {
            assert(rest[i] == s[i + 1]);
        }
        trimmed_start_is_suffix(rest, lo - 1);
        assert(rest.subrange(lo - 1, rest.len() as int) == s.subrange(lo, s.len() as int));
    }
}

proof fn trimmed_end_is_prefix(s: Seq<char>, hi: int)
    requires
        0 <= hi <= s.len(),
        forall|i: int| hi <= i < s.len() ==> whitespace(s[i]),
        0 < hi ==> !whitespace(s[hi - 1]),
    ensures
        trimmed_end(s) == s.subrange(0, hi),
    decreases s.len() - hi,
{
    if hi == s.len() {
        assert(s.subrange(0, s.len() as int) == s);
    } else {
        let rest = s.drop_last();
        trimmed_end_is_prefix(rest, hi);
        assert(rest.subrange(0, hi) == s.subrange(0, hi));
    }
}

/// The part of `s` between its leading and its trailing whitespace.
pub fn trim(s: &str) -> (r: &str)
    ensures
        r@ == trimmed(s@),
{
    let chars = chars_of(s);
    let mut lo: usize = 0;
    while lo < chars.len() && chars[lo].is_whitespace()
        invariant
            lo <= chars@.len(),
            forall|i: int| 0 <= i < lo ==> whitespace(chars@[i]),
        decreases chars@.len() - lo,
    {
        lo += 1;
    }
    let mut hi: usize = chars.len();
    while hi > lo && chars[hi - 1].is_whitespace()
        invariant
            lo <= hi <= chars@.len(),
            forall|i: int| hi <= i < chars@.len() ==> whitespace(chars@[i]),
        decreases hi,
    {
        hi -= 1;
    }
    proof {
        let tail = s@.subrange(lo as int, s@.len() as int);
        trimmed_start_is_suffix(s@, lo as int);
        trimmed_end_is_prefix(tail, hi - lo);
        assert(tail.subrange(0, hi - lo) == s@.subrange(lo as int, hi as int));
    }
    s.substring_char(lo, hi)
}

/// The words of `s`: the stretches between its space characters, in order.
/// A text without a space is one word; two spaces in a row enclose an empty
/// word, and so does a space at either end.
pub open spec fn words(s: Seq<char>) -> Seq<Seq<char>>
    decreases s.len(),
{
    if s.len() == 0 {
        seq![Seq::empty()]
    } else {
        let before = words(s.drop_last());
        if s.last() == ' ' {
            before.push(Seq::empty())
        } else {
            before.drop_last().push(before.last().push(s.last()))
        }
    }
}

/// The texts of a list of string slices.
pub open spec fn texts(slices: Seq<&str>) -> Seq<Seq<char>> {
    slices.map_values(|w: &str| w@)
}

/// There is always at least one word.
pub proof fn words_is_not_empty(s: Seq<char>)
    ensures
        words(s).len() >= 1,
    decreases s.len(),
{
    if s.len() > 0 {
        words_is_not_empty(s.drop_last());
    }
}

/// Splits `s` at every space character.
pub fn split_words(s: &str) -> (parts: Vec<&str>)
    ensures
        texts(parts@) == words(s@),
{
    let chars = chars_of(s);
    let mut parts: Vec<&str> = Vec::new();
    let mut start: usize = 0;
    let mut i: usize = 0;
    assert(s@.take(0).len() == 0);
    assert(texts(parts@) == Seq::<Seq<char>>::empty());
    assert(s@.subrange(0, 0) == Seq::<char>::empty());
    assert(Seq::<Seq<char>>::empty().push(Seq::<char>::empty()) == seq![Seq::<char>::empty()]);
    while i < chars.len()
        invariant
            chars@ == s@,
            start <= i <= s@.len(),
            words(s@.take(i as int)) == texts(parts@).push(s@.subrange(start as int, i as int)),
        decreases s@.len() - i,
    {
        let ghost before = words(s@.take(i as int));
        let ghost listed = texts(parts@);
        assert(s@.take(i + 1).drop_last() == s@.take(i as int));
        assert(s@.take(i + 1).last() == s@[i as int]);
        if chars[i] == ' ' {
            let word = s.substring_char(start, i);
            parts.push(word);
            assert(texts(parts@) == listed.push(word@));
            start = i + 1;
            assert(s@.subrange(start as int, i + 1) == Seq::<char>::empty());
        } else {
            assert(before.drop_last() == listed);
            assert(s@.subrange(start as int, i + 1) == s@.subrange(start as int, i as int).push(
                s@[i as int],
            ));
        }
        i += 1;
    }
    assert(s@.take(i as int) == s@);
    let ghost listed = texts(parts@);
    let word = s.substring_char(start, i);
    parts.push(word);
    assert(texts(parts@) == listed.push(word@));
    parts
}

/// Whether two string slices hold the same text.
pub fn same_text(a: &str, b: &str) -> (same: bool)
    ensures
        same == (a@ == b@),
{
    let x = a.as_bytes();
    let y = b.as_bytes();
    proof {
        encode_utf8_decode_utf8(a@);
        encode_utf8_decode_utf8(b@);
    }
    if x.len() != y.len() {
        return false;
    }
    let mut i: usize = 0;
    while i < x.len()
        invariant
            (a@ == b@) == (x@ == y@),
            x@.len() == y@.len(),
            i <= x@.len(),
            forall|k: int| 0 <= k < i ==> x@[k] == y@[k],
        decreases x@.len() - i,
    {
        if x[i] != y[i] {
            return false;
        }
        i += 1;
    }
    assert(x@ =~= y@);
    true
}

/// A character that normalisation leaves as it is: it is kept, and it is its
/// own lower-case mapping.
pub open spec fn settled(c: char) -> bool {
    kept(c) && lowercase(c) == seq![c]
}

/// A character whose contribution to the normalised text consists of settled
/// characters only.
pub open spec fn folds_cleanly(c: char) -> bool {
    forall|i: int| 0 <= i < normalized_char(c).len() ==> settled(#[trigger] normalized_char(c)[i])
}

/// Whether `c` is settled.
pub fn is_settled(c: char) -> (yes: bool)
    ensures
        yes == settled(c),
{
    if !(c.is_alphabetic() || c.is_whitespace()) {
        return false;
    }
    let lower = lowercase_of(c);
    if lower.len() == 1 && lower[0] == c {
        assert(lower@ =~= seq![c]);
        true
    } else {
        assert(seq![c].len() == 1 && seq![c][0] == c);
        false
    }
}

/// Whether `c` folds cleanly.
pub fn char_folds_cleanly(c: char) -> (yes: bool)
    ensures
        yes == folds_cleanly(c),
{
    if !(c.is_alphabetic() || c.is_whitespace()) {
        return true;
    }
    let lower = lowercase_of(c);
    let mut i: usize = 0;
    while i < lower.len()
        invariant
            i <= lower@.len(),
            lower@ == normalized_char(c),
            forall|k: int| 0 <= k < i ==> settled(#[trigger] lower@[k]),
        decreases lower@.len() - i,
    {
        if !is_settled(lower[i]) {
            return false;
        }
        i += 1;
    }
    true
}

/// Whether every character of `text` folds cleanly, so that normalising
/// `text` a second time changes nothing.
pub fn folds_cleanly_throughout(text: &str) -> (ok: bool)
    ensures
        ok == forall|i: int| 0 <= i < text@.len() ==> folds_cleanly(#[trigger] text@[i]),
        ok ==> normalized(normalized(text@)) == normalized(text@),
{
    let chars = chars_of(text);
    let mut i: usize = 0;
    while i < chars.len()
        invariant
            chars@ == text@,
            i <= text@.len(),
            forall|k: int| 0 <= k < i ==> folds_cleanly(#[trigger] text@[k]),
        decreases text@.len() - i,
    {
        if !char_folds_cleanly(chars[i]) {
            return false;
        }
        i += 1;
    }
    proof {
        normalize_is_idempotent(text@);
    }
    true
}

/// Normalisation distributes over concatenation.
pub proof fn normalized_concat(a: Seq<char>, b: Seq<char>)
    ensures
        normalized(a + b) == normalized(a) + normalized(b),
    decreases b.len(),
{
    if b.len() == 0 {
        assert(a + b == a);
    } else {
        normalized_concat(a, b.drop_last());
        assert((a + b).drop_last() == a + b.drop_last());
        assert((a + b).last() == b.last());
    }
}

/// Text made of settled characters is its own normalised form.
pub proof fn normalized_fixes_settled(s: Seq<char>)
    requires
        forall|i: int| 0 <= i < s.len() ==> settled(#[trigger] s[i]),
    ensures
        normalized(s) == s,
    decreases s.len(),
{
    if s.len() > 0 {
        normalized_fixes_settled(s.drop_last());
        assert(settled(s[s.len() - 1]));
        assert(s.drop_last().push(s.last()) == s);
    }
}

/// Normalising twice gives the same text as normalising once, for every text
/// whose characters fold cleanly.
pub proof fn normalize_is_idempotent(s: Seq<char>)
    requires
        forall|i: int| 0 <= i < s.len() ==> folds_cleanly(#[trigger] s[i]),
    ensures
        normalized(normalized(s)) == normalized(s),
    decreases s.len(),
{
    if s.len() > 0 {
        let head = s.drop_last();
        let tail = normalized_char(s.last());
        normalize_is_idempotent(head);
        normalized_concat(normalized(head), tail);
        assert(folds_cleanly(s[s.len() - 1]));
        normalized_fixes_settled(tail);
    }
}

} // verus!
