//! Words and lines of a text.

use crate::text::{
    char_is_whitespace, copy_range, find_position, is_whitespace, lemma_position, position, views,
};
use vstd::prelude::*;

verus! {

/// Where the word that starts at `i` ends: the first index at or after `i`
/// that holds a whitespace, or the end of the text.
pub open spec fn word_end(s: Seq<char>, i: int) -> int
    decreases s.len() - i,
{
    if 0 <= i < s.len() && !is_whitespace(s[i]) {
        word_end(s, i + 1)
    } else {
        i
    }
}

/// Where the next word starts: the first index at or after `i` that holds
/// no whitespace, or the end of the text.
pub open spec fn word_start(s: Seq<char>, i: int) -> int
    decreases s.len() - i,
{
    if 0 <= i < s.len() && is_whitespace(s[i]) {
        word_start(s, i + 1)
    } else {
        i
    }
}

/// The words of `s` that start at or after `i`, in order. A word is a
/// maximal run of characters that are not whitespace.
pub open spec fn words_from(s: Seq<char>, i: int) -> Seq<Seq<char>>
    decreases s.len() - i,
{
    let a = word_start(s, i);
    if 0 <= i && a < s.len() {
        proof {
            lemma_word_start(s, i);
            lemma_word_end(s, a);
        }
        seq![s.subrange(a, word_end(s, a))] + words_from(s, word_end(s, a))
    } else {
        Seq::empty()
    }
}

/// The words of a text, in order.
pub open spec fn words(s: Seq<char>) -> Seq<Seq<char>> {
    words_from(s, 0)
}

/// A nonempty text without whitespace.
pub open spec fn is_word(w: Seq<char>) -> bool {
    w.len() > 0 && forall|k: int| 0 <= k < w.len() ==> !is_whitespace(#[trigger] w[k])
}

/// `word_end` stays in range, passes over non-whitespace only and stops at
/// a whitespace or at the end.
pub proof fn lemma_word_end(s: Seq<char>, i: int)
    requires
        0 <= i <= s.len(),
    ensures
        i <= word_end(s, i) <= s.len(),
        forall|k: int| i <= k < word_end(s, i) ==> !is_whitespace(#[trigger] s[k]),
        word_end(s, i) < s.len() ==> is_whitespace(s[word_end(s, i)]),
        i < s.len() && !is_whitespace(s[i]) ==> i < word_end(s, i),
    decreases s.len() - i,
{
    if i < s.len() && !is_whitespace(s[i]) {
        lemma_word_end(s, i + 1);
    }
}

/// `word_start` stays in range, passes over whitespace only and stops at a
/// character that is none, or at the end.
pub proof fn lemma_word_start(s: Seq<char>, i: int)
    requires
        0 <= i <= s.len(),
    ensures
        i <= word_start(s, i) <= s.len(),
        forall|k: int| i <= k < word_start(s, i) ==> is_whitespace(#[trigger] s[k]),
        word_start(s, i) < s.len() ==> !is_whitespace(s[word_start(s, i)]),
    decreases s.len() - i,
{
    if i < s.len() && is_whitespace(s[i]) {
        lemma_word_start(s, i + 1);
    }
}

/// Every word of a text is a word: it is not empty and holds no
/// whitespace.
pub proof fn lemma_words_are_words(s: Seq<char>, i: int)
    requires
        0 <= i <= s.len(),
    ensures
        forall|k: int|
            0 <= k < words_from(s, i).len() ==> is_word(#[trigger] words_from(s, i)[k]),
    decreases s.len() - i,
{
    lemma_word_start(s, i);
    let a = word_start(s, i);
    if a < s.len() {
        lemma_word_end(s, a);
        let b = word_end(s, a);
        lemma_words_are_words(s, b);
        let first = s.subrange(a, b);
        assert(is_word(first)) by {
            assert forall|k: int| 0 <= k < first.len() implies !is_whitespace(
                #[trigger] first[k],
            ) by {
                assert(first[k] == s[a + k]);
            }
        }
        assert forall|k: int| 0 <= k < words_from(s, i).len() implies is_word(
            #[trigger] words_from(s, i)[k],
        ) by {
            if k > 0 {
                assert(words_from(s, i)[k] == words_from(s, b)[k - 1]);
            }
        }
    }
}

/// The index at which the word starting at `i` ends.
pub fn find_word_end(s: &[char], i: usize) -> (j: usize)
    requires
        i <= s@.len(),
    ensures
        j == word_end(s@, i as int),
        i <= j <= s@.len(),
{
    let mut j = i;
    while j < s.len() && !char_is_whitespace(s[j])
        invariant
            i <= j <= s@.len(),
            word_end(s@, i as int) == word_end(s@, j as int),
        decreases s@.len() - j,
    {
        j += 1;
    }
    j
}

/// The index at which the next word starts.
pub fn find_word_start(s: &[char], i: usize) -> (j: usize)
    requires
        i <= s@.len(),
    ensures
        j == word_start(s@, i as int),
        i <= j <= s@.len(),
{
    let mut j = i;
    while j < s.len() && char_is_whitespace(s[j])
        invariant
            i <= j <= s@.len(),
            word_start(s@, i as int) == word_start(s@, j as int),
        decreases s@.len() - j,
    {
        j += 1;
    }
    j
}

/// Splits a text into its words.
pub fn split_words(s: &[char]) -> (r: Vec<Vec<char>>)
    ensures
        views(r@) == words(s@),
{
    let mut r: Vec<Vec<char>> = Vec::new();
    let mut i: usize = 0;
    loop
        invariant
            i <= s@.len(),
            words(s@) == views(r@) + words_from(s@, i as int),
        decreases s@.len() - i,
    {
        let a = find_word_start(s, i);
        if a >= s.len() {
            assert(words_from(s@, i as int) == Seq::<Seq<char>>::empty());
            assert(views(r@) + Seq::<Seq<char>>::empty() == views(r@));
            return r;
        }
        let b = find_word_end(s, a);
        proof {
            lemma_word_end(s@, a as int);
        }
        let w = copy_range(s, a, b);
        let ghost before = views(r@);
        r.push(w);
        assert(views(r@) == before + seq![s@.subrange(a as int, b as int)]);
        i = b;
    }
}

/// The lines of `s` that start at or after `i`. A line ends before a line
/// feed or at the end of the text; nothing follows the last line feed.
pub open spec fn lines_from(s: Seq<char>, i: int) -> Seq<Seq<char>>
    decreases s.len() + 1 - i,
{
    if 0 <= i < s.len() {
        proof {
            lemma_position(s, '\n', i);
        }
        seq![s.subrange(i, position(s, '\n', i))] + lines_from(s, position(s, '\n', i) + 1)
    } else {
        Seq::empty()
    }
}

/// The lines of a text, in order.
pub open spec fn lines(s: Seq<char>) -> Seq<Seq<char>> {
    lines_from(s, 0)
}

/// Splits a text into its lines.
pub fn split_lines(s: &[char]) -> (r: Vec<Vec<char>>)
    ensures
        views(r@) == lines(s@),
{
    let mut r: Vec<Vec<char>> = Vec::new();
    let mut i: usize = 0;
    while i < s.len()
        invariant
            i <= s@.len(),
            lines(s@) == views(r@) + lines_from(s@, i as int),
        decreases s@.len() - i,
    {
        let e = find_position(s, '\n', i);
        let w = copy_range(s, i, e);
        let ghost before = views(r@);
        r.push(w);
        assert(views(r@) == before + seq![s@.subrange(i as int, e as int)]);
        assert(lines_from(s@, s@.len() as int + 1) == lines_from(s@, s@.len() as int));
        i = if e < s.len() {
            e + 1
        } else {
            e
        };
    }
    assert(lines_from(s@, i as int) == Seq::<Seq<char>>::empty());
    assert(views(r@) + Seq::<Seq<char>>::empty() == views(r@));
    r
}

/// Texts put one after the other with a single space between them.
pub open spec fn joined(texts: Seq<Seq<char>>) -> Seq<char>
    decreases texts.len(),
{
    if texts.len() == 0 {
        Seq::empty()
    } else if texts.len() == 1 {
        texts[0]
    } else {
        texts[0] + seq![' '] + joined(texts.drop_first())
    }
}

/// What stands before an index does not change where words start and end
/// after it.
pub proof fn lemma_word_bounds_shift(a: Seq<char>, b: Seq<char>, i: int)
    requires
        0 <= i <= b.len(),
    ensures
        word_end(a + b, a.len() + i) == a.len() + word_end(b, i),
        word_start(a + b, a.len() + i) == a.len() + word_start(b, i),
    decreases b.len() - i,
{
    if i < b.len() {
        assert((a + b)[a.len() + i] == b[i]);
        lemma_word_bounds_shift(a, b, i + 1);
    }
}

/// What stands before an index does not change the words after it.
pub proof fn lemma_words_shift(a: Seq<char>, b: Seq<char>, i: int)
    requires
        0 <= i <= b.len(),
    ensures
        words_from(a + b, a.len() + i) == words_from(b, i),
    decreases b.len() - i,
{
    let s = a + b;
    lemma_word_bounds_shift(a, b, i);
    lemma_word_start(b, i);
    let start = word_start(b, i);
    if start < b.len() {
        lemma_word_bounds_shift(a, b, start);
        lemma_word_end(b, start);
        let end = word_end(b, start);
        lemma_words_shift(a, b, end);
        assert(s.subrange(a.len() + start, a.len() + end) == b.subrange(start, end));
    }
}

/// A word ends where the text after it begins, if that text does not go
/// on with the word.
pub proof fn lemma_word_end_of_word(w: Seq<char>, rest: Seq<char>, i: int)
    requires
        is_word(w),
        0 <= i <= w.len(),
        rest.len() == 0 || is_whitespace(rest[0]),
    ensures
        word_end(w + rest, i) == w.len(),
    decreases w.len() - i,
{
    if i < w.len() {
        assert((w + rest)[i] == w[i]);
        lemma_word_end_of_word(w, rest, i + 1);
    } else if rest.len() > 0 {
        assert((w + rest)[i] == rest[0]);
    }
}

/// A word is its own only word.
pub proof fn lemma_words_of_word(w: Seq<char>)
    requires
        is_word(w),
    ensures
        words(w) == seq![w],
{
    lemma_word_end_of_word(w, Seq::empty(), 0);
    assert(w + Seq::<char>::empty() == w);
    assert(w.subrange(0, w.len() as int) == w);
    assert(words_from(w, w.len() as int) == Seq::<Seq<char>>::empty());
    assert(word_start(w, 0) == 0);
}

/// Words joined by single spaces are the words of the text they make.
pub proof fn lemma_words_of_joined(texts: Seq<Seq<char>>)
    requires
        forall|k: int| 0 <= k < texts.len() ==> is_word(#[trigger] texts[k]),
    ensures
        words(joined(texts)) == texts,
    decreases texts.len(),
{
    if texts.len() == 0 {
        assert(words(joined(texts)) =~= texts);
    } else if texts.len() == 1 {
        lemma_words_of_word(texts[0]);
        assert(seq![texts[0]] =~= texts);
    } else {
        let w = texts[0];
        let tail = texts.drop_first();
        let rest = seq![' '] + joined(tail);
        let s = joined(texts);
        assert(is_word(w));
        assert forall|k: int| 0 <= k < tail.len() implies is_word(#[trigger] tail[k]) by {
            assert(tail[k] == texts[k + 1]);
        }
        lemma_words_of_joined(tail);
        assert(s == w + rest);
        assert(rest[0] == ' ');
        lemma_word_end_of_word(w, rest, 0);
        assert(s[0] == w[0]);
        assert(word_start(s, 0) == 0);
        assert(s.subrange(0, w.len() as int) == w);
        // the words after the first are those of the rest
        let head = w + seq![' '];
        assert(s == head + joined(tail));
        lemma_words_shift(head, joined(tail), 0);
        assert(s[w.len() as int] == ' ');
        let n = w.len() as int;
        assert(word_start(s, n) == word_start(s, n + 1));
        assert(words_from(s, n) == words_from(s, n + 1)) by {
            lemma_word_start(s, n + 1);
        }
        assert(words(s) == seq![w] + words(joined(tail)));
        assert(seq![w] + tail =~= texts);
    }
}

} // verus!
