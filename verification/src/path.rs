//! Paths as sequences of components, and the prefix relation on them.

use crate::text::{
    chars_of, copy_range, find_position, lemma_position, position, same_chars, views,
};
use vstd::prelude::*;

verus! {

/// Pieces that name nothing: the empty piece between two slashes, and
/// the single dot.
pub open spec fn is_skipped(piece: Seq<char>) -> bool {
    piece.len() == 0 || piece == seq!['.']
}

/// The names in a path from index `i` on: its pieces between slashes,
/// without those that name nothing.
pub open spec fn names_from(s: Seq<char>, i: int) -> Seq<Seq<char>>
    decreases s.len() + 1 - i,
{
    if 0 <= i < s.len() {
        proof {
            lemma_position(s, '/', i);
        }
        if is_skipped(s.subrange(i, position(s, '/', i))) {
            names_from(s, position(s, '/', i) + 1)
        } else {
            seq![s.subrange(i, position(s, '/', i))] + names_from(s, position(s, '/', i) + 1)
        }
    } else {
        Seq::empty()
    }
}

/// Whether a path is relative and begins with a single dot.
pub open spec fn leading_dot(s: Seq<char>) -> bool {
    s.len() > 0 && s[0] == '.' && (s.len() == 1 || s[1] == '/')
}

/// What a path begins with, as components: a slash for the root of an
/// absolute path, a dot for a relative path that begins with one,
/// nothing else.
pub open spec fn head(s: Seq<char>) -> Seq<Seq<char>> {
    if s.len() > 0 && s[0] == '/' {
        seq![seq!['/']]
    } else if leading_dot(s) {
        seq![seq!['.']]
    } else {
        Seq::empty()
    }
}

/// The components of a path: its head, then its names. Repeated slashes,
/// a slash at the end and single dots inside the path change nothing.
pub open spec fn components(s: Seq<char>) -> Seq<Seq<char>> {
    head(s) + names_from(s, 0)
}

/// Whether `path` lies at or below `base`: the components of `base` are
/// the first components of `path`. Only whole components match.
pub open spec fn is_path_prefix(base: Seq<char>, path: Seq<char>) -> bool {
    components(base).is_prefix_of(components(path))
}

/// Splits a path into its components.
pub fn path_components(s: &[char]) -> (r: Vec<Vec<char>>)
    ensures
        views(r@) == components(s@),
{
    let mut r: Vec<Vec<char>> = Vec::new();
    if s.len() > 0 && s[0] == '/' {
        let mut root: Vec<char> = Vec::new();
        root.push('/');
        assert(root@ == seq!['/']);
        r.push(root);
    } else if s.len() > 0 && s[0] == '.' && (s.len() == 1 || s[1] == '/') {
        let mut dot: Vec<char> = Vec::new();
        dot.push('.');
        assert(dot@ == seq!['.']);
        r.push(dot);
    }
    assert(views(r@) == head(s@));
    let mut i: usize = 0;
    while i < s.len()
        invariant
            i <= s@.len(),
            components(s@) == views(r@) + names_from(s@, i as int),
        decreases s@.len() - i,
    {
        let e = find_position(s, '/', i);
        let is_dot = e - i == 1 && s[i] == '.';
        assert(is_dot == (s@.subrange(i as int, e as int) == seq!['.'])) by {
            let piece = s@.subrange(i as int, e as int);
            let dot = seq!['.'];
            if is_dot {
                assert(piece =~= dot);
            } else if e - i == 1 {
                assert(piece[0] != dot[0]);
            } else {
                assert(piece.len() != dot.len());
            }
        }
        if e > i && !is_dot {
            let w = copy_range(s, i, e);
            let ghost before = views(r@);
            r.push(w);
            assert(views(r@) == before + seq![s@.subrange(i as int, e as int)]);
        }
        assert(names_from(s@, s@.len() as int + 1) == names_from(s@, s@.len() as int));
        i = if e < s.len() {
            e + 1
        } else {
            e
        };
    }
    assert(names_from(s@, i as int) == Seq::<Seq<char>>::empty());
    assert(views(r@) + Seq::<Seq<char>>::empty() == views(r@));
    r
}

/// Whether the texts of `a` are the first texts of `b`.
pub fn is_prefix_of(a: &[Vec<char>], b: &[Vec<char>]) -> (r: bool)
    ensures
        r == views(a@).is_prefix_of(views(b@)),
{
    if a.len() > b.len() {
        return false;
    }
    let mut i: usize = 0;
    while i < a.len()
        invariant
            a@.len() <= b@.len(),
            i <= a@.len(),
            forall|k: int| 0 <= k < i ==> (#[trigger] a@[k])@ == b@[k]@,
        decreases a@.len() - i,
    {
        if !same_chars(a[i].as_slice(), b[i].as_slice()) {
            assert(views(a@)[i as int] != views(b@).subrange(0, a@.len() as int)[i as int]);
            return false;
        }
        i += 1;
    }
    assert(views(a@) =~= views(b@).subrange(0, a@.len() as int));
    true
}

/// Whether `path` lies at or below the directory `base`.
pub fn path_starts_with(path: &str, base: &str) -> (r: bool)
    ensures
        r == is_path_prefix(base@, path@),
{
    let p = path_components(chars_of(path).as_slice());
    let b = path_components(chars_of(base).as_slice());
    is_prefix_of(b.as_slice(), p.as_slice())
}

} // verus!
