//! A slash-separated path, modelled as an absoluteness flag and its
//! non-empty components. The destination resolver works entirely on this
//! representation.

use vstd::prelude::*;
use crate::strutil::{spec_segments, split_segments, starts_with, spec_starts_with};

verus! {

/// A path: whether it is anchored at the filesystem root, and its
/// components in order. Empty components carry no meaning and are never
/// stored.
#[derive(Debug, PartialEq, Eq)]
pub struct FilePath {
    pub absolute: bool,
    pub segments: Vec<String>,
}

/// The mathematical model of a [`FilePath`].
pub ghost struct PathModel {
    pub absolute: bool,
    pub segments: Seq<Seq<char>>,
}

impl View for FilePath {
    type V = PathModel;

    open spec fn view(&self) -> PathModel {
        PathModel { absolute: self.absolute, segments: self.segments.deep_view() }
    }
}

/// The model of the path written `s`: anchored iff `s` starts with `'/'`,
/// with `s`'s non-empty slash-separated components.
pub open spec fn spec_parse_path(s: Seq<char>) -> PathModel {
    PathModel { absolute: s.len() > 0 && s[0] == '/', segments: spec_segments(s) }
}

/// The parent of `p`: `p` without its last component; a path without
/// components is its own parent.
pub open spec fn spec_parent(p: PathModel) -> PathModel {
    if p.segments.len() == 0 {
        p
    } else {
        PathModel { absolute: p.absolute, segments: p.segments.drop_last() }
    }
}

/// `rel` appended to `root`; an anchored `rel` stands alone, as it does
/// for filesystem path joins.
pub open spec fn spec_join(root: PathModel, rel: PathModel) -> PathModel {
    if rel.absolute {
        rel
    } else {
        PathModel { absolute: root.absolute, segments: root.segments + rel.segments }
    }
}

/// What is left of `to` after walking `from` and `to` upward from their
/// leaves while their final components agree.
pub open spec fn spec_shared_root(from: Seq<Seq<char>>, to: Seq<Seq<char>>) -> Seq<Seq<char>>
    decreases to.len(),
{
    if from.len() > 0 && to.len() > 0 && from.last() == to.last() {
        spec_shared_root(from.drop_last(), to.drop_last())
    } else {
        to
    }
}

impl FilePath {
    /// Reads a path from its textual form.
    pub fn parse(s: &str) -> (r: FilePath)
        ensures
            r@ == spec_parse_path(s@),
    {
        let absolute = starts_with(s, "/");
        proof {
            reveal_strlit("/");
            assert(spec_starts_with(s@, "/"@) == (s@.len() > 0 && s@[0] == '/')) by {
                if s@.len() >= 1 {
                    assert(s@.take(1)[0] == s@[0]);
                    if s@[0] == '/' {
                        assert(s@.take(1) =~= "/"@);
                    }
                }
            }
        }
        let segments = split_segments(s);
        FilePath { absolute, segments }
    }

    /// Copies the path.
    pub fn duplicate(&self) -> (r: FilePath)
        ensures
            r@ == self@,
    {
        let segments = clone_segments(&self.segments);
        let r = FilePath { absolute: self.absolute, segments };
        proof {
            assert(r@.segments =~= self@.segments);
        }
        r
    }

    /// The path without its last component; a path without components is
    /// returned unchanged.
    pub fn parent(&self) -> (r: FilePath)
        ensures
            r@ == spec_parent(self@),
    {
        let mut segments = clone_segments(&self.segments);
        let ghost before = segments.deep_view();
        if segments.len() > 0 {
            segments.pop();
            assert(segments.deep_view() =~= before.drop_last());
        }
        let r = FilePath { absolute: self.absolute, segments };
        proof {
            if self@.segments.len() == 0 {
                assert(r@.segments =~= self@.segments);
            }
        }
        r
    }

    /// `rel` appended to `self`; an anchored `rel` stands alone.
    pub fn join(&self, rel: &FilePath) -> (r: FilePath)
        ensures
            r@ == spec_join(self@, rel@),
    {
        if rel.absolute {
            rel.duplicate()
        } else {
            let mut segments = clone_segments(&self.segments);
            let ghost left = segments.deep_view();
            let more = clone_segments(&rel.segments);
            let mut k: usize = 0;
            let n = more.len();
            while k < n
                invariant
                    0 <= k <= n,
                    n == more.len(),
                    segments.deep_view() == left + more.deep_view().take(k as int),
                decreases n - k,
            {
                let ghost before = segments.deep_view();
                let piece = clone_string(&more[k]);
                segments.push(piece);
                k += 1;
                assert(segments.deep_view() =~= left + more.deep_view().take(k as int)) by {
                    assert(segments.deep_view() =~= before.push(more.deep_view()[k - 1]));
                }
            }
            assert(more.deep_view().take(n as int) =~= rel@.segments);
            FilePath { absolute: self.absolute, segments }
        }
    }
}

/// Copies a string.
pub fn clone_string(s: &String) -> (r: String)
    ensures
        r@ == s@,
{
    s.clone()
}

/// Copies a vector of strings.
pub fn clone_segments(v: &Vec<String>) -> (r: Vec<String>)
    ensures
        r.deep_view() == v.deep_view(),
{
    let mut r: Vec<String> = Vec::new();
    let mut i: usize = 0;
    let n = v.len();
    while i < n
        invariant
            0 <= i <= n,
            n == v.len(),
            r.deep_view() == v.deep_view().take(i as int),
        decreases n - i,
    {
        let ghost before = r.deep_view();
        let piece = clone_string(&v[i]);
        r.push(piece);
        i += 1;
        assert(r.deep_view() =~= v.deep_view().take(i as int)) by {
            assert(r.deep_view() =~= before.push(v.deep_view()[i - 1]));
        }
    }
    assert(v.deep_view().take(n as int) =~= v.deep_view());
    r
}

/// Walks `from` and `to` upward from their leaves while their final
/// components agree, and returns what is left of `to`: the shared root
/// against which a relocation template is anchored.
pub fn shared_root_of(from: &FilePath, to: &FilePath) -> (r: FilePath)
    ensures
        r@.absolute == to@.absolute,
        r@.segments == spec_shared_root(from@.segments, to@.segments),
{
    let mut f = clone_segments(&from.segments);
    let mut t = clone_segments(&to.segments);
    while f.len() > 0 && t.len() > 0 && strings_equal(&f[f.len() - 1], &t[t.len() - 1])
        invariant
            spec_shared_root(from@.segments, to@.segments) == spec_shared_root(
                f.deep_view(),
                t.deep_view(),
            ),
        decreases t.len(),
    {
        let ghost fv = f.deep_view();
        let ghost tv = t.deep_view();
        f.pop();
        t.pop();
        assert(f.deep_view() =~= fv.drop_last());
        assert(t.deep_view() =~= tv.drop_last());
    }
    FilePath { absolute: to.absolute, segments: t }
}

/// Decides string equality.
pub fn strings_equal(a: &String, b: &String) -> (r: bool)
    ensures
        r == (a@ == b@),
{
    *a == *b
}

} // verus!
