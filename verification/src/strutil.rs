//! Character-level string helpers used by the pipeline stages: prefix
//! tests, placeholder substitution, path-separator splitting and file-stem
//! extraction, each proved against a direct specification over `Seq<char>`.

use vstd::prelude::*;

verus! {

/// `s` begins with `p`.
pub open spec fn spec_starts_with(s: Seq<char>, p: Seq<char>) -> bool {
    s.len() >= p.len() && s.take(p.len() as int) == p
}

/// Decides whether `s` begins with `p`.
pub fn starts_with(s: &str, p: &str) -> (r: bool)
    ensures
        r == spec_starts_with(s@, p@),
{
    let n = s.unicode_len();
    let np = p.unicode_len();
    if n < np {
        return false;
    }
    let mut i: usize = 0;
    while i < np
        invariant
            0 <= i <= np,
            np <= n,
            n == s@.len(),
            np == p@.len(),
            forall|j: int| 0 <= j < i ==> s@[j] == p@[j],
        decreases np - i,
    {
        if s.get_char(i) != p.get_char(i) {
            assert(s@.take(np as int) != p@) by {
                assert(s@.take(np as int)[i as int] != p@[i as int]);
            }
            return false;
        }
        i += 1;
    }
    assert(s@.take(np as int) =~= p@);
    true
}

/// The result of replacing, left to right, every non-overlapping occurrence
/// of `pat` in `s` by `rep`.
pub open spec fn spec_replace(s: Seq<char>, pat: Seq<char>, rep: Seq<char>) -> Seq<char>
    decreases s.len(),
{
    if pat.len() == 0 || s.len() < pat.len() {
        s
    } else if s.take(pat.len() as int) == pat {
        rep + spec_replace(s.skip(pat.len() as int), pat, rep)
    } else {
        seq![s[0]] + spec_replace(s.skip(1), pat, rep)
    }
}

/// Decides whether `pat` occurs in `s` at offset `i`.
fn matches_at(s: &str, i: usize, pat: &str) -> (r: bool)
    requires
        i + pat@.len() <= s@.len(),
    ensures
        r == (s@.subrange(i as int, i as int + pat@.len() as int) == pat@),
{
    let n = s.unicode_len();
    let np = pat.unicode_len();
    let mut j: usize = 0;
    while j < np
        invariant
            0 <= j <= np,
            np == pat@.len(),
            n == s@.len(),
            i + np <= n,
            forall|k: int| 0 <= k < j ==> s@[i + k] == pat@[k],
        decreases np - j,
    {
        if s.get_char(i + j) != pat.get_char(j) {
            assert(s@.subrange(i as int, i as int + np as int) != pat@) by {
                assert(s@.subrange(i as int, i as int + np as int)[j as int] != pat@[j as int]);
            }
            return false;
        }
        j += 1;
    }
    assert(s@.subrange(i as int, i as int + np as int) =~= pat@);
    true
}

/// Replaces, left to right, every non-overlapping occurrence of `pat` in
/// `s` by `rep`.
pub fn replace(s: &str, pat: &str, rep: &str) -> (r: String)
    requires
        pat@.len() > 0,
    ensures
        r@ == spec_replace(s@, pat@, rep@),
{
    let n = s.unicode_len();
    let np = pat.unicode_len();
    let mut out = String::new();
    let mut i: usize = 0;
    proof {
        assert(s@.skip(0) =~= s@);
        assert(out@ + spec_replace(s@, pat@, rep@) =~= spec_replace(s@, pat@, rep@));
    }
    while i < n
        invariant
            0 <= i <= n,
            n == s@.len(),
            np == pat@.len(),
            np > 0,
            spec_replace(s@, pat@, rep@) == out@ + spec_replace(
                s@.skip(i as int),
                pat@,
                rep@,
            ),
        decreases n - i,
    {
        let ghost t = s@.skip(i as int);
        if np <= n - i && matches_at(s, i, pat) {
            assert(t.take(np as int) =~= s@.subrange(i as int, i as int + np as int));
            out.append(rep);
            assert(t.skip(np as int) =~= s@.skip(i as int + np as int));
            assert(spec_replace(t, pat@, rep@) == rep@ + spec_replace(
                s@.skip(i as int + np as int),
                pat@,
                rep@,
            ));
            i += np;
        } else {
            if np <= n - i {
                assert(t.take(np as int) =~= s@.subrange(i as int, i as int + np as int));
            }
            let piece = s.substring_char(i, i + 1);
            out.append(piece);
            assert(piece@ =~= seq![t[0]]);
            assert(t.skip(1) =~= s@.skip(i as int + 1));
            assert(spec_replace(t, pat@, rep@) == seq![t[0]] + spec_replace(
                s@.skip(i as int + 1),
                pat@,
                rep@,
            ));
            i += 1;
        }
        assert(spec_replace(s@, pat@, rep@) == out@ + spec_replace(s@.skip(i as int), pat@, rep@))
            by {
            assert((out@ + spec_replace(s@.skip(i as int), pat@, rep@)) =~= spec_replace(
                s@,
                pat@,
                rep@,
            ));
        }
    }
    assert(s@.skip(n as int) =~= Seq::<char>::empty());
    assert(out@ =~= out@ + spec_replace(s@.skip(n as int), pat@, rep@));
    out
}

/// Helper for [`spec_segments`]: splits `s` at `'/'`, with `cur` the
/// partial segment read so far; empty segments are dropped.
pub open spec fn spec_split_acc(s: Seq<char>, cur: Seq<char>) -> Seq<Seq<char>>
    decreases s.len(),
{
    if s.len() == 0 {
        if cur.len() == 0 {
            seq![]
        } else {
            seq![cur]
        }
    } else if s[0] == '/' {
        (if cur.len() == 0 {
            seq![]
        } else {
            seq![cur]
        }) + spec_split_acc(s.skip(1), seq![])
    } else {
        spec_split_acc(s.skip(1), cur.push(s[0]))
    }
}

/// The non-empty components of `s` split at `'/'`, in order.
pub open spec fn spec_segments(s: Seq<char>) -> Seq<Seq<char>> {
    spec_split_acc(s, seq![])
}

/// Splits `s` at `'/'` into its non-empty components, in order.
pub fn split_segments(s: &str) -> (r: Vec<String>)
    ensures
        r.deep_view() == spec_segments(s@),
{
    let n = s.unicode_len();
    let mut segs: Vec<String> = Vec::new();
    let mut cur = String::new();
    let mut i: usize = 0;
    proof {
        assert(s@.skip(0) =~= s@);
        assert(segs.deep_view() + spec_split_acc(s@, cur@) =~= spec_segments(s@));
    }
    while i < n
        invariant
            0 <= i <= n,
            n == s@.len(),
            spec_segments(s@) == segs.deep_view() + spec_split_acc(s@.skip(i as int), cur@),
        decreases n - i,
    {
        let ghost t = s@.skip(i as int);
        let ghost old_segs = segs.deep_view();
        let ghost old_cur = cur@;
        let c = s.get_char(i);
        assert(t[0] == c);
        if c == '/' {
            if cur.unicode_len() > 0 {
                segs.push(cur);
                assert(segs.deep_view() =~= old_segs + seq![old_cur]);
            }
            cur = String::new();
        } else {
            let piece = s.substring_char(i, i + 1);
            cur.append(piece);
            assert(cur@ =~= old_cur.push(t[0]));
        }
        i += 1;
        proof {
            assert(t.skip(1) =~= s@.skip(i as int));
            assert(spec_segments(s@) == segs.deep_view() + spec_split_acc(s@.skip(i as int), cur@))
                by {
                assert(segs.deep_view() + spec_split_acc(s@.skip(i as int), cur@) =~= old_segs
                    + spec_split_acc(t, old_cur));
            }
        }
    }
    let ghost old_segs = segs.deep_view();
    let ghost old_cur = cur@;
    assert(s@.skip(n as int) =~= Seq::<char>::empty());
    if cur.unicode_len() > 0 {
        segs.push(cur);
        assert(segs.deep_view() =~= old_segs + seq![old_cur]);
    }
    assert(segs.deep_view() =~= old_segs + spec_split_acc(Seq::<char>::empty(), old_cur));
    segs
}

/// The index of the last `'.'` in `s` that does not stand at the very
/// front, or `-1` when there is none.
pub open spec fn spec_last_dot(s: Seq<char>) -> int
    decreases s.len(),
{
    if s.len() <= 1 {
        -1
    } else if s[s.len() - 1] == '.' {
        s.len() - 1
    } else {
        spec_last_dot(s.take(s.len() - 1))
    }
}

/// The file stem of a file name: everything before the last `'.'`, unless
/// that dot stands at the very front or there is none, in which case the
/// whole name.
pub open spec fn spec_file_stem(s: Seq<char>) -> Seq<char> {
    if spec_last_dot(s) == -1 {
        s
    } else {
        s.take(spec_last_dot(s))
    }
}

/// Extracts the file stem of `s`.
pub fn file_stem(s: &str) -> (r: String)
    ensures
        r@ == spec_file_stem(s@),
{
    let n = s.unicode_len();
    let mut j: usize = n;
    proof {
        assert(s@.take(n as int) =~= s@);
    }
    while j > 1
        invariant
            0 <= j <= n,
            n == s@.len(),
            spec_last_dot(s@) == spec_last_dot(s@.take(j as int)),
        decreases j,
    {
        if s.get_char(j - 1) == '.' {
            assert(spec_last_dot(s@.take(j as int)) == j - 1);
            let r = s.substring_char(0, j - 1);
            assert(r@ =~= s@.take(j - 1));
            return String::from_str(r);
        }
        proof {
            assert(s@.take(j as int).take(j - 1) =~= s@.take(j - 1));
        }
        j -= 1;
    }
    assert(spec_last_dot(s@) == -1);
    let r = s.substring_char(0, n);
    assert(r@ =~= s@);
    String::from_str(r)
}

} // verus!

