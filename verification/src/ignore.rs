//! Ignore patterns: which relative paths deploy and update pass over.
//!
//! A pattern is a shell glob. `*` stands for any run of characters within a
//! segment, `?` for one such character, `**` for any run of characters,
//! `/` included, and `**/` also for nothing. Every other character stands
//! for itself; matching is case sensitive. A pattern ignores a path where it
//! matches the whole path, one of its segments, or one of its parent
//! directories, which takes the subtree below that directory out.

use vstd::prelude::*;
use crate::text::chars_of;
use crate::value::strings_view;

verus! {

/// Whether the pattern from position `i` on matches the text from `j` up to
/// `e`.
pub open spec fn glob_range(p: Seq<char>, i: int, t: Seq<char>, j: int, e: int) -> bool
    decreases p.len() - i, e - j,
{
    if i < 0 || j < 0 || j > e || e > t.len() {
        false
    } else if i >= p.len() {
        j == e
    } else if p[i] == '*' {
        if i + 1 < p.len() && p[i + 1] == '*' {
            (i + 2 < p.len() && p[i + 2] == '/' && glob_range(p, i + 3, t, j, e)) || glob_range(
                p,
                i + 2,
                t,
                j,
                e,
            ) || (j < e && glob_range(p, i, t, j + 1, e))
        } else {
            glob_range(p, i + 1, t, j, e) || (j < e && t[j] != '/' && glob_range(p, i, t, j + 1, e))
        }
    } else if p[i] == '?' {
        j < e && t[j] != '/' && glob_range(p, i + 1, t, j + 1, e)
    } else {
        j < e && t[j] == p[i] && glob_range(p, i + 1, t, j + 1, e)
    }
}

/// Whether the pattern matches the whole text.
pub open spec fn glob_matches(p: Seq<char>, t: Seq<char>) -> bool {
    glob_range(p, 0, t, 0, t.len() as int)
}

/// Whether the characters from `a` up to `b` are a segment of the path: a
/// run without `/`, bounded by `/` or by the ends of the path.
pub open spec fn is_segment(path: Seq<char>, a: int, b: int) -> bool {
    &&& 0 <= a <= b <= path.len()
    &&& a == 0 || path[a - 1] == '/'
    &&& b == path.len() || path[b] == '/'
    &&& forall|k: int| a <= k < b ==> path[k] != '/'
}

/// Whether the pattern ignores the path: it matches the whole path, one of
/// its segments, or one of its parent directories.
pub open spec fn pattern_ignores(p: Seq<char>, path: Seq<char>) -> bool {
    ||| glob_matches(p, path)
    ||| exists|a: int, b: int| is_segment(path, a, b) && #[trigger] glob_range(p, 0, path, a, b)
    ||| exists|k: int| 0 <= k < path.len() && path[k] == '/' && #[trigger] glob_range(p, 0, path, 0, k)
}

/// Whether one of the patterns ignores the path.
pub open spec fn ignored(path: Seq<char>, patterns: Seq<Seq<char>>) -> bool {
    exists|n: int| 0 <= n < patterns.len() && pattern_ignores(#[trigger] patterns[n], path)
}

/// Matches the pattern from `i` on against the text from `j` up to `e`.
fn glob_from(p: &Vec<char>, i: usize, t: &Vec<char>, j: usize, e: usize) -> (r: bool)
    requires
        i <= p.len(),
        j <= e <= t.len(),
    ensures
        r == glob_range(p@, i as int, t@, j as int, e as int),
    decreases p.len() - i, e - j,
{
    if i >= p.len() {
        j == e
    } else if p[i] == '*' {
        if i + 1 < p.len() && p[i + 1] == '*' {
            if i + 2 < p.len() && p[i + 2] == '/' && glob_from(p, i + 3, t, j, e) {
                true
            } else if glob_from(p, i + 2, t, j, e) {
                true
            } else {
                j < e && glob_from(p, i, t, j + 1, e)
            }
        } else if glob_from(p, i + 1, t, j, e) {
            true
        } else {
            j < e && t[j] != '/' && glob_from(p, i, t, j + 1, e)
        }
    } else if p[i] == '?' {
        j < e && t[j] != '/' && glob_from(p, i + 1, t, j + 1, e)
    } else {
        j < e && t[j] == p[i] && glob_from(p, i + 1, t, j + 1, e)
    }
}

/// Whether the pattern matches the whole text.
pub fn glob_match(pattern: &str, text: &str) -> (r: bool)
    ensures
        r == glob_matches(pattern@, text@),
{
    let p = chars_of(pattern);
    let t = chars_of(text);
    glob_from(&p, 0, &t, 0, t.len())
}

/// Whether the pattern ignores the path.
fn pattern_ignores_path(p: &Vec<char>, path: &Vec<char>) -> (r: bool)
    ensures
        r == pattern_ignores(p@, path@),
{
    let n: usize = path.len();
    let mut start: usize = 0;
    let mut k: usize = 0;
    while k < n
        invariant
            start <= k <= n,
            n == path.len(),
            start == 0 || path[start - 1] == '/',
            forall|x: int| start <= x < k ==> path[x] != '/',
            forall|a: int, b: int|
                is_segment(path@, a, b) && b < k ==> !#[trigger] glob_range(p@, 0, path@, a, b),
            forall|x: int|
                0 <= x < k && path[x] == '/' ==> !#[trigger] glob_range(p@, 0, path@, 0, x),
        decreases n - k,
    {
        if path[k] == '/' {
            if glob_from(p, 0, path, 0, k) {
                return true;
            }
            assert(is_segment(path@, start as int, k as int));
            if glob_from(p, 0, path, start, k) {
                return true;
            }
            proof {
                lemma_segment_start(path@, start as int, k as int);
            }
            start = k + 1;
        } else {
            proof {
                assert forall|a: int, b: int| is_segment(path@, a, b) && b < k + 1 implies !#[trigger] glob_range(
                    p@,
                    0,
                    path@,
                    a,
                    b,
                ) by {}
            }
        }
        k += 1;
    }
    if glob_from(p, 0, path, 0, n) {
        return true;
    }
    assert(is_segment(path@, start as int, n as int));
    if glob_from(p, 0, path, start, n) {
        return true;
    }
    proof {
        lemma_segment_start(path@, start as int, n as int);
    }
    false
}

/// A segment that ends at `b` starts where the last segment before `b`
/// starts.
proof fn lemma_segment_start(path: Seq<char>, start: int, b: int)
    requires
        is_segment(path, start, b),
    ensures
        forall|a: int| is_segment(path, a, b) ==> a == start,
{
    assert forall|a: int| is_segment(path, a, b) implies a == start by {
        if a < start {
            assert(path[start - 1] == '/');
        }
        if a > start {
            assert(path[a - 1] == '/');
        }
    }
}

/// Whether a relative path is ignored: whether one of the patterns ignores
/// it.
pub fn is_ignored(relative_path: &str, patterns: &Vec<String>) -> (r: bool)
    ensures
        r == ignored(relative_path@, strings_view(patterns@)),
{
    let path = chars_of(relative_path);
    let mut n: usize = 0;
    while n < patterns.len()
        invariant
            n <= patterns.len(),
            path@ == relative_path@,
            forall|m: int| 0 <= m < n ==> !pattern_ignores(#[trigger] strings_view(patterns@)[m], path@),
        decreases patterns.len() - n,
    {
        let p = chars_of(patterns[n].as_str());
        if pattern_ignores_path(&p, &path) {
            assert(strings_view(patterns@)[n as int] == p@);
            return true;
        }
        assert(strings_view(patterns@)[n as int] == p@);
        n += 1;
    }
    false
}

} // verus!
