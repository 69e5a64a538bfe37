//! The inclusion predicate over archive-entry paths.
//!
//! A blob is worth extracting when at least one entry path of its archive
//! contains `configs/` or `release-manifests/` as a substring.

use vstd::prelude::*;

verus! {

/// Whether `sub` occurs in `s` as a contiguous substring.
pub open spec fn contains_sub(s: Seq<char>, sub: Seq<char>) -> bool {
    exists|i: int| 0 <= i && i + sub.len() <= s.len() && #[trigger] s.subrange(i, i + sub.len())
        == sub
}

/// Whether the characters of `s` starting at `i` spell out `sub`.
fn matches_at(s: &str, sub: &str, i: usize) -> (r: bool)
    requires
        i + sub@.len() <= s@.len(),
    ensures
        r == (s@.subrange(i as int, i + sub@.len()) == sub@),
{
    let n = s.unicode_len();
    let m = sub.unicode_len();
    let mut j: usize = 0;
    while j < m
        invariant
            0 <= j <= m,
            n == s@.len(),
            m == sub@.len(),
            i + m <= n,
            forall|t: int| 0 <= t < j ==> s@[i + t] == sub@[t],
        decreases m - j,
    {
        if s.get_char(i + j) != sub.get_char(j) {
            assert(s@.subrange(i as int, i + sub@.len()) != sub@) by {
                if s@.subrange(i as int, i + sub@.len()) == sub@ {
                    assert(s@.subrange(i as int, i + sub@.len())[j as int] == sub@[j as int]);
                }
            }
            return false;
        }
        j = j + 1;
    }
    assert(s@.subrange(i as int, i + sub@.len()) =~= sub@);
    true
}

/// Whether `sub` occurs in `s` as a contiguous substring.
pub fn str_contains(s: &str, sub: &str) -> (r: bool)
    ensures
        r == contains_sub(s@, sub@),
{
    let n = s.unicode_len();
    let m = sub.unicode_len();
    if m > n {
        assert(!contains_sub(s@, sub@));
        return false;
    }
    if m == 0 {
        assert(contains_sub(s@, sub@)) by {
            assert(s@.subrange(0, 0 + sub@.len() as int) =~= sub@);
        }
        return true;
    }
    let mut i: usize = 0;
    while i <= n - m
        invariant
            0 <= i <= n - m + 1,
            n == s@.len(),
            m == sub@.len(),
            1 <= m <= n,
            forall|k: int| 0 <= k < i ==> #[trigger] s@.subrange(k, k + sub@.len()) != sub@,
        decreases n - m + 1 - i,
    {
        if matches_at(s, sub, i) {
            return true;
        }
        i = i + 1;
    }
    assert(forall|k: int|
        0 <= k && k + sub@.len() <= s@.len() ==> #[trigger] s@.subrange(k, k + sub@.len())
            != sub@);
    false
}

/// Whether an archive-entry path is of interest: it contains `configs/`
/// or `release-manifests/`.
pub open spec fn entry_included(p: Seq<char>) -> bool {
    contains_sub(p, "configs/"@) || contains_sub(p, "release-manifests/"@)
}

/// Whether an archive-entry path is of interest: it contains `configs/`
/// or `release-manifests/`.
pub fn is_included_path(p: &str) -> (r: bool)
    ensures
        r == entry_included(p@),
{
    str_contains(p, "configs/") || str_contains(p, "release-manifests/")
}

/// Whether some path of `ps` is of interest.
pub open spec fn any_included(ps: Seq<Seq<char>>) -> bool {
    exists|i: int| 0 <= i < ps.len() && entry_included(ps[i])
}

/// The index of the first entry path of interest, scanning in stream order,
/// or `None` when no path is of interest.
pub fn find_included_entry(paths: &Vec<String>) -> (r: Option<usize>)
    ensures
        r matches Some(i) ==> i < paths@.len() && entry_included(paths@[i as int]@) && forall|
            j: int,
        |
            0 <= j < i ==> !entry_included(paths@[j]@),
        r is None ==> forall|j: int| 0 <= j < paths@.len() ==> !entry_included(paths@[j]@),
        (r is Some) == any_included(paths.deep_view()),
{
    let n = paths.len();
    let mut i: usize = 0;
    while i < n
        invariant
            0 <= i <= n,
            n == paths@.len(),
            forall|j: int| 0 <= j < i ==> !entry_included(paths@[j]@),
        decreases n - i,
    {
        if is_included_path(paths[i].as_str()) {
            assert(paths.deep_view()[i as int] == paths@[i as int]@);
            return Some(i);
        }
        i = i + 1;
    }
    assert(forall|j: int| 0 <= j < paths@.len() ==> paths.deep_view()[j] == paths@[j]@);
    None
}

} // verus!
