//! Bounded-depth lookup over extracted cache trees.
//!
//! The caller lists the immediate children of a cache root and, for each
//! child, its immediate children (the grandchildren), and hands those
//! listings over; the lookup returns the first grandchild path that contains
//! a name fragment. Only the paths in the listings are examined, so a match
//! any deeper in the tree is never found, by design.

use vstd::prelude::*;
use crate::matching::{contains_sub, str_contains};

verus! {

/// The first path of `row` that contains `name`, or `None`.
pub open spec fn first_match_in_row(row: Seq<Seq<char>>, name: Seq<char>) -> Option<Seq<char>>
    decreases row.len(),
{
    if row.len() == 0 {
        None
    } else if contains_sub(row[0], name) {
        Some(row[0])
    } else {
        first_match_in_row(row.drop_first(), name)
    }
}

/// The first path of `rows`, row by row and in row order, that contains
/// `name`, or `None`.
pub open spec fn first_match(rows: Seq<Seq<Seq<char>>>, name: Seq<char>) -> Option<Seq<char>>
    decreases rows.len(),
{
    if rows.len() == 0 {
        None
    } else {
        match first_match_in_row(rows[0], name) {
            Some(p) => Some(p),
            None => first_match(rows.drop_first(), name),
        }
    }
}

/// The view of an optional path.
pub open spec fn opt_path_view(r: Option<String>) -> Option<Seq<char>> {
    match r {
        Some(p) => Some(p@),
        None => None,
    }
}

/// The first path of `row` that contains `name`, or `None`.
pub fn find_in_row(row: &Vec<String>, name: &str) -> (r: Option<String>)
    ensures
        opt_path_view(r) == first_match_in_row(row.deep_view(), name@),
{
    let n = row.len();
    let mut i: usize = 0;
    proof {
        assert(row.deep_view().skip(0) =~= row.deep_view());
    }
    while i < n
        invariant
            0 <= i <= n,
            n == row@.len(),
            first_match_in_row(row.deep_view(), name@) == first_match_in_row(
                row.deep_view().skip(i as int),
                name@,
            ),
        decreases n - i,
    {
        proof {
            assert(row.deep_view().skip(i as int)[0] == row.deep_view()[i as int]);
            assert(row.deep_view().skip(i as int).drop_first() =~= row.deep_view().skip(i + 1));
        }
        if str_contains(row[i].as_str(), name) {
            return Some(row[i].clone());
        }
        i = i + 1;
    }
    proof {
        assert(row.deep_view().skip(n as int) =~= Seq::<Seq<char>>::empty());
    }
    None
}

/// The first grandchild path, row by row and in listing order, that
/// contains `name`, or `None` when no listed path does.
pub fn find_named_subpath(rows: &Vec<Vec<String>>, name: &str) -> (r: Option<String>)
    ensures
        opt_path_view(r) == first_match(rows.deep_view(), name@),
{
    let n = rows.len();
    let mut i: usize = 0;
    proof {
        assert(rows.deep_view().skip(0) =~= rows.deep_view());
    }
    while i < n
        invariant
            0 <= i <= n,
            n == rows@.len(),
            first_match(rows.deep_view(), name@) == first_match(
                rows.deep_view().skip(i as int),
                name@,
            ),
        decreases n - i,
    {
        proof {
            assert(rows.deep_view().skip(i as int)[0] == rows.deep_view()[i as int]);
            assert(rows.deep_view().skip(i as int).drop_first() =~= rows.deep_view().skip(i + 1));
        }
        match find_in_row(&rows[i], name) {
            Some(p) => {
                return Some(p);
            },
            None => {},
        }
        i = i + 1;
    }
    proof {
        assert(rows.deep_view().skip(n as int) =~= Seq::<Seq<Seq<char>>>::empty());
    }
    None
}

/// A found path always contains the name and always comes from the
/// listings; nothing outside the listings is ever returned, and nothing is
/// found when no listed path contains the name.
pub proof fn lemma_lookup_bounded(rows: Seq<Seq<Seq<char>>>, name: Seq<char>)
    ensures
        first_match(rows, name) matches Some(p) ==> contains_sub(p, name) && exists|i: int, j: int|
            0 <= i < rows.len() && 0 <= j < rows[i].len() && #[trigger] rows[i][j] == p,
        first_match(rows, name) is None <==> (forall|i: int, j: int|
            0 <= i < rows.len() && 0 <= j < rows[i].len() ==> !contains_sub(
                #[trigger] rows[i][j],
                name,
            )),
    decreases rows.len(),
{
    if rows.len() > 0 {
        lemma_lookup_row(rows[0], name);
        lemma_lookup_bounded(rows.drop_first(), name);
        let rest = rows.drop_first();
        assert(forall|i: int| 0 <= i < rest.len() ==> rest[i] == rows[i + 1]);
        match first_match_in_row(rows[0], name) {
            Some(p) => {
                let j = choose|j: int| 0 <= j < rows[0].len() && rows[0][j] == p;
                assert(0 <= 0 < rows.len() && 0 <= j < rows[0].len() && rows[0][j] == p);
            },
            None => {
                match first_match(rest, name) {
                    Some(p) => {
                        let (i, j) = choose|i: int, j: int|
                            0 <= i < rest.len() && 0 <= j < rest[i].len() && #[trigger] rest[i][j]
                                == p;
                        assert(rows[i + 1][j] == p);
                    },
                    None => {
                        assert forall|i: int, j: int|
                            0 <= i < rows.len() && 0 <= j < rows[i].len() implies !contains_sub(
                            #[trigger] rows[i][j],
                            name,
                        ) by {
                            if i > 0 {
                                assert(rest[i - 1] == rows[i]);
                            }
                        }
                    },
                }
            },
        }
    }
}

/// A path found in one row contains the name and comes from the row; none
/// is found exactly when no path of the row contains the name.
pub proof fn lemma_lookup_row(row: Seq<Seq<char>>, name: Seq<char>)
    ensures
        first_match_in_row(row, name) matches Some(p) ==> contains_sub(p, name) && exists|j: int|
            0 <= j < row.len() && #[trigger] row[j] == p,
        first_match_in_row(row, name) is None <==> (forall|j: int|
            0 <= j < row.len() ==> !contains_sub(#[trigger] row[j], name)),
    decreases row.len(),
{
    if row.len() > 0 {
        lemma_lookup_row(row.drop_first(), name);
        let rest = row.drop_first();
        assert(forall|j: int| 0 <= j < rest.len() ==> rest[j] == row[j + 1]);
        if contains_sub(row[0], name) {
            assert(0 <= 0 < row.len() && row[0] == row[0]);
        } else {
            match first_match_in_row(rest, name) {
                Some(p) => {
                    let j = choose|j: int| 0 <= j < rest.len() && #[trigger] rest[j] == p;
                    assert(row[j + 1] == p);
                },
                None => {
                    assert forall|j: int| 0 <= j < row.len() implies !contains_sub(
                        #[trigger] row[j],
                        name,
                    ) by {
                        if j > 0 {
                            assert(rest[j - 1] == row[j]);
                        }
                    }
                },
            }
        }
    }
}

} // verus!
