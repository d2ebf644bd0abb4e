//! Scoring a solution.

use std::collections::HashSet;
use vstd::prelude::*;
use crate::helpers::flags::{lemma_unused_bound, lemma_unused_update, unused};
use crate::qualification2020::model::{least, BookId, BookScore, Library, SolutionLibrary};
use crate::qualification2020::parse::solution_view;

verus! {

broadcast use vstd::std_specs::hash::group_hash_axioms;

/// Why a solution has no score.
#[derive(Clone, Copy, Debug, PartialEq, Eq, Structural)]
pub enum CheckError {
    /// The solution lists more libraries than there are.
    TooManyLibraries,
    /// A library is listed twice.
    DuplicateLibrary,
    /// A library is listed that does not exist.
    UnknownLibrary,
    /// A library would still be signing up when the time is over.
    SignUpTooLate,
    /// A library sends a book that it does not have.
    ForeignBook,
}

/// No library is listed twice among the first `k`.
pub open spec fn distinct_upto(solution: Seq<(usize, Seq<BookId>)>, k: int) -> bool {
    forall|i: int, j: int| 0 <= i < j < k ==> (#[trigger] solution[i]).0 != (#[trigger] solution[j]).0
}

/// The score after the books of one library from place `i` on, up to
/// `count`, were sent: each book counts once, when it is first sent.
pub open spec fn score_books(
    scores: Seq<BookScore>,
    owned: Seq<BookId>,
    books: Seq<BookId>,
    count: int,
    seen: Seq<bool>,
    total: int,
    i: int,
) -> Result<(Seq<bool>, int), CheckError>
    decreases count - i,
{
    if i >= count {
        Ok((seen, total))
    } else if !owned.contains(books[i]) {
        Err(CheckError::ForeignBook)
    } else if seen[books[i] as int] {
        score_books(scores, owned, books, count, seen, total, i + 1)
    } else {
        score_books(
            scores,
            owned,
            books,
            count,
            seen.update(books[i] as int, true),
            total + scores[books[i] as int],
            i + 1,
        )
    }
}

/// The score after the libraries from place `k` on signed up one after
/// the other and sent their books: each sends the books listed for it, in
/// order, as far as the days that are left after its sign-up allow.
pub open spec fn score_entries(
    n_days: int,
    scores: Seq<BookScore>,
    libs: Seq<Library>,
    solution: Seq<(usize, Seq<BookId>)>,
    k: int,
    days_used: int,
    seen: Seq<bool>,
    total: int,
) -> Result<int, CheckError>
    decreases solution.len() - k,
{
    if k < 0 || k >= solution.len() {
        Ok(total)
    } else if solution[k].0 >= libs.len() {
        Err(CheckError::UnknownLibrary)
    } else {
        let lib = libs[solution[k].0 as int];
        let days = days_used + lib.n_days;
        if days > n_days {
            Err(CheckError::SignUpTooLate)
        } else {
            let count = least(solution[k].1.len() as int, lib.n_ship_daily * (n_days - days));
            match score_books(scores, lib.books@, solution[k].1, count, seen, total, 0) {
                Err(e) => Err(e),
                Ok((seen2, total2)) => score_entries(
                    n_days,
                    scores,
                    libs,
                    solution,
                    k + 1,
                    days,
                    seen2,
                    total2,
                ),
            }
        }
    }
}

/// The score of a solution: the scores of the books that are sent in
/// time, each counted once.
pub open spec fn score_of(
    n_days: int,
    scores: Seq<BookScore>,
    libs: Seq<Library>,
    solution: Seq<(usize, Seq<BookId>)>,
) -> Result<int, CheckError> {
    if solution.len() > libs.len() {
        Err(CheckError::TooManyLibraries)
    } else if !distinct_upto(solution, solution.len() as int) {
        Err(CheckError::DuplicateLibrary)
    } else {
        score_entries(
            n_days,
            scores,
            libs,
            solution,
            0,
            0,
            Seq::new(scores.len(), |b: int| false),
            0,
        )
    }
}

/// Whether no library is listed twice.
fn all_distinct(solution: &Vec<SolutionLibrary>) -> (r: bool)
    ensures
        r == distinct_upto(solution_view(solution@), solution@.len() as int),
{
    let ghost view = solution_view(solution@);
    let mut ids: HashSet<usize> = HashSet::new();
    let mut k: usize = 0;
    while k < solution.len()
        invariant
            k <= solution@.len(),
            view == solution_view(solution@),
            distinct_upto(view, k as int),
            forall|x: usize| ids@.contains(x) <==> exists|i: int| 0 <= i < k && (#[trigger] view[i]).0 == x,
        decreases solution@.len() - k,
    {
        let id = solution[k].id;
        assert(view[k as int].0 == id);
        if !ids.insert(id) {
            proof {
                let i = choose|i: int| 0 <= i < k && (#[trigger] view[i]).0 == id;
                assert(view[i].0 == view[k as int].0);
            }
            return false;
        }
        proof {
            assert forall|x: usize| ids@.contains(x) implies exists|i: int|
                0 <= i < k + 1 && (#[trigger] view[i]).0 == x by {
                if x != id {
                    let i = choose|i: int| 0 <= i < k && (#[trigger] view[i]).0 == x;
                    assert(view[i].0 == x);
                }
            }
        }
        k = k + 1;
    }
    true
}

/// The books of a library as a set.
fn book_set(books: &Vec<BookId>) -> (r: HashSet<BookId>)
    ensures
        forall|b: BookId| r@.contains(b) <==> books@.contains(b),
{
    let mut set: HashSet<BookId> = HashSet::new();
    let mut i: usize = 0;
    while i < books.len()
        invariant
            i <= books@.len(),
            forall|b: BookId| set@.contains(b) <==> books@.take(i as int).contains(b),
        decreases books@.len() - i,
    {
        let ghost shorter = books@.take(i as int);
        let ghost longer = books@.take(i + 1);
        set.insert(books[i]);
        proof {
            assert(longer[i as int] == books@[i as int]);
            assert forall|b: BookId| set@.contains(b) <==> longer.contains(b) by {
                if shorter.contains(b) {
                    let w = choose|w: int| 0 <= w < shorter.len() && shorter[w] == b;
                    assert(longer[w] == b);
                }
                if longer.contains(b) {
                    let w = choose|w: int| 0 <= w < longer.len() && longer[w] == b;
                    if w < i {
                        assert(shorter[w] == b);
                    }
                }
            }
        }
        i = i + 1;
    }
    assert(books@.take(books@.len() as int) =~= books@);
    set
}

/// Scores `solution`: see [`score_of`]. The solution is refused where it
/// lists a library twice or one that does not exist, lets a library sign
/// up past the last day, or sends a book from a library that does not
/// have it.
pub fn try_check(
    n_days: usize,
    book_scores: &Vec<BookScore>,
    libs: &Vec<Library>,
    solution: &Vec<SolutionLibrary>,
) -> (r: Result<u128, CheckError>)
    requires
        forall|j: int| 0 <= j < libs@.len() ==> (#[trigger] libs@[j]).books_scored(
            book_scores@.len() as int,
        ),
    ensures
        match r {
            Ok(total) => score_of(n_days as int, book_scores@, libs@, solution_view(solution@))
                == Ok::<int, CheckError>(total as int),
            Err(e) => score_of(n_days as int, book_scores@, libs@, solution_view(solution@))
                == Err::<int, CheckError>(e),
        },
{
    let ghost view = solution_view(solution@);
    if solution.len() > libs.len() {
        return Err(CheckError::TooManyLibraries);
    }
    if !all_distinct(solution) {
        return Err(CheckError::DuplicateLibrary);
    }
    let n_scores = book_scores.len();
    let mut seen: Vec<bool> = Vec::new();
    let mut b: usize = 0;
    while b < n_scores
        invariant
            b <= n_scores,
            seen@.len() == b,
            forall|x: int| 0 <= x < b ==> !(#[trigger] seen@[x]),
        decreases n_scores - b,
    {
        seen.push(false);
        b = b + 1;
    }
    assert(seen@ =~= Seq::new(book_scores@.len(), |b: int| false));
    proof {
        lemma_unused_bound(seen@);
    }
    let mut total: u128 = 0;
    let mut days_used: usize = 0;
    let mut k: usize = 0;
    while k < solution.len()
        invariant
            k <= solution@.len(),
            view == solution_view(solution@),
            n_scores == book_scores@.len(),
            seen@.len() == n_scores,
            days_used <= n_days || k == 0,
            forall|j: int| 0 <= j < libs@.len() ==> (#[trigger] libs@[j]).books_scored(
                book_scores@.len() as int,
            ),
            score_of(n_days as int, book_scores@, libs@, view) == score_entries(
                n_days as int,
                book_scores@,
                libs@,
                view,
                k as int,
                days_used as int,
                seen@,
                total as int,
            ),
            unused(seen@) <= n_scores,
            total <= (n_scores - unused(seen@)) * 0xffff_ffff,
        decreases solution@.len() - k,
    {
        let entry = &solution[k];
        assert(view[k as int] == (entry.id, entry.books@));
        if entry.id >= libs.len() {
            return Err(CheckError::UnknownLibrary);
        }
        let lib = &libs[entry.id];
        let days = match days_used.checked_add(lib.n_days) {
            Some(d) => d,
            None => {
                return Err(CheckError::SignUpTooLate);
            },
        };
        if days > n_days {
            return Err(CheckError::SignUpTooLate);
        }
        let len = entry.books.len();
        let count = match lib.n_ship_daily.checked_mul(n_days - days) {
            Some(c) => if c < len {
                c
            } else {
                len
            },
            None => len,
        };
        let owned = book_set(&lib.books);
        let ghost seen0 = seen@;
        let ghost total0 = total as int;
        assert(count == least(len as int, lib.n_ship_daily * (n_days - days))) by (nonlinear_arith)
            requires
                count == (if lib.n_ship_daily * (n_days - days) < len {
                    lib.n_ship_daily * (n_days - days)
                } else {
                    len as int
                }),
        ;
        let mut i: usize = 0;
        while i < count
            invariant
                i <= count <= len == entry.books@.len(),
                k < solution@.len(),
                view == solution_view(solution@),
                view[k as int] == (entry.id, entry.books@),
                entry.id < libs@.len(),
                *lib == libs@[entry.id as int],
                days == days_used + lib.n_days,
                days <= n_days,
                count == least(len as int, lib.n_ship_daily * (n_days - days)),
                score_of(n_days as int, book_scores@, libs@, view) == score_entries(
                    n_days as int,
                    book_scores@,
                    libs@,
                    view,
                    k as int,
                    days_used as int,
                    seen0,
                    total0,
                ),
                n_scores == book_scores@.len(),
                seen@.len() == n_scores,
                lib.books_scored(book_scores@.len() as int),
                forall|b: BookId| owned@.contains(b) <==> lib.books@.contains(b),
                score_books(
                    book_scores@,
                    lib.books@,
                    entry.books@,
                    count as int,
                    seen0,
                    total0,
                    0,
                ) == score_books(
                    book_scores@,
                    lib.books@,
                    entry.books@,
                    count as int,
                    seen@,
                    total as int,
                    i as int,
                ),
                unused(seen@) <= n_scores,
                total <= (n_scores - unused(seen@)) * 0xffff_ffff,
            decreases count - i,
        {
            let book = entry.books[i];
            if !owned.contains(&book) {
                return Err(CheckError::ForeignBook);
            }
            proof {
                let w = choose|w: int| 0 <= w < lib.books@.len() && lib.books@[w] == book;
                assert(lib.books@[w] < book_scores@.len());
            }
            if !seen[book] {
                proof {
                    lemma_unused_update(seen@, book as int);
                }
                seen.set(book, true);
                total = total + book_scores[book] as u128;
            }
            i = i + 1;
        }
        days_used = days;
        k = k + 1;
    }
    Ok(total)
}

/// Scores a solution that can be scored: see [`score_of`].
pub fn check(
    n_days: usize,
    book_scores: &Vec<BookScore>,
    libs: &Vec<Library>,
    solution: &Vec<SolutionLibrary>,
) -> (total: u128)
    requires
        forall|j: int| 0 <= j < libs@.len() ==> (#[trigger] libs@[j]).books_scored(
            book_scores@.len() as int,
        ),
        score_of(n_days as int, book_scores@, libs@, solution_view(solution@)) is Ok,
    ensures
        score_of(n_days as int, book_scores@, libs@, solution_view(solution@)) == Ok::<
            int,
            CheckError,
        >(total as int),
{
    match try_check(n_days, book_scores, libs, solution) {
        Ok(total) => total,
        Err(_) => vstd::pervasive::unreached(),
    }
}

} // verus!
