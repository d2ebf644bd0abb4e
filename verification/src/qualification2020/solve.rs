//! Signing libraries up one after the other, each time the one whose
//! books are worth most per day of signing up.

use vstd::prelude::*;
use crate::helpers::flags::{lemma_unused_update, unused};
use crate::qualification2020::model::{BookId, BookScore, Library, LibraryId, LibraryScore};

verus! {

/// The scores of the first `k` of `books` together.
pub open spec fn books_value(scores: Seq<BookScore>, books: Seq<BookId>, k: int) -> int
    decreases k,
{
    if k <= 0 {
        0
    } else {
        books_value(scores, books, k - 1) + scores[books[k - 1] as int]
    }
}

/// What signing up a library on day `day` is worth: the scores of the
/// books it would send, per day that signing up takes, rounded down.
pub open spec fn library_score(lib: &Library, day: int, n_days: int, scores: Seq<BookScore>)
    -> int {
    let books = lib.best_books(day, n_days, scores);
    books_value(scores, books, books.len() as int) / (lib.n_days as int)
}

/// The libraries are numbered by their place, signing up takes a day at
/// least, and every book has a score.
pub open spec fn libraries_ok(libs: Seq<Library>, n_scores: int) -> bool {
    forall|j: int|
        0 <= j < libs.len() ==> {
            &&& (#[trigger] libs[j]).id == j
            &&& libs[j].n_days >= 1
            &&& libs[j].books_scored(n_scores)
        }
}

/// Library `j` is the one to sign up next: it has not signed up, and no
/// such library is worth more, or as much and has a higher number.
pub open spec fn is_next(
    libs: Seq<Library>,
    used: Seq<bool>,
    scores: Seq<BookScore>,
    day: int,
    n_days: int,
    j: int,
) -> bool {
    &&& 0 <= j < libs.len()
    &&& !used[j]
    &&& forall|k: int|
        0 <= k < libs.len() && !used[k] ==> {
            let other = #[trigger] library_score(&libs[k], day, n_days, scores);
            let this = library_score(&libs[j], day, n_days, scores);
            other < this || (other == this && k <= j)
        }
}

/// Some library can sign up next.
pub open spec fn has_next(
    libs: Seq<Library>,
    used: Seq<bool>,
    scores: Seq<BookScore>,
    day: int,
    n_days: int,
) -> bool {
    exists|j: int| is_next(libs, used, scores, day, n_days, j)
}

/// The library to sign up next.
pub open spec fn next(
    libs: Seq<Library>,
    used: Seq<bool>,
    scores: Seq<BookScore>,
    day: int,
    n_days: int,
) -> int {
    choose|j: int| is_next(libs, used, scores, day, n_days, j)
}

/// The scores once `books` are sent: theirs are 0.
pub open spec fn zeroed(scores: Seq<BookScore>, books: Seq<BookId>) -> Seq<BookScore> {
    Seq::new(
        scores.len(),
        |b: int|
            if books.contains(b as usize) {
                0u32
            } else {
                scores[b]
            },
    )
}

/// The libraries that sign up from day `day` on, in order, each with the
/// books it sends. The next library is chosen among those that have not
/// signed up; signing up ends where there is none, or where its sign-up
/// would not be over before the last day.
pub open spec fn plan(
    libs: Seq<Library>,
    used: Seq<bool>,
    scores: Seq<BookScore>,
    day: int,
    n_days: int,
) -> Seq<(LibraryId, Seq<BookId>)>
    decreases unused(used),
    when used.len() == libs.len()
    via plan_decreases
{
    if !has_next(libs, used, scores, day, n_days) {
        Seq::empty()
    } else {
        let j = next(libs, used, scores, day, n_days);
        let books = libs[j].best_books(day, n_days, scores);
        let after = day + libs[j].n_days;
        if after >= n_days {
            Seq::empty()
        } else {
            seq![(j as usize, books)] + plan(
                libs,
                used.update(j, true),
                zeroed(scores, books),
                after,
                n_days,
            )
        }
    }
}

#[via_fn]
proof fn plan_decreases(
    libs: Seq<Library>,
    used: Seq<bool>,
    scores: Seq<BookScore>,
    day: int,
    n_days: int,
) {
    if has_next(libs, used, scores, day, n_days) {
        let j = next(libs, used, scores, day, n_days);
        assert(is_next(libs, used, scores, day, n_days, j));
        lemma_unused_update(used, j);
    }
}

/// At most one library is the one to sign up next.
pub proof fn lemma_next_unique(
    libs: Seq<Library>,
    used: Seq<bool>,
    scores: Seq<BookScore>,
    day: int,
    n_days: int,
    j: int,
)
    requires
        is_next(libs, used, scores, day, n_days, j),
    ensures
        has_next(libs, used, scores, day, n_days),
        next(libs, used, scores, day, n_days) == j,
{
    let c = next(libs, used, scores, day, n_days);
    assert(is_next(libs, used, scores, day, n_days, c));
    let a = library_score(&libs[c], day, n_days, scores);
    let b = library_score(&libs[j], day, n_days, scores);
    assert(a < b || (a == b && c <= j));
    assert(b < a || (b == a && j <= c));
}

/// The plan with the books of each library as a mathematical value.
pub open spec fn plan_view(plan: Seq<(LibraryId, Vec<BookId>)>) -> Seq<(LibraryId, Seq<BookId>)> {
    plan.map_values(|x: (LibraryId, Vec<BookId>)| (x.0, x.1@))
}

/// What signing up `lib` on day `curr_day` would give: its number, the
/// books it would send, and what that is worth.
pub fn evaluate(lib: &Library, curr_day: usize, n_days: usize, book_scores: &Vec<BookScore>) -> (r:
    (LibraryId, Vec<BookId>, LibraryScore))
    requires
        lib.n_days >= 1,
        lib.books_scored(book_scores@.len() as int),
    ensures
        r.0 == lib.id,
        r.1@ == lib.best_books(curr_day as int, n_days as int, book_scores@),
        r.2 == library_score(lib, curr_day as int, n_days as int, book_scores@),
        forall|i: int| 0 <= i < r.1@.len() ==> (#[trigger] r.1@[i]) < book_scores@.len(),
{
    let books = lib.get_best_books(curr_day, n_days, book_scores.as_slice());
    let n = books.len();
    let mut score: u128 = 0;
    let mut k: usize = 0;
    while k < n
        invariant
            k <= n == books@.len(),
            forall|i: int| 0 <= i < books@.len() ==> (#[trigger] books@[i]) < book_scores@.len(),
            score == books_value(book_scores@, books@, k as int),
            score <= k * 0xffff_ffff,
        decreases n - k,
    {
        score = score + book_scores[books[k]] as u128;
        k = k + 1;
    }
    score = score / (lib.n_days as u128);
    (lib.id, books, score)
}

/// The place of the result that is worth most, and of the last such
/// where several are worth as much; `None` without results.
pub fn select_best(results: &Vec<(LibraryId, Vec<BookId>, LibraryScore)>) -> (r: Option<usize>)
    ensures
        match r {
            Some(i) => {
                &&& i < results@.len()
                &&& forall|k: int| 0 <= k < results@.len() ==> (#[trigger] results@[k]).2
                    <= results@[i as int].2
                &&& forall|k: int| i < k < results@.len() ==> (#[trigger] results@[k]).2
                    < results@[i as int].2
            },
            None => results@.len() == 0,
        },
{
    if results.len() == 0 {
        return None;
    }
    let mut best: usize = 0;
    let mut k: usize = 1;
    while k < results.len()
        invariant
            best < k <= results@.len(),
            forall|m: int| 0 <= m < k ==> (#[trigger] results@[m]).2 <= results@[best as int].2,
            forall|m: int| best < m < k ==> (#[trigger] results@[m]).2 < results@[best as int].2,
        decreases results@.len() - k,
    {
        if results[k].2 >= results[best].2 {
            best = k;
        }
        k = k + 1;
    }
    Some(best)
}

/// Sets the scores of `books` to 0.
pub fn clear_scores(book_scores: &mut Vec<BookScore>, books: &Vec<BookId>)
    requires
        forall|i: int| 0 <= i < books@.len() ==> (#[trigger] books@[i]) < old(book_scores)@.len(),
    ensures
        final(book_scores)@ == zeroed(old(book_scores)@, books@),
{
    let ghost before = book_scores@;
    let n = book_scores.len();
    let mut i: usize = 0;
    while i < books.len()
        invariant
            i <= books@.len(),
            n == before.len(),
            book_scores@.len() == before.len(),
            forall|k: int| 0 <= k < books@.len() ==> (#[trigger] books@[k]) < before.len(),
            forall|b: int|
                0 <= b < before.len() ==> #[trigger] book_scores@[b] == if books@.take(
                    i as int,
                ).contains(b as usize) {
                    0u32
                } else {
                    before[b]
                },
        decreases books@.len() - i,
    {
        let book = books[i];
        let ghost current = book_scores@;
        book_scores.set(book, 0);
        proof {
            let shorter = books@.take(i as int);
            let longer = books@.take(i + 1);
            assert(longer[i as int] == book);
            assert forall|b: int| 0 <= b < before.len() implies #[trigger] book_scores@[b] == if longer.contains(
                b as usize,
            ) {
                0u32
            } else {
                before[b]
            } by {
                if b == book {
                    assert(longer.contains(b as usize));
                } else {
                    assert(book_scores@[b] == current[b]);
                    if shorter.contains(b as usize) {
                        let w = choose|w: int| 0 <= w < shorter.len() && shorter[w] == b as usize;
                        assert(longer[w] == b as usize);
                    }
                    if longer.contains(b as usize) {
                        let w = choose|w: int| 0 <= w < longer.len() && longer[w] == b as usize;
                        assert(w < i);
                        assert(shorter[w] == b as usize);
                    }
                }
            }
        }
        i = i + 1;
    }
    assert(books@.take(books@.len() as int) =~= books@);
    assert(book_scores@ =~= zeroed(before, books@));
}

/// Whether the libraries can be worked on: see [`libraries_ok`].
pub fn libraries_valid(libs: &Vec<Library>, n_scores: usize) -> (r: bool)
    ensures
        r == libraries_ok(libs@, n_scores as int),
{
    let mut j: usize = 0;
    while j < libs.len()
        invariant
            j <= libs@.len(),
            forall|k: int|
                0 <= k < j ==> {
                    &&& (#[trigger] libs@[k]).id == k
                    &&& libs@[k].n_days >= 1
                    &&& libs@[k].books_scored(n_scores as int)
                },
        decreases libs@.len() - j,
    {
        let lib = &libs[j];
        if lib.id != j || lib.n_days < 1 {
            return false;
        }
        let mut i: usize = 0;
        while i < lib.books.len()
            invariant
                j < libs@.len(),
                *lib == libs@[j as int],
                i <= lib.books@.len(),
                forall|k: int| 0 <= k < i ==> (#[trigger] lib.books@[k]) < n_scores,
            decreases lib.books@.len() - i,
        {
            if lib.books[i] >= n_scores {
                assert(!libs@[j as int].books_scored(n_scores as int));
                return false;
            }
            i = i + 1;
        }
        j = j + 1;
    }
    true
}

/// Signs up the library `id` on day `curr_day` with the books it sends:
/// where its sign-up is over before the last day, the scores of the books
/// are cleared, the library is marked, and the day on which the next
/// library can start is returned. Where it is not, nothing changes.
pub fn sign_up(
    libs: &mut Vec<Library>,
    book_scores: &mut Vec<BookScore>,
    curr_day: usize,
    n_days: usize,
    id: LibraryId,
    books: &Vec<BookId>,
) -> (r: Option<usize>)
    requires
        id < old(libs)@.len(),
        forall|i: int| 0 <= i < books@.len() ==> (#[trigger] books@[i]) < old(book_scores)@.len(),
    ensures
        match r {
            Some(day) => {
                &&& day == curr_day + old(libs)@[id as int].n_days
                &&& day < n_days
                &&& final(book_scores)@ == zeroed(old(book_scores)@, books@)
                &&& final(libs)@.len() == old(libs)@.len()
                &&& final(libs)@[id as int].is_zero_score
                &&& final(libs)@[id as int].books == old(libs)@[id as int].books
                &&& final(libs)@[id as int].n_days == old(libs)@[id as int].n_days
                &&& final(libs)@[id as int].n_ship_daily == old(libs)@[id as int].n_ship_daily
                &&& final(libs)@[id as int].id == old(libs)@[id as int].id
                &&& forall|j: int|
                    0 <= j < old(libs)@.len() && j != id ==> final(libs)@[j] == old(libs)@[j]
            },
            None => {
                &&& curr_day + old(libs)@[id as int].n_days >= n_days
                &&& final(book_scores)@ == old(book_scores)@
                &&& final(libs)@ == old(libs)@
            },
        },
{
    let day = match curr_day.checked_add(libs[id].n_days) {
        Some(day) => day,
        None => {
            return None;
        },
    };
    if day >= n_days {
        return None;
    }
    clear_scores(book_scores, books);
    libs[id].mark_as_used();
    Some(day)
}

/// Signs libraries up until none is left or the time is over, and returns
/// them in order, each with the books it sends: see [`plan`]. Libraries
/// that are marked as signed up are left out.
pub fn solve(n_days: usize, book_scores: Vec<BookScore>, libs: &Vec<Library>) -> (r: Vec<
    (LibraryId, Vec<BookId>),
>)
    requires
        libraries_ok(libs@, book_scores@.len() as int),
    ensures
        plan_view(r@) == plan(
            libs@,
            libs@.map_values(|l: Library| l.is_zero_score),
            book_scores@,
            0,
            n_days as int,
        ),
{
    let ghost scores0 = book_scores@;
    let ghost used0 = libs@.map_values(|l: Library| l.is_zero_score);
    let n_libs = libs.len();
    let mut scores = book_scores;
    let mut used: Vec<bool> = Vec::new();
    let mut j: usize = 0;
    while j < n_libs
        invariant
            j <= n_libs == libs@.len(),
            used@.len() == j,
            forall|k: int| 0 <= k < j ==> #[trigger] used@[k] == libs@[k].is_zero_score,
        decreases n_libs - j,
    {
        used.push(libs[j].is_used());
        j = j + 1;
    }
    assert(used@ =~= used0);
    let mut res: Vec<(LibraryId, Vec<BookId>)> = Vec::new();
    let mut curr_day: usize = 0;
    assert(plan_view(res@) + plan(libs@, used@, scores@, 0, n_days as int) =~= plan(
        libs@,
        used0,
        scores0,
        0,
        n_days as int,
    ));
    loop
        invariant_except_break
            n_libs == libs@.len(),
            used@.len() == n_libs,
            scores@.len() == scores0.len(),
            libraries_ok(libs@, scores0.len() as int),
            plan_view(res@) + plan(libs@, used@, scores@, curr_day as int, n_days as int) == plan(
                libs@,
                used0,
                scores0,
                0,
                n_days as int,
            ),
        ensures
            plan_view(res@) == plan(libs@, used0, scores0, 0, n_days as int),
        decreases unused(used@),
    {
        let ghost day = curr_day as int;
        let mut best: Option<(LibraryId, Vec<BookId>, LibraryScore)> = None;
        let mut j: usize = 0;
        while j < n_libs
            invariant
                j <= n_libs == libs@.len(),
                used@.len() == n_libs,
                scores@.len() == scores0.len(),
                libraries_ok(libs@, scores0.len() as int),
                day == curr_day,
                match best {
                    Some((id, books, score)) => {
                        &&& id < j
                        &&& !used@[id as int]
                        &&& books@ == libs@[id as int].best_books(day, n_days as int, scores@)
                        &&& score == library_score(&libs@[id as int], day, n_days as int, scores@)
                        &&& forall|i: int| 0 <= i < books@.len() ==> (#[trigger] books@[i])
                            < scores@.len()
                        &&& forall|k: int|
                            0 <= k < j && !used@[k] ==> {
                                let other = #[trigger] library_score(
                                    &libs@[k],
                                    day,
                                    n_days as int,
                                    scores@,
                                );
                                other < score || (other == score && k <= id)
                            }
                    },
                    None => forall|k: int| 0 <= k < j ==> used@[k],
                },
            decreases n_libs - j,
        {
            if !used[j] {
                let result = evaluate(&libs[j], curr_day, n_days, &scores);
                let better = match &best {
                    Some(b) => result.2 >= b.2,
                    None => true,
                };
                if better {
                    best = Some(result);
                }
            }
            j = j + 1;
        }
        match best {
            None => {
                proof {
                    if has_next(libs@, used@, scores@, day, n_days as int) {
                        let c = next(libs@, used@, scores@, day, n_days as int);
                        assert(is_next(libs@, used@, scores@, day, n_days as int, c));
                    }
                    assert(plan_view(res@) + Seq::<(LibraryId, Seq<BookId>)>::empty() =~= plan_view(
                        res@,
                    ));
                }
                break;
            },
            Some((id, books, _score)) => {
                proof {
                    lemma_next_unique(libs@, used@, scores@, day, n_days as int, id as int);
                    lemma_unused_update(used@, id as int);
                }
                let after = match curr_day.checked_add(libs[id].n_days) {
                    Some(d) => d,
                    None => {
                        assert(plan_view(res@) + Seq::<(LibraryId, Seq<BookId>)>::empty()
                            =~= plan_view(res@));
                        break;
                    },
                };
                if after >= n_days {
                    assert(plan_view(res@) + Seq::<(LibraryId, Seq<BookId>)>::empty() =~= plan_view(
                        res@,
                    ));
                    break;
                }
                let ghost before = plan_view(res@);
                let ghost tail = plan(
                    libs@,
                    used@.update(id as int, true),
                    zeroed(scores@, books@),
                    after as int,
                    n_days as int,
                );
                assert(plan(libs@, used@, scores@, day, n_days as int) == seq![(id, books@)]
                    + tail);
                curr_day = after;
                clear_scores(&mut scores, &books);
                res.push((id, books));
                used.set(id, true);
                assert(plan_view(res@) =~= before.push((id, books@)));
                assert(before + (seq![(id, books@)] + tail) =~= before.push((id, books@)) + tail);
            },
        }
    }
    res
}

} // verus!
