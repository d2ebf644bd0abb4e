//! Libraries and the books they would send.

use vstd::prelude::*;
use crate::helpers::sort::{pair_leq, sort_pairs};

verus! {

pub type LibraryId = usize;

pub type LibraryScore = u128;

pub type BookScore = u32;

pub type BookId = usize;

/// A library.
#[derive(Clone, Debug)]
pub struct Library {
    /// The number of the library: its place in the list of libraries.
    pub id: LibraryId,
    /// The days that signing up takes.
    pub n_days: usize,
    /// The books that the library can send each day once signed up.
    pub n_ship_daily: usize,
    /// The books of the library.
    pub books: Vec<BookId>,
    /// Whether the library has signed up already, so that it scores
    /// nothing more.
    pub is_zero_score: bool,
    /// The books that the library has sent. A new library has sent none.
    pub used_books: Vec<BookId>,
}

/// A library of a solution with the books it sends, in order.
pub struct SolutionLibrary {
    pub id: LibraryId,
    pub books: Vec<BookId>,
}

/// The smaller of two numbers.
pub open spec fn least(x: int, y: int) -> int {
    if x <= y {
        x
    } else {
        y
    }
}

/// The books of the `k` best pairs of `sorted` that score at all, best
/// first. `sorted` is in ascending order, and each pair is a score and a
/// book.
pub open spec fn top(sorted: Seq<(u64, u64)>, k: int) -> Seq<BookId>
    decreases k,
{
    if k <= 0 {
        Seq::empty()
    } else {
        let front = top(sorted, k - 1);
        let item = sorted[sorted.len() - k];
        if item.0 > 0 {
            front.push(item.1 as usize)
        } else {
            front
        }
    }
}

impl Library {
    /// A library that has not signed up.
    pub fn new(id: LibraryId, n_days: usize, n_ship_daily: usize, books: Vec<BookId>) -> (r: Self)
        ensures
            r.id == id,
            r.n_days == n_days,
            r.n_ship_daily == n_ship_daily,
            r.books == books,
            !r.is_zero_score,
            r.used_books@ == Seq::<BookId>::empty(),
    {
        let is_zero_score = false;
        let used_books = Vec::new();
        Self { id, n_days, n_ship_daily, books, is_zero_score, used_books }
    }

    /// Marks the library as signed up.
    pub fn mark_as_used(&mut self)
        ensures
            final(self).is_zero_score,
            final(self).id == old(self).id,
            final(self).n_days == old(self).n_days,
            final(self).n_ship_daily == old(self).n_ship_daily,
            final(self).books == old(self).books,
            final(self).used_books == old(self).used_books,
    {
        self.is_zero_score = true;
    }

    /// Whether the library has signed up.
    pub fn is_used(&self) -> (r: bool)
        ensures
            r == self.is_zero_score,
    {
        self.is_zero_score
    }

    /// The number of books of the library.
    pub fn n_books(&self) -> (r: usize)
        ensures
            r == self.books@.len(),
    {
        self.books.len()
    }

    /// Every book of the library has a score.
    pub open spec fn books_scored(&self, n_scores: int) -> bool {
        forall|i: int| 0 <= i < self.books@.len() ==> (#[trigger] self.books@[i]) < n_scores
    }

    /// How many books the library can send if it starts signing up on
    /// `curr_day` and scanning ends after `n_days` days: none where the
    /// sign-up is not over before the last day.
    pub open spec fn quota(&self, curr_day: int, n_days: int) -> int {
        if curr_day + self.n_days >= n_days {
            0
        } else {
            least(
                self.books@.len() as int,
                (n_days - (curr_day + self.n_days)) * self.n_ship_daily,
            )
        }
    }

    /// The books with their scores, the score first.
    pub open spec fn scored(&self, scores: Seq<BookScore>) -> Seq<(u64, u64)> {
        Seq::new(
            self.books@.len(),
            |i: int| (scores[self.books@[i] as int] as u64, self.books@[i] as u64),
        )
    }

    /// The books that the library would send: as many as it can send, the
    /// highest scores first and among equal scores the higher book
    /// first, without those that score nothing.
    pub open spec fn best_books(&self, curr_day: int, n_days: int, scores: Seq<BookScore>) -> Seq<
        BookId,
    > {
        top(self.scored(scores).sort_by(pair_leq()), self.quota(curr_day, n_days))
    }

    /// The books that the library would send if it started signing up on
    /// `curr_day`: see [`Library::best_books`].
    pub fn get_best_books(&self, curr_day: usize, n_days: usize, book_scores: &[BookScore]) -> (r:
        Vec<BookId>)
        requires
            self.books_scored(book_scores@.len() as int),
        ensures
            r@ == self.best_books(curr_day as int, n_days as int, book_scores@),
            forall|i: int| 0 <= i < r@.len() ==> (#[trigger] r@[i]) < book_scores@.len(),
            r@.len() <= self.books@.len(),
    {
        let start = match curr_day.checked_add(self.n_days) {
            Some(d) => d,
            None => {
                return Vec::new();
            },
        };
        if start >= n_days {
            return Vec::new();
        }
        let days_left = n_days - start;
        let len = self.books.len();
        let n_books = match days_left.checked_mul(self.n_ship_daily) {
            Some(n) => if n < len {
                n
            } else {
                len
            },
            None => len,
        };
        assert(n_books == self.quota(curr_day as int, n_days as int)) by (nonlinear_arith)
            requires
                n_books == (if days_left * self.n_ship_daily < len {
                    days_left * self.n_ship_daily
                } else {
                    len as int
                }),
                days_left == n_days - (curr_day + self.n_days),
                curr_day + self.n_days < n_days,
                len == self.books@.len(),
                self.quota(curr_day as int, n_days as int) == least(
                    self.books@.len() as int,
                    (n_days - (curr_day + self.n_days)) * self.n_ship_daily,
                ),
        ;
        let mut pairs: Vec<(u64, u64)> = Vec::new();
        let mut i: usize = 0;
        while i < len
            invariant
                i <= len == self.books@.len(),
                self.books_scored(book_scores@.len() as int),
                pairs@.len() == i,
                forall|j: int|
                    0 <= j < i ==> #[trigger] pairs@[j] == (
                        book_scores@[self.books@[j] as int] as u64,
                        self.books@[j] as u64,
                    ),
            decreases len - i,
        {
            let book = self.books[i];
            pairs.push((book_scores[book] as u64, book as u64));
            i = i + 1;
        }
        assert(pairs@ =~= self.scored(book_scores@));
        let ghost unsorted = pairs@;
        sort_pairs(&mut pairs);
        let mut out: Vec<BookId> = Vec::new();
        let mut k: usize = 0;
        while k < n_books
            invariant
                k <= n_books <= len,
                pairs@.len() == len,
                unsorted.len() == len,
                unsorted == self.scored(book_scores@),
                self.books_scored(book_scores@.len() as int),
                forall|j: int| 0 <= j < len ==> unsorted.contains(#[trigger] pairs@[j]),
                out@ == top(pairs@, k as int),
                out@.len() <= k,
                forall|j: int| 0 <= j < out@.len() ==> (#[trigger] out@[j]) < book_scores@.len(),
            decreases n_books - k,
        {
            k = k + 1;
            let item = pairs[len - k];
            if item.0 > 0 {
                proof {
                    assert(unsorted.contains(item));
                    let w = choose|w: int| 0 <= w < unsorted.len() && unsorted[w] == item;
                    assert(item.1 == self.books@[w] as u64);
                }
                out.push(item.1 as usize);
            }
        }
        out
    }

    /// The books with their scores and places, the score first.
    pub open spec fn placed(&self, scores: Seq<BookScore>) -> Seq<(u64, u64)> {
        Seq::new(self.books@.len(), |i: int| (scores[self.books@[i] as int] as u64, i as u64))
    }

    /// The books that the library sends on its first day: as many as it
    /// sends in a day, the highest scores first and among equal scores
    /// the book that is listed later first.
    pub open spec fn day_books(&self, scores: Seq<BookScore>) -> Seq<BookId> {
        let sorted = self.placed(scores).sort_by(pair_leq());
        Seq::new(
            least(self.books@.len() as int, self.n_ship_daily as int) as nat,
            |k: int| self.books@[sorted[self.books@.len() - 1 - k].1 as int],
        )
    }

    /// The books that the library sends on its first day: see
    /// [`Library::day_books`].
    pub fn best_books_for_day(&self, book_scores: &[BookScore]) -> (r: Vec<BookId>)
        requires
            self.books_scored(book_scores@.len() as int),
        ensures
            r@ == self.day_books(book_scores@),
    {
        let len = self.books.len();
        let mut pairs: Vec<(u64, u64)> = Vec::new();
        let mut i: usize = 0;
        while i < len
            invariant
                i <= len == self.books@.len(),
                self.books_scored(book_scores@.len() as int),
                pairs@.len() == i,
                forall|j: int|
                    0 <= j < i ==> #[trigger] pairs@[j] == (
                        book_scores@[self.books@[j] as int] as u64,
                        j as u64,
                    ),
            decreases len - i,
        {
            pairs.push((book_scores[self.books[i]] as u64, i as u64));
            i = i + 1;
        }
        assert(pairs@ =~= self.placed(book_scores@));
        let ghost unsorted = pairs@;
        sort_pairs(&mut pairs);
        let ship_today = if len < self.n_ship_daily { len } else { self.n_ship_daily };
        let mut out: Vec<BookId> = Vec::new();
        let mut k: usize = 0;
        while k < ship_today
            invariant
                k <= ship_today <= len,
                len == self.books@.len(),
                pairs@.len() == len,
                unsorted.len() == len,
                unsorted == self.placed(book_scores@),
                forall|j: int| 0 <= j < len ==> unsorted.contains(#[trigger] pairs@[j]),
                out@.len() == k,
                forall|j: int|
                    0 <= j < k ==> #[trigger] out@[j] == self.books@[pairs@[len - 1 - j].1 as int],
            decreases ship_today - k,
        {
            let item = pairs[len - 1 - k];
            proof {
                assert(unsorted.contains(item));
                let w = choose|w: int| 0 <= w < unsorted.len() && unsorted[w] == item;
                assert(item.1 == w as u64);
            }
            out.push(self.books[item.1 as usize]);
            k = k + 1;
        }
        assert(out@ =~= self.day_books(book_scores@));
        out
    }
}

} // verus!
