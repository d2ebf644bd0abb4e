//! Reading a problem instance and a solution from their text.

use vstd::prelude::*;
use crate::helpers::red::{
    lemma_read_many_len, lemma_repeat_stops, read_many, repeat, value_at, views, Red,
};
use crate::qualification2020::model::{BookId, BookScore, Library, SolutionLibrary};

verus! {

/// A library as the text describes it.
pub struct LibraryText {
    pub n_days: usize,
    pub n_ship_daily: usize,
    pub books: Seq<BookId>,
}

/// A problem instance as the text describes it.
pub struct ProblemText {
    pub n_books: usize,
    pub n_libs: usize,
    pub n_days: usize,
    pub book_scores: Seq<BookScore>,
    pub libs: Seq<LibraryText>,
}

/// The numbers that a reader standing at `pos` reads as a list of `n`
/// book numbers, and where it then stands.
pub open spec fn books_at(s: Seq<u8>, pos: int, n: nat) -> Option<(Seq<BookId>, int)> {
    match read_many::<usize>(s, pos, n) {
        (Ok(books), p) => Some((books, p)),
        (Err(_), _) => None,
    }
}

/// One library: the number of its books, the days that signing up takes,
/// the books it sends in a day, and its books.
pub open spec fn library_at(s: Seq<u8>, pos: int) -> Option<(LibraryText, int)> {
    match value_at::<usize>(s, pos) {
        Some((n, p1)) => match value_at::<usize>(s, p1) {
            Some((n_days, p2)) => match value_at::<usize>(s, p2) {
                Some((n_ship_daily, p3)) => match books_at(s, p3, n as nat) {
                    Some((books, p4)) => Some((LibraryText { n_days, n_ship_daily, books }, p4)),
                    None => None,
                },
                None => None,
            },
            None => None,
        },
        None => None,
    }
}

/// What the text `s` says: the numbers of books, libraries and days, the
/// scores of the books, and the libraries. `None` where a number is
/// missing or is not a number. What follows the last library is not read.
pub open spec fn problem_of(s: Seq<u8>) -> Option<ProblemText> {
    match value_at::<usize>(s, 0) {
        Some((n_books, p1)) => match value_at::<usize>(s, p1) {
            Some((n_libs, p2)) => match value_at::<usize>(s, p2) {
                Some((n_days, p3)) => match read_many::<BookScore>(s, p3, n_books as nat) {
                    (Ok(book_scores), p4) => match repeat(
                        s,
                        p4,
                        n_libs as nat,
                        |s: Seq<u8>, p: int| library_at(s, p),
                    ) {
                        Some((libs, p5)) => Some(
                            ProblemText { n_books, n_libs, n_days, book_scores, libs },
                        ),
                        None => None,
                    },
                    (Err(_), _) => None,
                },
                None => None,
            },
            None => None,
        },
        None => None,
    }
}

/// The libraries are the ones described, numbered by their place and not
/// signed up.
pub open spec fn libraries_match(libs: Seq<Library>, texts: Seq<LibraryText>) -> bool {
    &&& libs.len() == texts.len()
    &&& forall|j: int|
        0 <= j < libs.len() ==> {
            let lib = #[trigger] libs[j];
            &&& lib.id == j
            &&& lib.n_days == texts[j].n_days
            &&& lib.n_ship_daily == texts[j].n_ship_daily
            &&& lib.books@ == texts[j].books
            &&& !lib.is_zero_score
            &&& lib.used_books@ == Seq::<BookId>::empty()
        }
}

/// One library of a solution: its number, the number of its books, and
/// the books.
pub open spec fn entry_at(s: Seq<u8>, pos: int) -> Option<((usize, Seq<BookId>), int)> {
    match value_at::<usize>(s, pos) {
        Some((id, p1)) => match value_at::<usize>(s, p1) {
            Some((n, p2)) => match books_at(s, p2, n as nat) {
                Some((books, p3)) => Some(((id, books), p3)),
                None => None,
            },
            None => None,
        },
        None => None,
    }
}

/// The solution that the text `s` writes down: the number of libraries,
/// then the libraries.
pub open spec fn solution_of(s: Seq<u8>) -> Option<Seq<(usize, Seq<BookId>)>> {
    match value_at::<usize>(s, 0) {
        Some((n, p1)) => match repeat(s, p1, n as nat, |s: Seq<u8>, p: int| entry_at(s, p)) {
            Some((entries, p2)) => Some(entries),
            None => None,
        },
        None => None,
    }
}

/// The libraries of a solution as mathematical values.
pub open spec fn solution_view(libs: Seq<SolutionLibrary>) -> Seq<(usize, Seq<BookId>)> {
    libs.map_values(|l: SolutionLibrary| (l.id, l.books@))
}

/// Reads a list of `n` numbers.
fn read_numbers(red: &mut Red, n: usize) -> (r: Option<Vec<usize>>)
    ensures
        final(red).bytes() == old(red).bytes(),
        match r {
            Some(v) => books_at(old(red).bytes(), old(red).pos(), n as nat) == Some(
                (v@, final(red).pos()),
            ),
            None => books_at(old(red).bytes(), old(red).pos(), n as nat) is None,
        },
{
    match red.try_read_vec::<usize>(n) {
        Ok(v) => {
            assert(views(v@) =~= v@);
            Some(v)
        },
        Err(_) => None,
    }
}

/// Reads one library, which gets the number `id`.
fn read_library(red: &mut Red, id: usize) -> (r: Option<Library>)
    ensures
        final(red).bytes() == old(red).bytes(),
        match r {
            Some(lib) => {
                &&& library_at(old(red).bytes(), old(red).pos()) matches Some((text, p))
                &&& p == final(red).pos()
                &&& lib.id == id
                &&& lib.n_days == text.n_days
                &&& lib.n_ship_daily == text.n_ship_daily
                &&& lib.books@ == text.books
                &&& !lib.is_zero_score
                &&& lib.used_books@ == Seq::<BookId>::empty()
            },
            None => library_at(old(red).bytes(), old(red).pos()) is None,
        },
{
    let n_books = match red.value::<usize>() {
        Some(v) => v,
        None => {
            return None;
        },
    };
    let n_days = match red.value::<usize>() {
        Some(v) => v,
        None => {
            return None;
        },
    };
    let n_ship_daily = match red.value::<usize>() {
        Some(v) => v,
        None => {
            return None;
        },
    };
    let books = match read_numbers(red, n_books) {
        Some(v) => v,
        None => {
            return None;
        },
    };
    Some(Library::new(id, n_days, n_ship_daily, books))
}

/// Reads a problem instance from its text: the numbers of books,
/// libraries and days, the scores of the books, and the libraries.
pub fn try_read_problem(bytes: Vec<u8>) -> (r: Option<
    (usize, usize, usize, Vec<BookScore>, Vec<Library>),
>)
    ensures
        match r {
            Some((n_books, n_libs, n_days, book_scores, libs)) => {
                &&& problem_of(bytes@) matches Some(text)
                &&& n_books == text.n_books
                &&& n_libs == text.n_libs
                &&& n_days == text.n_days
                &&& book_scores@ == text.book_scores
                &&& book_scores@.len() == n_books
                &&& libraries_match(libs@, text.libs)
                &&& libs@.len() == n_libs
            },
            None => problem_of(bytes@) is None,
        },
{
    let ghost s = bytes@;
    let mut red = Red::new(bytes);
    let n_books = match red.value::<usize>() {
        Some(v) => v,
        None => {
            return None;
        },
    };
    let n_libs = match red.value::<usize>() {
        Some(v) => v,
        None => {
            return None;
        },
    };
    let n_days = match red.value::<usize>() {
        Some(v) => v,
        None => {
            return None;
        },
    };
    let ghost p3 = red.pos();
    let book_scores = match red.try_read_vec::<BookScore>(n_books) {
        Ok(v) => v,
        Err(_) => {
            return None;
        },
    };
    proof {
        assert(views(book_scores@) =~= book_scores@);
        lemma_read_many_len::<BookScore>(s, p3, n_books as nat);
    }
    let ghost p4 = red.pos();
    let ghost one = |s: Seq<u8>, p: int| library_at(s, p);
    let ghost mut texts: Seq<LibraryText> = Seq::empty();
    let mut libs: Vec<Library> = Vec::new();
    let mut j: usize = 0;
    while j < n_libs
        invariant
            j <= n_libs,
            red.bytes() == s,
            s == bytes@,
            one == |s: Seq<u8>, p: int| library_at(s, p),
            repeat(s, p4, j as nat, one) == Some((texts, red.pos())),
            texts.len() == j,
            problem_of(s) == match repeat(s, p4, n_libs as nat, one) {
                Some((all, p5)) => Some(
                    ProblemText { n_books, n_libs, n_days, book_scores: book_scores@, libs: all },
                ),
                None => None,
            },
            libraries_match(libs@, texts),
        decreases n_libs - j,
    {
        let ghost at = red.pos();
        match read_library(&mut red, j) {
            Some(lib) => {
                proof {
                    texts = texts.push((library_at(s, at)->0).0);
                }
                libs.push(lib);
            },
            None => {
                proof {
                    lemma_repeat_stops(s, p4, (j + 1) as nat, n_libs as nat, one);
                }
                return None;
            },
        }
        j = j + 1;
    }
    Some((n_books, n_libs, n_days, book_scores, libs))
}

/// Reads one library of a solution.
fn read_entry(red: &mut Red) -> (r: Option<SolutionLibrary>)
    ensures
        final(red).bytes() == old(red).bytes(),
        match r {
            Some(lib) => entry_at(old(red).bytes(), old(red).pos()) == Some(
                ((lib.id, lib.books@), final(red).pos()),
            ),
            None => entry_at(old(red).bytes(), old(red).pos()) is None,
        },
{
    let id = match red.value::<usize>() {
        Some(v) => v,
        None => {
            return None;
        },
    };
    let n_books = match red.value::<usize>() {
        Some(v) => v,
        None => {
            return None;
        },
    };
    let books = match read_numbers(red, n_books) {
        Some(v) => v,
        None => {
            return None;
        },
    };
    Some(SolutionLibrary { id, books })
}

/// Reads a solution from its text: the number of libraries, then each
/// library with its number, the number of its books and the books.
pub fn try_read_solution(bytes: Vec<u8>) -> (r: Option<Vec<SolutionLibrary>>)
    ensures
        match r {
            Some(libs) => solution_of(bytes@) == Some(solution_view(libs@)),
            None => solution_of(bytes@) is None,
        },
{
    let ghost s = bytes@;
    let mut red = Red::new(bytes);
    let n = match red.value::<usize>() {
        Some(v) => v,
        None => {
            return None;
        },
    };
    let ghost p1 = red.pos();
    let ghost one = |s: Seq<u8>, p: int| entry_at(s, p);
    let mut libs: Vec<SolutionLibrary> = Vec::new();
    let mut j: usize = 0;
    assert(solution_view(libs@) =~= Seq::<(usize, Seq<BookId>)>::empty());
    while j < n
        invariant
            j <= n,
            red.bytes() == s,
            s == bytes@,
            one == |s: Seq<u8>, p: int| entry_at(s, p),
            repeat(s, p1, j as nat, one) == Some((solution_view(libs@), red.pos())),
            solution_of(s) == match repeat(s, p1, n as nat, one) {
                Some((all, p2)) => Some(all),
                None => None,
            },
        decreases n - j,
    {
        let ghost before = solution_view(libs@);
        match read_entry(&mut red) {
            Some(lib) => {
                let ghost entry = (lib.id, lib.books@);
                libs.push(lib);
                assert(solution_view(libs@) =~= before.push(entry));
            },
            None => {
                proof {
                    lemma_repeat_stops(s, p1, (j + 1) as nat, n as nat, one);
                }
                return None;
            },
        }
        j = j + 1;
    }
    Some(libs)
}

/// Reads a problem instance from a text that describes one: see
/// [`problem_of`].
pub fn read_problem(bytes: Vec<u8>) -> (r: (usize, usize, usize, Vec<BookScore>, Vec<Library>))
    requires
        problem_of(bytes@) is Some,
    ensures
        problem_of(bytes@) matches Some(text) && {
            &&& r.0 == text.n_books
            &&& r.1 == text.n_libs
            &&& r.2 == text.n_days
            &&& r.3@ == text.book_scores
            &&& r.3@.len() == r.0
            &&& libraries_match(r.4@, text.libs)
            &&& r.4@.len() == r.1
        },
{
    match try_read_problem(bytes) {
        Some(problem) => problem,
        None => vstd::pervasive::unreached(),
    }
}

/// Reads a solution from a text that writes one down: see
/// [`solution_of`].
pub fn read_solution(bytes: Vec<u8>) -> (libs: Vec<SolutionLibrary>)
    requires
        solution_of(bytes@) is Some,
    ensures
        solution_of(bytes@) == Some(solution_view(libs@)),
{
    match try_read_solution(bytes) {
        Some(libs) => libs,
        None => vstd::pervasive::unreached(),
    }
}

} // verus!
