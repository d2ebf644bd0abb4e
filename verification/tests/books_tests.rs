use hashcode::qualification2020::check::{check, try_check, CheckError};
use hashcode::qualification2020::model::{Library, SolutionLibrary};
use hashcode::qualification2020::parse::{
    read_problem, read_solution, try_read_problem, try_read_solution,
};
use hashcode::qualification2020::solve::{
    clear_scores, evaluate, libraries_valid, select_best, sign_up, solve,
};

const EXAMPLE: &str = "6 2 7\n1 2 3 6 5 4\n5 2 2\n0 1 2 3 4\n4 3 1\n3 2 5 0\n";

fn example() -> (usize, usize, usize, Vec<u32>, Vec<Library>) {
    try_read_problem(EXAMPLE.as_bytes().to_vec()).unwrap()
}

fn entry(id: usize, books: Vec<usize>) -> SolutionLibrary {
    SolutionLibrary { id, books }
}

#[test]
fn a_new_library_has_not_signed_up() {
    let mut lib = Library::new(3, 2, 5, vec![4, 1]);
    assert_eq!((lib.id, lib.n_days, lib.n_ship_daily), (3, 2, 5));
    assert_eq!(lib.books, vec![4, 1]);
    assert_eq!(lib.n_books(), 2);
    assert!(!lib.is_used());
    assert!(lib.used_books.is_empty());
    lib.mark_as_used();
    assert!(lib.is_used());
    assert_eq!(lib.books, vec![4, 1]);
    assert_eq!((lib.id, lib.n_days, lib.n_ship_daily), (3, 2, 5));
}

#[test]
fn the_example_of_2020_is_read() {
    let (n_books, n_libs, n_days, scores, libs) = example();
    assert_eq!((n_books, n_libs, n_days), (6, 2, 7));
    assert_eq!(scores, vec![1, 2, 3, 6, 5, 4]);
    assert_eq!(libs.len(), 2);
    assert_eq!((libs[0].id, libs[0].n_days, libs[0].n_ship_daily), (0, 2, 2));
    assert_eq!(libs[0].books, vec![0, 1, 2, 3, 4]);
    assert_eq!((libs[1].id, libs[1].n_days, libs[1].n_ship_daily), (1, 3, 1));
    assert_eq!(libs[1].books, vec![3, 2, 5, 0]);
    assert!(!libs[1].is_used());
}

#[test]
fn a_problem_of_2020_that_is_cut_short_is_refused() {
    assert!(try_read_problem(b"6 2 7\n1 2 3 6 5\n".to_vec()).is_none());
    assert!(try_read_problem(b"6 2 7\n1 2 3 6 5 4\n5 2 2\n0 1 2 3 4\n4 3 1\n3 2 5\n".to_vec()).is_none());
    assert!(try_read_problem(b"1 0".to_vec()).is_none());
    assert!(try_read_problem(b"1 0 5 -1".to_vec()).is_none());
    assert!(try_read_problem(b"0 0 0".to_vec()).is_some());
}

#[test]
fn a_solution_of_2020_is_read() {
    let libs = try_read_solution(b"2\n1 3\n5 2 3\n0 5\n0 1 2 3 4\n".to_vec()).unwrap();
    assert_eq!(libs.len(), 2);
    assert_eq!(libs[0].id, 1);
    assert_eq!(libs[0].books, vec![5, 2, 3]);
    assert_eq!(libs[1].id, 0);
    assert_eq!(libs[1].books, vec![0, 1, 2, 3, 4]);
    assert!(try_read_solution(b"2\n1 3\n5 2 3\n".to_vec()).is_none());
    assert!(try_read_solution(b"".to_vec()).is_none());
    assert_eq!(try_read_solution(b"0".to_vec()).unwrap().len(), 0);
}

#[test]
fn the_best_books_come_best_first() {
    let (_, _, n_days, scores, libs) = example();
    assert_eq!(libs[0].get_best_books(0, n_days, &scores), vec![3, 4, 2, 1, 0]);
    assert_eq!(libs[1].get_best_books(0, n_days, &scores), vec![3, 5, 2, 0]);
}

#[test]
fn no_more_books_are_sent_than_the_days_allow() {
    let (_, _, n_days, scores, libs) = example();
    // signing up from day 2 to day 5 leaves 2 days for one book each
    assert_eq!(libs[1].get_best_books(2, n_days, &scores), vec![3, 5]);
    assert_eq!(libs[1].get_best_books(3, n_days, &scores), vec![3]);
    // the sign-up must be over before the last day
    assert_eq!(libs[1].get_best_books(4, n_days, &scores), Vec::<usize>::new());
    assert_eq!(libs[0].get_best_books(5, n_days, &scores), Vec::<usize>::new());
    assert_eq!(libs[0].get_best_books(4, n_days, &scores), vec![3, 4]);
    assert_eq!(libs[0].get_best_books(usize::MAX, n_days, &scores), Vec::<usize>::new());
    assert_eq!(libs[0].get_best_books(0, usize::MAX, &scores), vec![3, 4, 2, 1, 0]);
}

#[test]
fn books_that_score_nothing_are_not_sent() {
    let lib = Library::new(0, 1, 10, vec![0, 1, 2, 3]);
    assert_eq!(lib.get_best_books(0, 5, &[0, 7, 0, 7]), vec![3, 1]);
    // a book without score still takes its place among the books that can be sent
    let slow = Library::new(0, 1, 1, vec![0, 1, 2, 3]);
    assert_eq!(slow.get_best_books(0, 4, &[0, 0, 5, 0]), vec![2]);
    assert_eq!(slow.get_best_books(0, 3, &[0, 0, 0, 0]), Vec::<usize>::new());
}

#[test]
fn a_book_listed_twice_is_sent_twice() {
    let lib = Library::new(0, 1, 10, vec![2, 2, 1]);
    assert_eq!(lib.get_best_books(0, 5, &[0, 3, 9]), vec![2, 2, 1]);
}

#[test]
fn the_books_of_the_first_day() {
    let (_, _, _, scores, libs) = example();
    assert_eq!(libs[0].best_books_for_day(&scores), vec![3, 4]);
    assert_eq!(libs[1].best_books_for_day(&scores), vec![3]);
    // among equal scores the book that is listed later comes first
    let lib = Library::new(0, 1, 3, vec![0, 1, 2, 3]);
    assert_eq!(lib.best_books_for_day(&[5, 5, 9, 5]), vec![2, 3, 1]);
    let few = Library::new(0, 1, 9, vec![1, 0]);
    assert_eq!(few.best_books_for_day(&[5, 5]), vec![0, 1]);
    let none = Library::new(0, 1, 0, vec![1, 0]);
    assert_eq!(none.best_books_for_day(&[5, 5]), Vec::<usize>::new());
}

#[test]
fn a_library_is_worth_its_books_per_day_of_signing_up() {
    let (_, _, n_days, scores, libs) = example();
    assert_eq!(evaluate(&libs[0], 0, n_days, &scores), (0, vec![3, 4, 2, 1, 0], 8));
    assert_eq!(evaluate(&libs[1], 0, n_days, &scores), (1, vec![3, 5, 2, 0], 4));
    assert_eq!(evaluate(&libs[1], 4, n_days, &scores), (1, vec![], 0));
}

#[test]
fn the_last_of_the_best_results_is_selected() {
    assert_eq!(select_best(&vec![]), None);
    assert_eq!(select_best(&vec![(4, vec![], 7)]), Some(0));
    assert_eq!(select_best(&vec![(4, vec![], 7), (2, vec![1], 9), (0, vec![], 9), (1, vec![], 3)]), Some(2));
    assert_eq!(select_best(&vec![(4, vec![], 0), (2, vec![], 0)]), Some(1));
}

#[test]
fn the_scores_of_books_that_are_sent_are_cleared() {
    let mut scores = vec![1, 2, 3, 6, 5, 4];
    clear_scores(&mut scores, &vec![3, 0, 3]);
    assert_eq!(scores, vec![0, 2, 3, 0, 5, 4]);
    clear_scores(&mut scores, &vec![]);
    assert_eq!(scores, vec![0, 2, 3, 0, 5, 4]);
}

#[test]
fn the_plan_for_the_example_of_2020() {
    let (_, _, n_days, scores, libs) = example();
    let plan = solve(n_days, scores.clone(), &libs);
    assert_eq!(plan, vec![(0, vec![3, 4, 2, 1, 0]), (1, vec![5])]);
    let solution: Vec<SolutionLibrary> =
        plan.into_iter().map(|(id, books)| entry(id, books)).collect();
    assert_eq!(try_check(n_days, &scores, &libs, &solution), Ok(21));
}

#[test]
fn among_libraries_that_are_worth_as_much_the_last_signs_up_first() {
    let libs = vec![
        Library::new(0, 1, 1, vec![0]),
        Library::new(1, 1, 1, vec![1]),
        Library::new(2, 1, 1, vec![2]),
    ];
    assert_eq!(solve(10, vec![5, 5, 5], &libs), vec![(2, vec![2]), (1, vec![1]), (0, vec![0])]);
}

#[test]
fn signing_up_ends_where_the_time_is_over() {
    let libs = vec![Library::new(0, 3, 1, vec![0]), Library::new(1, 4, 1, vec![1])];
    // library 1 is worth nothing more after library 0, and cannot finish signing up
    assert_eq!(solve(6, vec![9, 8], &libs), vec![(0, vec![0])]);
    assert_eq!(solve(3, vec![9, 8], &libs), vec![]);
    assert_eq!(solve(0, vec![9, 8], &libs), vec![]);
    assert_eq!(solve(usize::MAX, vec![9, 8], &libs), vec![(0, vec![0]), (1, vec![1])]);
}

#[test]
fn a_library_that_has_signed_up_is_left_out() {
    let mut libs = vec![Library::new(0, 1, 1, vec![0]), Library::new(1, 1, 1, vec![1])];
    libs[0].mark_as_used();
    assert_eq!(solve(10, vec![9, 8], &libs), vec![(1, vec![1])]);
    assert_eq!(solve(10, vec![], &vec![]), vec![]);
}

#[test]
fn the_score_of_the_libraries_in_the_problem_statement() {
    let (_, _, n_days, scores, libs) = example();
    let solution = vec![entry(1, vec![5, 2, 3]), entry(0, vec![0, 1, 2, 3, 4])];
    assert_eq!(try_check(n_days, &scores, &libs, &solution), Ok(16));
}

#[test]
fn books_beyond_what_the_days_allow_do_not_count() {
    let (_, _, n_days, scores, libs) = example();
    // library 1 has 4 days for one book each; a book it does not have beyond them is not looked at
    let solution = vec![entry(1, vec![3, 2, 5, 0, 4])];
    assert_eq!(try_check(n_days, &scores, &libs, &solution), Ok(14));
    // signed up on the last day, nothing is sent
    let late = vec![entry(0, vec![]), entry(1, vec![]), entry(0, vec![])];
    assert_eq!(try_check(n_days, &scores, &libs, &late), Err(CheckError::TooManyLibraries));
    assert_eq!(try_check(2, &scores, &libs, &vec![entry(0, vec![3, 9])]), Ok(0));
}

#[test]
fn a_book_counts_once() {
    let (_, _, n_days, scores, libs) = example();
    let solution = vec![entry(0, vec![3, 3, 3]), entry(1, vec![3, 5])];
    assert_eq!(try_check(n_days, &scores, &libs, &solution), Ok(10));
}

#[test]
fn solutions_of_2020_that_cannot_be_scored() {
    let (_, _, n_days, scores, libs) = example();
    let check_it = |solution: Vec<SolutionLibrary>| try_check(n_days, &scores, &libs, &solution);
    assert_eq!(check_it(vec![entry(0, vec![]), entry(0, vec![])]), Err(CheckError::DuplicateLibrary));
    assert_eq!(check_it(vec![entry(7, vec![]), entry(7, vec![])]), Err(CheckError::DuplicateLibrary));
    assert_eq!(check_it(vec![entry(2, vec![])]), Err(CheckError::UnknownLibrary));
    assert_eq!(check_it(vec![entry(1, vec![4])]), Err(CheckError::ForeignBook));
    assert_eq!(check_it(vec![entry(1, vec![3, 9])]), Err(CheckError::ForeignBook));
    assert_eq!(try_check(4, &scores, &libs, &vec![entry(0, vec![]), entry(1, vec![])]), Err(CheckError::SignUpTooLate));
    assert_eq!(try_check(5, &scores, &libs, &vec![entry(0, vec![3]), entry(1, vec![3])]), Ok(6));
    assert_eq!(check_it(vec![]), Ok(0));
}

#[test]
fn libraries_that_can_be_worked_on() {
    let (_, _, _, scores, libs) = example();
    assert!(libraries_valid(&libs, scores.len()));
    assert!(!libraries_valid(&libs, 5));
    assert!(libraries_valid(&vec![], 0));
    assert!(!libraries_valid(&vec![Library::new(1, 1, 1, vec![])], 3));
    assert!(!libraries_valid(&vec![Library::new(0, 0, 1, vec![])], 3));
    assert!(!libraries_valid(&vec![Library::new(0, 1, 1, vec![3])], 3));
    assert!(libraries_valid(&vec![Library::new(0, 1, 0, vec![2, 2])], 3));
}

#[test]
fn a_library_signs_up_where_there_is_time() {
    let (_, _, n_days, mut scores, mut libs) = example();
    assert_eq!(sign_up(&mut libs, &mut scores, 0, n_days, 1, &vec![3, 5]), Some(3));
    assert_eq!(scores, vec![1, 2, 3, 0, 5, 0]);
    assert!(libs[1].is_used() && !libs[0].is_used());
    assert_eq!(sign_up(&mut libs, &mut scores, 5, n_days, 0, &vec![0]), None);
    assert_eq!(sign_up(&mut libs, &mut scores, usize::MAX, n_days, 0, &vec![0]), None);
    assert_eq!(scores, vec![1, 2, 3, 0, 5, 0]);
    assert!(!libs[0].is_used());
    assert_eq!(sign_up(&mut libs, &mut scores, 4, n_days, 0, &vec![]), Some(6));
    assert!(libs[0].is_used());
}

#[test]
fn a_text_that_describes_libraries_is_read_outright() {
    let (n_books, n_libs, n_days, scores, libs) = read_problem(EXAMPLE.as_bytes().to_vec());
    assert_eq!((n_books, n_libs, n_days), (6, 2, 7));
    let solution = read_solution(b"2\n1 3\n5 2 3\n0 5\n0 1 2 3 4\n".to_vec());
    assert_eq!(solution[0].books, vec![5, 2, 3]);
    assert_eq!(check(n_days, &scores, &libs, &solution), 16);
    assert_eq!(check(n_days, &scores, &libs, &vec![]), 0);
}
