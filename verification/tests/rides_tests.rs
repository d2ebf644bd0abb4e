use hashcode::qualification2018::check::{check, try_check, CheckError};
use hashcode::qualification2018::model::{steps, Car, Position, Ride, SolutionCar};
use hashcode::qualification2018::parse::{
    read_problem, read_solution, try_read_problem, try_read_solution,
};
use hashcode::qualification2018::solve::{best_ride, nearest_starts, solve, sort_rides};

const EXAMPLE: &str = "3 4 2 3 2 10\n0 0 1 3 2 9\n1 2 1 0 0 9\n2 0 2 2 0 9\n";

fn example() -> (usize, usize, usize, usize, usize, usize, Vec<Ride>) {
    try_read_problem(EXAMPLE.as_bytes().to_vec()).unwrap()
}

fn ride(id: usize, a: (i32, i32), b: (i32, i32), t_start: u32, t_finish: u32) -> Ride {
    Ride {
        id,
        c_start: Position(a.0, a.1),
        c_finish: Position(b.0, b.1),
        t_start,
        t_finish,
        used: false,
    }
}

fn cars_of(lists: Vec<Vec<usize>>) -> Vec<SolutionCar> {
    lists.into_iter().enumerate().map(|(id, rides)| SolutionCar { id, rides }).collect()
}

#[test]
fn the_distance_counts_rows_and_columns() {
    assert_eq!(Position(0, 0).distance(&Position(1, 3)), 4);
    assert_eq!(Position(1, 3).distance(&Position(0, 0)), 4);
    assert_eq!(Position(-2, 5).distance(&Position(3, -1)), 11);
    assert_eq!(Position(7, 7).distance(&Position(7, 7)), 0);
    assert_eq!(Position(i32::MIN, 0).distance(&Position(i32::MAX, 0)), u32::MAX);
}

#[test]
fn steps_are_counted_beyond_what_a_time_holds() {
    assert_eq!(steps(&Position(i32::MIN, i32::MIN), &Position(i32::MAX, i32::MAX)), 0x1_ffff_fffe);
    assert_eq!(steps(&Position(0, 0), &Position(0, 0)), 0);
}

#[test]
fn the_default_position_is_the_corner() {
    let p = Position::default();
    assert_eq!((p.0, p.1), (0, 0));
}

#[test]
fn the_length_of_a_ride_is_the_distance_of_its_ends() {
    assert_eq!(ride(0, (0, 0), (1, 3), 2, 9).length(), 4);
    assert_eq!(ride(0, (2, 2), (2, 2), 0, 0).length(), 0);
}

#[test]
fn a_new_car_waits_at_the_corner() {
    let car = Car::new(7);
    assert_eq!(car.id, 7);
    assert_eq!((car.c.0, car.c.1), (0, 0));
    assert_eq!(car.t, 0);
    assert!(car.rides.is_empty());
}

#[test]
fn a_car_that_is_early_waits_for_the_ride_to_start() {
    let mut car = Car::new(0);
    car.assign(&ride(5, (0, 0), (1, 3), 2, 9));
    assert_eq!(car.t, 6);
    assert_eq!((car.c.0, car.c.1), (1, 3));
    assert_eq!(car.rides, vec![5]);
}

#[test]
fn a_car_that_is_late_starts_when_it_arrives() {
    let mut car = Car::new(0);
    car.assign(&ride(1, (1, 2), (1, 0), 0, 9));
    assert_eq!(car.t, 5);
    car.assign(&ride(2, (2, 0), (2, 2), 0, 9));
    assert_eq!(car.t, 8);
    assert_eq!(car.rides, vec![1, 2]);
    assert_eq!((car.c.0, car.c.1), (2, 2));
}

#[test]
fn the_example_of_2018_is_read() {
    let (n_rows, n_cols, n_cars, n_rides, bonus, n_steps, rides) = example();
    assert_eq!((n_rows, n_cols, n_cars, n_rides, bonus, n_steps), (3, 4, 2, 3, 2, 10));
    assert_eq!(rides.len(), 3);
    assert_eq!(rides[0].id, 0);
    assert_eq!((rides[0].c_start.0, rides[0].c_start.1), (0, 0));
    assert_eq!((rides[0].c_finish.0, rides[0].c_finish.1), (1, 3));
    assert_eq!((rides[0].t_start, rides[0].t_finish), (2, 9));
    assert_eq!(rides[2].id, 2);
    assert_eq!((rides[2].c_start.0, rides[2].c_start.1), (2, 0));
    assert!(!rides[1].used);
}

#[test]
fn a_problem_of_2018_that_is_cut_short_is_refused() {
    assert!(try_read_problem(b"3 4 2 3 2 10\n0 0 1 3 2 9\n1 2 1 0 0 9\n2 0 2 2 0".to_vec()).is_none());
    assert!(try_read_problem(b"3 4 2 3 2".to_vec()).is_none());
    assert!(try_read_problem(b"3 4 2 1 2 10 0 0 1 3 -2 9".to_vec()).is_none());
    assert!(try_read_problem(b"3 4 2 0 2 10".to_vec()).is_some());
}

#[test]
fn a_solution_of_2018_is_read() {
    let cars = try_read_solution(2, b"1 0\n2 2 1\n".to_vec()).unwrap();
    assert_eq!(cars.len(), 2);
    assert_eq!(cars[0].id, 0);
    assert_eq!(cars[0].rides, vec![0]);
    assert_eq!(cars[1].id, 1);
    assert_eq!(cars[1].rides, vec![2, 1]);
    assert!(try_read_solution(2, b"1 0\n2 2\n".to_vec()).is_none());
    assert!(try_read_solution(3, b"1 0\n2 2 1\n".to_vec()).is_none());
    assert_eq!(try_read_solution(0, b"".to_vec()).unwrap().len(), 0);
}

#[test]
fn rides_are_put_in_the_order_of_their_start() {
    let (.., rides) = example();
    let sorted = sort_rides(&rides);
    assert_eq!(sorted.iter().map(|r| r.id).collect::<Vec<_>>(), vec![1, 2, 0]);
    assert_eq!(sorted[2].t_start, 2);
    assert_eq!((sorted[0].c_start.0, sorted[0].c_start.1), (1, 2));
}

#[test]
fn the_nearest_start_of_another_ride() {
    let (.., rides) = example();
    assert_eq!(nearest_starts(&sort_rides(&rides)), vec![1, 1, 1]);
    assert_eq!(nearest_starts(&rides), vec![1, 1, 1]);
    let alone = vec![ride(0, (0, 0), (5, 5), 0, 9)];
    assert_eq!(nearest_starts(&alone), vec![u32::MAX as u64]);
    let two = vec![ride(0, (0, 0), (5, 5), 0, 9), ride(1, (9, 9), (0, 1), 0, 9)];
    assert_eq!(nearest_starts(&two), vec![8, 1]);
}

#[test]
fn the_best_ride_wastes_least_and_comes_first_among_equals() {
    let (.., rides) = example();
    let sorted = sort_rides(&rides);
    let far = nearest_starts(&sorted);
    let car = Car::new(0);
    assert_eq!(best_ride(&sorted, &far, &vec![false, false, false], &car, 10), Some(1));
    assert_eq!(best_ride(&sorted, &far, &vec![false, true, false], &car, 10), Some(2));
    assert_eq!(best_ride(&sorted, &far, &vec![false, true, true], &car, 10), Some(0));
    assert_eq!(best_ride(&sorted, &far, &vec![true, true, true], &car, 10), None);
}

#[test]
fn a_ride_that_would_end_too_late_is_not_taken() {
    let rides = vec![ride(0, (0, 0), (0, 5), 0, 4), ride(1, (0, 0), (0, 5), 0, 5)];
    let far = nearest_starts(&rides);
    assert_eq!(best_ride(&rides, &far, &vec![false, false], &Car::new(0), 10), Some(1));
    assert_eq!(best_ride(&rides, &far, &vec![false, true], &Car::new(0), 10), None);
}

#[test]
fn a_ride_that_ends_early_counts_the_way_to_the_next_start() {
    // ride 0 is near but leads far away from any other start; ride 1 is one step further
    let rides = vec![
        ride(0, (0, 1), (0, 100), 0, 1000),
        ride(1, (0, 2), (0, 3), 0, 1000),
        ride(2, (0, 3), (0, 4), 0, 1000),
    ];
    let far = nearest_starts(&rides);
    assert_eq!(far, vec![97, 0, 2]);
    // 98 hundredths of 20000 steps: every ride ends before that, so 97 / 15 = 6 is added
    assert_eq!(best_ride(&rides, &far, &vec![false; 3], &Car::new(0), 20000), Some(1));
    // with 10 steps the threshold is 0 and nothing is added
    assert_eq!(best_ride(&rides, &far, &vec![false; 3], &Car::new(0), 10), Some(0));
}

#[test]
fn the_rides_of_the_example_of_2018() {
    let (_, _, n_cars, _, bonus, n_steps, rides) = example();
    let cars = solve(n_cars, n_steps, &rides);
    assert_eq!(cars.len(), 2);
    assert_eq!(cars[0].id, 0);
    assert_eq!(cars[0].rides, vec![2, 1]);
    assert_eq!(cars[0].t, 7);
    assert_eq!(cars[1].id, 1);
    assert_eq!(cars[1].rides, vec![0]);
    assert_eq!(cars[1].t, 6);
    let solution = cars_of(cars.iter().map(|c| c.rides.clone()).collect());
    assert_eq!(try_check(bonus, &rides, &solution), Ok(10));
}

#[test]
fn no_cars_or_no_rides_give_no_assignment() {
    let (.., rides) = example();
    assert_eq!(solve(0, 10, &rides).len(), 0);
    let cars = solve(2, 10, &vec![]);
    assert_eq!(cars.len(), 2);
    assert!(cars[0].rides.is_empty() && cars[1].rides.is_empty());
}

#[test]
fn the_score_of_the_rides_in_the_problem_statement() {
    let (_, _, _, _, bonus, _, rides) = example();
    assert_eq!(try_check(bonus, &rides, &cars_of(vec![vec![0], vec![2, 1]])), Ok(10));
    assert_eq!(try_check(bonus, &rides, &cars_of(vec![vec![], vec![]])), Ok(0));
    assert_eq!(try_check(bonus, &rides, &cars_of(vec![vec![0]])), Ok(6));
    assert_eq!(try_check(bonus, &rides, &cars_of(vec![vec![1]])), Ok(2));
}

#[test]
fn solutions_of_2018_that_cannot_be_scored() {
    let (_, _, _, _, bonus, _, rides) = example();
    assert_eq!(try_check(bonus, &rides, &cars_of(vec![vec![3]])), Err(CheckError::UnknownRide));
    assert_eq!(try_check(bonus, &rides, &cars_of(vec![vec![0], vec![0]])), Err(CheckError::RideReused));
    assert_eq!(try_check(bonus, &rides, &cars_of(vec![vec![0, 0]])), Err(CheckError::RideReused));
    assert_eq!(try_check(bonus, &rides, &cars_of(vec![vec![0, 1, 2]])), Err(CheckError::TooLate));
    let mut taken = example().6;
    taken[1].used = true;
    assert_eq!(try_check(bonus, &taken, &cars_of(vec![vec![1]])), Err(CheckError::RideReused));
}

#[test]
fn a_score_too_large_to_write_down_is_refused() {
    let rides = vec![ride(0, (0, 0), (0, 1), 0, 9), ride(1, (0, 1), (0, 2), 5, 9)];
    assert_eq!(try_check(usize::MAX, &rides, &cars_of(vec![vec![0, 1]])).is_ok(), usize::BITS < 128);
}

#[test]
fn a_text_that_describes_rides_is_read_outright() {
    let (n_rows, n_cols, n_cars, n_rides, bonus, n_steps, rides) =
        read_problem(EXAMPLE.as_bytes().to_vec());
    assert_eq!((n_rows, n_cols, n_cars, n_rides, bonus, n_steps), (3, 4, 2, 3, 2, 10));
    assert_eq!(rides.len(), 3);
    let cars = read_solution(2, b"1 0\n2 2 1\n".to_vec());
    assert_eq!(cars[1].rides, vec![2, 1]);
    assert_eq!(check(bonus, &rides, &cars), 10);
    assert_eq!(check(bonus, &rides, &cars_of(vec![vec![], vec![1]])), 2);
}
