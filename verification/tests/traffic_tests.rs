use hashcode::qualification2021::draft::{draft_solve, next_green_for_street, Draft, Outcome};
use hashcode::qualification2021::input::{read_problem, try_build, try_read_problem};
use hashcode::qualification2021::model::Input;
use hashcode::qualification2021::parse::try_read_city;
use hashcode::qualification2021::schedule::{doubled, doubling_fits, schedules};
use hashcode::qualification2021::check::{
    check, read_schedules, schedules_valid, try_check, try_read_schedules, CheckError,
};
use hashcode::qualification2021::simulate::{green, simulate, solve, Simulation};

const EXAMPLE: &str = "6 4 5 2 1000\n2 0 rue-de-londres 1\n0 1 rue-d-amsterdam 1\n3 1 rue-d-athenes 1\n2 3 rue-de-rome 2\n1 2 rue-de-moscou 3\n4 rue-de-londres rue-d-amsterdam rue-de-moscou rue-de-rome\n3 rue-d-athenes rue-de-moscou rue-de-londres\n";

fn example() -> Input {
    try_read_problem(EXAMPLE.as_bytes().to_vec()).unwrap()
}

#[test]
fn the_text_of_the_example_of_2021_is_read() {
    let city = try_read_city(EXAMPLE.as_bytes().to_vec()).unwrap();
    assert_eq!((city.duration, city.n_intersections, city.bonus), (6, 4, 1000));
    assert_eq!(city.streets.len(), 5);
    assert_eq!(city.streets[3].id, 3);
    assert_eq!((city.streets[3].from, city.streets[3].to, city.streets[3].len), (2, 3, 2));
    assert_eq!(city.streets[3].name, b"rue-de-rome".to_vec());
    assert_eq!(city.trips.len(), 2);
    assert_eq!(
        city.trips[1],
        vec![b"rue-d-athenes".to_vec(), b"rue-de-moscou".to_vec(), b"rue-de-londres".to_vec()]
    );
}

#[test]
fn the_example_of_2021_is_read_and_counted() {
    let input = example();
    assert_eq!((input.duration, input.n_intersections, input.bonus), (6, 4, 1000));
    assert_eq!(input.streets.iter().map(|s| s.id).collect::<Vec<_>>(), vec![0, 1, 2, 3, 4]);
    assert_eq!(input.streets[4].name, b"rue-de-moscou".to_vec());
    assert_eq!(input.cars.len(), 2);
    assert_eq!((input.cars[0].id, input.cars[0].dist), (0, 7));
    assert_eq!(input.cars[0].trip, vec![0, 1, 4, 3]);
    assert_eq!((input.cars[1].id, input.cars[1].dist), (1, 5));
    assert_eq!(input.cars[1].trip, vec![2, 4, 0]);
    assert_eq!(input.street_popularity, vec![1, 1, 1, 0, 2]);
    assert_eq!(input.intersection_popularity, vec![1, 2, 2, 0]);
    assert_eq!(
        input.intersection_to_incoming_streets,
        vec![vec![0], vec![1, 2], vec![4], vec![3]]
    );
}

#[test]
fn a_city_that_is_cut_short_is_refused() {
    assert!(try_read_problem(b"".to_vec()).is_none());
    assert!(try_read_problem(b"6 4 5 2".to_vec()).is_none());
    assert!(try_read_problem(b"6 1 1 0 10 0 0 a".to_vec()).is_none());
    assert!(try_read_problem(b"6 1 1 0 10 0 0 a x".to_vec()).is_none());
    assert!(try_read_problem(b"6 1 1 0 10 0 0 a 1".to_vec()).is_some());
    assert!(try_read_problem(b"6 1 1 1 10 0 0 a 1 x a".to_vec()).is_none());
    assert!(try_read_problem(b"x 1 0 0 10".to_vec()).is_none());
    assert!(try_read_problem(b"-6 0 0 0 -10".to_vec()).is_some());
}

#[test]
fn a_city_that_cannot_be_worked_on_is_refused() {
    // a street that ends nowhere
    assert!(try_read_problem(b"6 1 1 0 10 0 1 a 1".to_vec()).is_none());
    // a trip without streets
    assert!(try_read_problem(b"6 1 1 1 10 0 0 a 1 0".to_vec()).is_none());
    // a trip over a street that does not exist
    assert!(try_read_problem(b"6 1 1 1 10 0 0 a 1 1 b".to_vec()).is_none());
    // a trip too long to write its length down
    assert!(try_read_problem(b"6 1 1 1 10 0 0 a 2147483647 2 a a".to_vec()).is_none());
    assert!(try_read_problem(b"6 1 1 1 10 0 0 a 2147483647 1 a".to_vec()).is_some());
    // the text is read whether or not the city can be worked on
    assert!(try_read_city(b"6 1 1 1 10 0 0 a 1 1 b".to_vec()).is_some());
    assert!(try_build(try_read_city(b"6 1 1 1 10 0 0 a 1 1 b".to_vec()).unwrap()).is_none());
}

#[test]
fn of_streets_with_one_name_the_last_is_meant() {
    let input = try_read_problem(b"6 2 3 1 10 0 1 a 1 1 0 b 2 0 1 a 3 2 b a".to_vec()).unwrap();
    assert_eq!(input.cars[0].trip, vec![1, 2]);
    assert_eq!(input.cars[0].dist, 5);
    assert_eq!(input.street_popularity, vec![0, 1, 0]);
    assert_eq!(input.intersection_popularity, vec![1, 0]);
    assert_eq!(input.intersection_to_incoming_streets, vec![vec![1], vec![0, 2]]);
}

#[test]
fn the_green_times_follow_the_traffic() {
    let input = example();
    assert_eq!(
        schedules(&input),
        vec![vec![(0, 1)], vec![(1, 1), (2, 1)], vec![(4, 1)], vec![]]
    );
    assert_eq!(
        doubled(&schedules(&input)),
        vec![vec![(0, 2)], vec![(1, 2), (2, 2)], vec![(4, 2)], vec![]]
    );
}

#[test]
fn a_green_time_is_a_multiple_of_the_least_traffic_rounded_down() {
    // three streets into intersection 0 are passed by 2, 5 and 0 cars
    let text = "9 2 4 7 1\n1 0 a 1\n1 0 b 1\n1 0 c 1\n0 1 z 1\n\
                2 a z\n2 a z\n2 b z\n2 b z\n2 b z\n2 b z\n2 b z\n";
    let input = try_read_problem(text.as_bytes().to_vec()).unwrap();
    assert_eq!(input.street_popularity, vec![2, 5, 0, 0]);
    assert_eq!(schedules(&input), vec![vec![(0, 1), (1, 2)], vec![]]);
    assert_eq!(doubled(&schedules(&input)), vec![vec![(0, 2), (1, 4)], vec![]]);
}

#[test]
fn the_light_that_is_green() {
    let schedule = vec![(7, 2), (8, 1), (9, 3)];
    let seen: Vec<u32> = (0..13).map(|t| green(&schedule, t)).collect();
    assert_eq!(seen, vec![7, 7, 8, 9, 9, 9, 7, 7, 8, 9, 9, 9, 7]);
    assert_eq!(green(&vec![(4, 1)], i32::MAX), 4);
}

#[test]
fn the_cars_start_at_the_end_of_their_first_street() {
    let input = example();
    let sim = Simulation::new(&input);
    assert_eq!(sim.score, 0);
    assert_eq!(sim.done, vec![0, 0]);
    let queues: Vec<Vec<(i64, u32)>> =
        sim.queues.iter().map(|q| q.iter().copied().collect()).collect();
    assert_eq!(queues, vec![vec![(0, 0)], vec![], vec![(0, 1)], vec![], vec![]]);
}

#[test]
fn a_car_drives_on_when_its_light_is_green() {
    let input = example();
    let lights = schedules(&input);
    let mut sim = Simulation::new(&input);
    sim.step(&input, &lights, 0, 0);
    assert_eq!(sim.done, vec![1, 0]);
    assert_eq!(sim.queues[0].len(), 0);
    assert_eq!(sim.queues[1].iter().copied().collect::<Vec<_>>(), vec![(1, 0)]);
    // the car is still driving down the street
    sim.step(&input, &lights, 0, 1);
    assert_eq!(sim.done, vec![1, 0]);
    // an intersection without schedule
    sim.step(&input, &lights, 0, 3);
    assert_eq!(sim.done, vec![1, 0]);
    assert_eq!(sim.score, 0);
}

#[test]
fn the_points_of_the_example_of_2021() {
    let input = example();
    assert_eq!(simulate(&input, &schedules(&input)), 1001);
    assert_eq!(solve(&input), (schedules(&input), 1001));
    assert_eq!(simulate(&input, &doubled(&schedules(&input))), 0);
}

#[test]
fn a_car_that_finishes_gets_the_bonus_and_the_time_that_is_left() {
    // one street, one car that is done when its light is first green
    let input = try_read_problem(b"5 1 2 1 100 0 0 a 1 0 0 b 1 2 a b".to_vec()).unwrap();
    assert_eq!(input.street_popularity, vec![1, 0]);
    // at t = 0 the car leaves street a and is at the end of b at t = 1; b is never green
    assert_eq!(solve(&input).1, 0);
    let round = try_read_problem(b"5 1 1 1 100 0 0 a 1 2 a a".to_vec()).unwrap();
    // it leaves a at t = 0, is back at its end at t = 1 and finishes: 5 - 1 + 100
    assert_eq!(solve(&round).1, 104);
}

#[test]
fn without_time_nothing_happens() {
    let input = try_read_problem(b"0 1 1 1 100 0 0 a 1 2 a a".to_vec()).unwrap();
    assert_eq!(solve(&input).1, 0);
    let before = try_read_problem(b"-3 1 1 1 100 0 0 a 1 2 a a".to_vec()).unwrap();
    assert_eq!(solve(&before).1, 0);
}

#[test]
fn the_next_green_time_of_a_street() {
    let schedule = vec![(7, 2), (8, 1), (9, 3)];
    assert_eq!(next_green_for_street(&schedule, 0, 7), Some((0, 2)));
    assert_eq!(next_green_for_street(&schedule, 0, 8), Some((2, 3)));
    assert_eq!(next_green_for_street(&schedule, 0, 9), Some((3, 6)));
    assert_eq!(next_green_for_street(&schedule, 1, 7), Some((1, 2)));
    // in the first cycle a green time that is over is followed by the next
    assert_eq!(next_green_for_street(&schedule, 4, 8), Some((8, 9)));
    assert_eq!(next_green_for_street(&schedule, 7, 7), Some((7, 8)));
    // later it is not
    assert_eq!(next_green_for_street(&schedule, 10, 8), Some((10, 9)));
    assert_eq!(next_green_for_street(&schedule, 0, 5), None);
    assert_eq!(next_green_for_street(&vec![], 0, 5), None);
}

#[test]
fn a_cycle_too_long_to_be_timed_has_no_green_time() {
    let schedule = vec![(1, i32::MAX), (2, 1)];
    assert_eq!(next_green_for_street(&schedule, 0, 1), None);
    assert_eq!(next_green_for_street(&vec![(1, i32::MAX)], 5, 1), Some((5, i32::MAX as i64)));
}

#[test]
fn the_first_events_of_the_example_of_2021() {
    let input = example();
    let lights = doubled(&schedules(&input));
    let mut draft = Draft::new(&input);
    assert_eq!(draft.next_event, vec![0, 0, 0, 0, 0]);
    assert_eq!(draft.t, 0);
    assert_eq!(draft.step(&input, &lights), Outcome::Running);
    assert_eq!(draft.next_event, vec![i32::MAX as i64, 0, 0, 0, 0]);
    assert_eq!(draft.sim.done, vec![1, 0]);
    assert_eq!(draft.sim.queues[1].iter().copied().collect::<Vec<_>>(), vec![(1, 0)]);
    assert_eq!(draft.step(&input, &lights), Outcome::Running);
    assert_eq!(draft.sim.done, vec![2, 0]);
    assert_eq!(draft.sim.queues[4].iter().copied().collect::<Vec<_>>(), vec![(2, 0)]);
    // the light of the third street is red until second 2
    assert_eq!(draft.step(&input, &lights), Outcome::Running);
    assert_eq!(draft.next_event, vec![i32::MAX as i64, i32::MAX as i64, 2, 0, 0]);
    // the fourth street never turns green
    assert_eq!(draft.step(&input, &lights), Outcome::Stuck);
    assert_eq!(draft.sim.score, 0);
}

#[test]
fn the_events_of_the_example_of_2021_get_stuck() {
    let input = example();
    assert_eq!(draft_solve(&input, &doubled(&schedules(&input)), 0), (0, Outcome::OutOfSteps));
    assert_eq!(draft_solve(&input, &doubled(&schedules(&input)), 3), (0, Outcome::OutOfSteps));
    assert_eq!(draft_solve(&input, &doubled(&schedules(&input)), 4), (0, Outcome::Stuck));
    assert_eq!(draft_solve(&input, &doubled(&schedules(&input)), u32::MAX), (0, Outcome::Stuck));
}

#[test]
fn a_car_that_goes_round_finishes_by_events() {
    let round = try_read_problem(b"5 1 1 1 100 0 0 a 1 2 a a".to_vec()).unwrap();
    assert_eq!(draft_solve(&round, &doubled(&schedules(&round)), 10), (103, Outcome::Finished));
    assert_eq!(draft_solve(&round, &doubled(&schedules(&round)), 3), (103, Outcome::Finished));
    assert_eq!(draft_solve(&round, &doubled(&schedules(&round)), 2), (103, Outcome::OutOfSteps));
    assert_eq!(draft_solve(&round, &doubled(&schedules(&round)), 1), (103, Outcome::OutOfSteps));
    let nothing = try_read_problem(b"5 1 0 0 100".to_vec()).unwrap();
    assert_eq!(draft_solve(&nothing, &doubled(&schedules(&nothing)), 10), (0, Outcome::Finished));
}

#[test]
fn a_car_that_arrives_after_the_end_gets_nothing_by_events() {
    let round = try_read_problem(b"1 1 1 1 100 0 0 a 1 2 a a".to_vec()).unwrap();
    assert_eq!(draft_solve(&round, &doubled(&schedules(&round)), 10), (0, Outcome::Finished));
    let just = try_read_problem(b"2 1 1 1 100 0 0 a 1 2 a a".to_vec()).unwrap();
    assert_eq!(draft_solve(&just, &doubled(&schedules(&just)), 10), (100, Outcome::Finished));
}

#[test]
fn a_text_that_describes_a_city_is_read_outright() {
    let input = read_problem(EXAMPLE.as_bytes().to_vec());
    assert_eq!(input.cars[1].trip, vec![2, 4, 0]);
    assert_eq!(input.street_popularity, vec![1, 1, 1, 0, 2]);
}

#[test]
fn green_times_are_doubled_where_they_fit() {
    let lights = vec![vec![(0, 1), (3, 7)], vec![], vec![(2, 0x3fff_ffff), (1, -0x4000_0000)]];
    assert!(doubling_fits(&lights));
    assert_eq!(
        doubled(&lights),
        vec![vec![(0, 2), (3, 14)], vec![], vec![(2, 0x7fff_fffe), (1, i32::MIN)]]
    );
    assert!(!doubling_fits(&vec![vec![(0, 0x4000_0000)]]));
    assert!(!doubling_fits(&vec![vec![], vec![(0, 1), (0, -0x4000_0001)]]));
    assert!(doubling_fits(&vec![]));
}

#[test]
fn schedules_are_read_intersection_by_intersection() {
    let text = b"1 0 1\n2 1 1 2 1\n1 4 1\n0\n".to_vec();
    let expected = vec![vec![(0, 1)], vec![(1, 1), (2, 1)], vec![(4, 1)], vec![]];
    assert_eq!(read_schedules(4, text.clone()), expected);
    assert_eq!(try_read_schedules(4, text.clone()), Some(expected));
    assert_eq!(try_read_schedules(5, text), None);
    assert_eq!(try_read_schedules(1, b"1 0".to_vec()), None);
    assert_eq!(try_read_schedules(1, b"1 -1 5".to_vec()), None);
    assert_eq!(try_read_schedules(1, b"1 7 -5".to_vec()), Some(vec![vec![(7, -5)]]));
    assert_eq!(try_read_schedules(0, b"".to_vec()), Some(vec![]));
}

#[test]
fn schedules_that_can_be_followed() {
    let input = example();
    assert!(schedules_valid(&input, &schedules(&input)));
    assert!(schedules_valid(&input, &vec![vec![], vec![], vec![], vec![(4, 9), (4, 1)]]));
    assert!(!schedules_valid(&input, &vec![vec![], vec![], vec![]]));
    assert!(!schedules_valid(&input, &vec![vec![(5, 1)], vec![], vec![], vec![]]));
    assert!(!schedules_valid(&input, &vec![vec![(0, 0)], vec![], vec![], vec![]]));
    assert!(!schedules_valid(&input, &vec![vec![(0, 1); 6], vec![], vec![], vec![]]));
}

#[test]
fn the_points_of_schedules_that_are_written_down() {
    let input = example();
    let text = b"1 0 1\n2 1 1 2 1\n1 4 1\n0\n".to_vec();
    assert_eq!(try_check(&input, text.clone()), Ok(1001));
    assert_eq!(check(&input, text), 1001);
    // other green times: the second car finishes a second earlier
    assert_eq!(check(&input, b"1 0 2\n2 2 2 1 1\n1 4 1\n0\n".to_vec()), 1002);
    // all lights red
    assert_eq!(check(&input, b"0 0 0 0".to_vec()), 0);
}

#[test]
fn schedules_that_are_written_down_and_cannot_be_scored() {
    let input = example();
    assert_eq!(try_check(&input, b"".to_vec()), Err(CheckError::Malformed));
    assert_eq!(try_check(&input, b"0 0 0".to_vec()), Err(CheckError::Malformed));
    assert_eq!(try_check(&input, b"1 0 x 0 0 0".to_vec()), Err(CheckError::Malformed));
    assert_eq!(try_check(&input, b"1 5 1 0 0 0".to_vec()), Err(CheckError::BadSchedule));
    assert_eq!(try_check(&input, b"1 0 0 0 0 0".to_vec()), Err(CheckError::BadSchedule));
}

#[test]
fn what_the_solver_schedules_scores_as_it_is_written_down() {
    let input = example();
    let (lights, score) = solve(&input);
    let mut text = String::new();
    for schedule in &lights {
        text += &format!("{}", schedule.len());
        for (street, seconds) in schedule {
            text += &format!(" {} {}", street, seconds);
        }
        text += "\n";
    }
    assert_eq!(check(&input, text.into_bytes()), score);
}
