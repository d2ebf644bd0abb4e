use hashcode::qualification2017::greedy::{pair_score, solve, State};
use hashcode::qualification2017::index::Index;
use hashcode::qualification2017::model::{Endpoint, Placement, Problem, Request};
use hashcode::qualification2017::parse::{read_problem, try_read_problem};
use hashcode::qualification2017::check::{check, read_answer, try_check, try_read_answer, CheckError};
use hashcode::qualification2017::report::{
    answer, capacity_left, evaluate, solve_answer, total_score, EvalError, Evaluation,
};

const EXAMPLE: &str = "5 2 4 3 100\n50 50 80 30 110\n1000 3\n0 100\n2 200\n1 300\n500 0\n3 0 1500\n0 1 1000\n4 0 500\n1 0 1000\n";

fn example() -> Problem {
    try_read_problem(EXAMPLE.as_bytes().to_vec()).unwrap()
}

fn placed(server: usize, video: usize, score: i128) -> Placement {
    Placement { server, video, score }
}

#[test]
fn the_example_of_2017_is_read() {
    let p = example();
    assert_eq!(p.video_sizes, vec![50, 50, 80, 30, 110]);
    assert_eq!(p.n_cache, 3);
    assert_eq!(p.capacity, 100);
    assert_eq!(p.endpoints.len(), 2);
    assert_eq!(p.endpoints[0].dc_latency, 1000);
    assert_eq!(p.endpoints[0].caches, vec![(0, 100), (2, 200), (1, 300)]);
    assert_eq!(p.endpoints[1].dc_latency, 500);
    assert!(p.endpoints[1].caches.is_empty());
    assert_eq!(p.requests.len(), 4);
    assert_eq!(p.requests[0].video, 3);
    assert_eq!(p.requests[0].endpoint, 0);
    assert_eq!(p.requests[0].n_requests, 1500);
    assert_eq!(p.requests[3].video, 1);
}

#[test]
fn a_problem_of_2017_that_is_cut_short_is_refused() {
    assert!(try_read_problem(b"5 2 4 3 100\n50 50 80 30\n".to_vec()).is_none());
    assert!(try_read_problem(b"".to_vec()).is_none());
    assert!(try_read_problem(b"1 0 0 1".to_vec()).is_none());
}

#[test]
fn a_problem_of_2017_with_bad_numbers_is_refused() {
    // a negative count
    assert!(try_read_problem(b"-1 0 0 1 10".to_vec()).is_none());
    // a video without size
    assert!(try_read_problem(b"1 0 0 1 10 0".to_vec()).is_none());
    // a link to a server that does not exist
    assert!(try_read_problem(b"1 1 0 1 10 5 100 1 1 20".to_vec()).is_none());
    assert!(try_read_problem(b"1 1 0 1 10 5 100 1 -1 20".to_vec()).is_none());
    // a request from an endpoint that does not exist
    assert!(try_read_problem(b"1 1 1 1 10 5 100 0 0 1 7".to_vec()).is_none());
    // not a number
    assert!(try_read_problem(b"1 1 1 1 10 5 100 0 0 x 7".to_vec()).is_none());
}

#[test]
fn a_problem_of_2017_may_ask_for_videos_that_do_not_exist() {
    let p = try_read_problem(b"1 1 2 1 10 5 100 1 0 20 7 0 3 -2 0 4".to_vec()).unwrap();
    assert_eq!(p.requests[0].video, 7);
    assert_eq!(p.requests[1].video, -2);
    assert_eq!(solve(&p), vec![placed(0, 0, 0), placed(0, 0, 0)]);
}

#[test]
fn a_negative_number_of_links_counts_as_none() {
    let p = try_read_problem(b"1 1 0 1 10 5 100 -3".to_vec()).unwrap();
    assert!(p.endpoints[0].caches.is_empty());
}

#[test]
fn the_scores_of_the_example_of_2017() {
    let p = example();
    let idx = Index::new(&p);
    let best = vec![1000, 500, 1000, 1000];
    assert_eq!(pair_score(&p, &idx, &best, 0, 3), 45000);
    assert_eq!(pair_score(&p, &idx, &best, 1, 3), 35000);
    assert_eq!(pair_score(&p, &idx, &best, 2, 3), 40000);
    assert_eq!(pair_score(&p, &idx, &best, 0, 1), 18000);
    assert_eq!(pair_score(&p, &idx, &best, 0, 0), 0);
    assert_eq!(pair_score(&p, &idx, &best, 0, 2), 0);
    assert_eq!(pair_score(&p, &idx, &best, 0, 4), (900 * 500) / 110);
}

#[test]
fn a_score_is_rounded_towards_zero() {
    // one request that gains 7 per unit, negative number of requests
    let p = try_read_problem(b"1 1 1 1 10 3 100 1 0 93 0 0 -1".to_vec()).unwrap();
    let idx = Index::new(&p);
    assert_eq!(pair_score(&p, &idx, &vec![100], 0, 0), -2);
    let q = try_read_problem(b"1 1 1 1 10 3 100 1 0 93 0 0 1".to_vec()).unwrap();
    let idx = Index::new(&q);
    assert_eq!(pair_score(&q, &idx, &vec![100], 0, 0), 2);
}

#[test]
fn a_server_listed_twice_counts_twice_at_its_last_latency() {
    let p = try_read_problem(b"1 1 1 1 10 1 100 2 0 40 0 90 0 0 3".to_vec()).unwrap();
    let idx = Index::new(&p);
    assert_eq!(pair_score(&p, &idx, &vec![100], 0, 0), 2 * 10 * 3);
}

#[test]
fn the_first_pick_of_the_example_of_2017() {
    let p = example();
    let idx = Index::new(&p);
    let mut state = State::new(&p, &idx);
    assert_eq!(state.caps, vec![100, 100, 100]);
    assert_eq!(state.best, vec![1000, 500, 1000, 1000]);
    assert_eq!(state.pick(&p), Some((0, 3)));
    assert_eq!(state.place(&p, &idx, 0, 3), placed(0, 3, 45000));
    assert_eq!(state.caps, vec![70, 100, 100]);
    assert_eq!(state.best, vec![100, 500, 1000, 1000]);
    assert_eq!(state.table[1][3], 0);
    assert_eq!(state.pick(&p), Some((0, 1)));
}

#[test]
fn the_placements_of_the_example_of_2017() {
    let p = example();
    let placements = solve(&p);
    assert_eq!(
        placements,
        vec![
            placed(0, 3, 45000),
            placed(0, 1, 18000),
            placed(2, 3, 0),
            placed(2, 3, 0),
            placed(2, 3, 0),
            placed(1, 3, 0),
            placed(1, 3, 0),
            placed(1, 3, 0),
        ]
    );
    assert_eq!(total_score(&placements), Some(63000));
    assert_eq!(capacity_left(&p, &placements), 40);
    let servers = answer(&placements, p.n_cache);
    assert_eq!(servers, vec![vec![3, 1], vec![3, 3, 3], vec![3, 3, 3]]);
    assert_eq!(
        evaluate(&p, &servers),
        Ok(Evaluation { max_space_left: 20, final_score: 562500 })
    );
}

#[test]
fn nothing_is_placed_where_nothing_fits() {
    let p = try_read_problem(b"2 1 1 2 10 11 12 100 1 0 20 0 0 5".to_vec()).unwrap();
    assert_eq!(solve(&p), vec![]);
    let q = try_read_problem(b"1 0 0 0 10 5".to_vec()).unwrap();
    assert_eq!(solve(&q), vec![]);
    let r = try_read_problem(b"1 0 0 2 -10 5".to_vec()).unwrap();
    assert_eq!(solve(&r), vec![]);
}

#[test]
fn a_pair_with_a_negative_score_is_not_placed() {
    let p = try_read_problem(b"1 1 1 1 10 3 100 1 0 93 0 0 -1".to_vec()).unwrap();
    assert_eq!(solve(&p), vec![]);
}

#[test]
fn the_total_of_no_placements_is_zero() {
    assert_eq!(total_score(&vec![]), Some(0));
}

#[test]
fn a_total_that_leaves_the_range_is_none() {
    let placements = vec![placed(0, 0, i128::MAX), placed(0, 0, 1)];
    assert_eq!(total_score(&placements), None);
    let placements = vec![placed(0, 0, i128::MAX), placed(0, 0, -1)];
    assert_eq!(total_score(&placements), Some(i128::MAX - 1));
}

#[test]
fn the_score_of_the_answer_in_the_problem_statement() {
    let p = example();
    let servers = vec![vec![2], vec![3, 1], vec![0, 1]];
    assert_eq!(
        evaluate(&p, &servers),
        Ok(Evaluation { max_space_left: 20, final_score: 462500 })
    );
}

#[test]
fn answers_that_cannot_be_scored() {
    let p = example();
    assert_eq!(evaluate(&p, &vec![vec![], vec![]]), Err(EvalError::WrongServerCount));
    assert_eq!(evaluate(&p, &vec![vec![], vec![5], vec![]]), Err(EvalError::UnknownVideo));
    assert_eq!(evaluate(&p, &vec![vec![4], vec![5], vec![]]), Err(EvalError::UnknownVideo));
    assert_eq!(evaluate(&p, &vec![vec![0, 1, 3], vec![], vec![]]), Err(EvalError::OverCapacity));
    assert_eq!(evaluate(&p, &vec![vec![4], vec![], vec![]]), Err(EvalError::OverCapacity));
    let q = try_read_problem(b"1 1 0 1 10 5 100 0".to_vec()).unwrap();
    assert_eq!(evaluate(&q, &vec![vec![0]]), Err(EvalError::NoRequests));
    let r = try_read_problem(b"1 1 2 1 10 5 100 0 0 0 3 0 0 -3".to_vec()).unwrap();
    assert_eq!(evaluate(&r, &vec![vec![0]]), Err(EvalError::NoRequests));
}

#[test]
fn an_empty_answer_saves_nothing() {
    let p = example();
    assert_eq!(
        evaluate(&p, &vec![vec![], vec![], vec![]]),
        Ok(Evaluation { max_space_left: 100, final_score: 0 })
    );
}

#[test]
fn the_final_score_is_rounded_towards_zero() {
    // 7 requests save 10 each, 3 requests for another video save nothing: 70000 / 10
    let p = try_read_problem(b"2 1 2 1 10 5 5 100 1 0 90 0 0 7 1 0 3".to_vec()).unwrap();
    assert_eq!(evaluate(&p, &vec![vec![0]]).unwrap().final_score, 7000);
    // 1 request saves 10, -4 requests save nothing: 10000 / -3
    let q = try_read_problem(b"2 1 2 1 10 5 5 100 1 0 90 0 0 1 1 0 -4".to_vec()).unwrap();
    assert_eq!(evaluate(&q, &vec![vec![0]]).unwrap().final_score, -3333);
}

#[test]
fn problems_that_are_well_formed() {
    assert!(example().is_valid());
    let build = |size: i32, cache: usize, endpoint: usize| Problem {
        video_sizes: vec![size],
        n_cache: 2,
        capacity: -5,
        endpoints: vec![Endpoint { dc_latency: -1, caches: vec![(cache, 7), (cache, -7)] }],
        requests: vec![Request { video: 99, endpoint, n_requests: -3 }],
    };
    assert!(build(1, 1, 0).is_valid());
    assert!(!build(0, 1, 0).is_valid());
    assert!(!build(1, 2, 0).is_valid());
    assert!(!build(1, 1, 1).is_valid());
}

#[test]
fn a_text_that_describes_videos_is_read_outright() {
    let p = read_problem(EXAMPLE.as_bytes().to_vec());
    assert_eq!(p.video_sizes, vec![50, 50, 80, 30, 110]);
    assert_eq!(p.requests.len(), 4);
}

#[test]
fn an_answer_is_read_server_by_server() {
    assert_eq!(read_answer(3, b"1 2\n2 3 1\n2 0 1\n".to_vec()), vec![vec![2], vec![3, 1], vec![0, 1]]);
    assert_eq!(try_read_answer(3, b"0 0 0".to_vec()), Some(vec![vec![], vec![], vec![]]));
    assert_eq!(try_read_answer(0, b"".to_vec()), Some(vec![]));
    assert_eq!(try_read_answer(3, b"1 2\n2 3 1\n2 0\n".to_vec()), None);
    assert_eq!(try_read_answer(3, b"1 2\n2 3 1\n".to_vec()), None);
    assert_eq!(try_read_answer(1, b"1 x".to_vec()), None);
    assert_eq!(try_read_answer(1, b"-1".to_vec()), None);
}

#[test]
fn the_score_of_the_answer_in_the_problem_statement_as_written_down() {
    let p = example();
    let text = b"1 2\n2 3 1\n2 0 1\n".to_vec();
    let expected = Evaluation { max_space_left: 20, final_score: 462500 };
    assert_eq!(try_check(&p, text.clone()), Ok(expected));
    assert_eq!(check(&p, text), expected);
    // another answer, another score
    assert_eq!(
        check(&p, b"2 3 1 0 0".to_vec()),
        Evaluation { max_space_left: 100, final_score: 562500 }
    );
}

#[test]
fn answers_that_are_written_down_and_cannot_be_scored() {
    let p = example();
    assert_eq!(try_check(&p, b"".to_vec()), Err(CheckError::Malformed));
    assert_eq!(try_check(&p, b"1 2 1 3".to_vec()), Err(CheckError::Malformed));
    assert_eq!(try_check(&p, b"1 5 0 0".to_vec()), Err(CheckError::Refused(EvalError::UnknownVideo)));
    assert_eq!(try_check(&p, b"3 0 1 3 0 0".to_vec()), Err(CheckError::Refused(EvalError::OverCapacity)));
    let q = try_read_problem(b"1 1 0 1 10 5 100 0".to_vec()).unwrap();
    assert_eq!(try_check(&q, b"1 0".to_vec()), Err(CheckError::Refused(EvalError::NoRequests)));
}

#[test]
fn what_the_solver_places_scores_as_it_is_written_down() {
    let p = example();
    let servers = answer(&solve(&p), p.n_cache);
    assert_eq!(solve_answer(&p), servers);
    let mut text = String::new();
    for videos in &servers {
        text += &format!("{}", videos.len());
        for v in videos {
            text += &format!(" {}", v);
        }
        text += "\n";
    }
    assert_eq!(check(&p, text.into_bytes()), Evaluation { max_space_left: 20, final_score: 562500 });
}
