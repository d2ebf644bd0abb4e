//! The solvers against plain computations of the same rules on many small
//! instances.

use std::cmp::Reverse;
use std::collections::{BTreeMap, BTreeSet, BinaryHeap, HashMap, VecDeque};

use hashcode::qualification2017::greedy::solve as place_videos;
use hashcode::qualification2017::parse::try_read_problem as read_videos;
use hashcode::qualification2017::report::{answer, evaluate, total_score};
use hashcode::qualification2018::check::try_check as score_rides;
use hashcode::qualification2018::model::{Position, Ride, SolutionCar};
use hashcode::qualification2018::solve::solve as assign_rides;
use hashcode::qualification2019::bits::try_solve_bitsets;
use hashcode::qualification2019::check::try_check as score_show;
use hashcode::qualification2019::slideshow::NON_EXISTENT_IMG;
use hashcode::qualification2019::vector::Img;
use hashcode::qualification2020::model::Library;
use hashcode::qualification2020::solve::solve as plan_libraries;
use hashcode::qualification2021::input::try_read_problem as read_city;
use hashcode::qualification2021::simulate::solve as run_lights;

struct Dice(u64);

impl Dice {
    fn next(&mut self) -> u64 {
        self.0 ^= self.0 << 13;
        self.0 ^= self.0 >> 7;
        self.0 ^= self.0 << 17;
        self.0
    }

    fn below(&mut self, n: u64) -> u64 {
        self.next() % n
    }
}

fn plain_videos(
    capacity: i32,
    n_cache: usize,
    sizes: &[i32],
    endpoints: &[(i32, Vec<(usize, i32)>)],
    requests: &[(i32, usize, i32)],
) -> (Vec<Vec<usize>>, i64) {
    let n_videos = sizes.len();
    let mut caps = vec![capacity; n_cache];
    let lats: Vec<HashMap<usize, i32>> =
        endpoints.iter().map(|(_, links)| links.iter().copied().collect()).collect();
    let mut best: Vec<i32> = requests.iter().map(|r| endpoints[r.1].0).collect();
    let mut answer = vec![vec![]; n_cache];
    let mut total = 0i64;
    let score = |best: &Vec<i32>, s: usize, v: usize| -> i64 {
        let mut sum = 0i64;
        for (i, r) in requests.iter().enumerate() {
            if r.0 != v as i32 {
                continue;
            }
            for link in &endpoints[r.1].1 {
                if link.0 != s {
                    continue;
                }
                let new = lats[r.1][&s] as i64;
                if best[i] as i64 > new {
                    sum += (best[i] as i64 - new) * r.2 as i64;
                }
            }
        }
        sum / sizes[v] as i64
    };
    loop {
        let mut chosen = (0i64, -1i64, -1i64);
        for s in 0..n_cache {
            for v in 0..n_videos {
                if caps[s] < sizes[v] {
                    continue;
                }
                chosen = std::cmp::max(chosen, (score(&best, s, v), s as i64, v as i64));
            }
        }
        let (gain, s, v) = chosen;
        if s == -1 {
            break;
        }
        let (s, v) = (s as usize, v as usize);
        caps[s] -= sizes[v];
        for (i, r) in requests.iter().enumerate() {
            if r.0 == v as i32 {
                if let Some(&new) = lats[r.1].get(&s) {
                    if best[i] > new {
                        best[i] = new;
                    }
                }
            }
        }
        answer[s].push(v);
        total += gain;
    }
    (answer, total)
}

#[test]
fn videos_are_placed_as_by_the_plain_rule() {
    let mut dice = Dice(0x2017);
    for _ in 0..300 {
        let n_videos = dice.below(5) as usize;
        let n_endpoints = 1 + dice.below(3) as usize;
        let n_cache = dice.below(4) as usize;
        let capacity = dice.below(40) as i32 - 3;
        let sizes: Vec<i32> = (0..n_videos).map(|_| 1 + dice.below(25) as i32).collect();
        let endpoints: Vec<(i32, Vec<(usize, i32)>)> = (0..n_endpoints)
            .map(|_| {
                let links = if n_cache == 0 { 0 } else { dice.below(5) };
                (
                    dice.below(1000) as i32,
                    (0..links)
                        .map(|_| (dice.below(n_cache as u64) as usize, dice.below(1000) as i32))
                        .collect(),
                )
            })
            .collect();
        let n_requests = dice.below(8) as usize;
        let requests: Vec<(i32, usize, i32)> = (0..n_requests)
            .map(|_| {
                (
                    dice.below(n_videos as u64 + 2) as i32 - 1,
                    dice.below(n_endpoints as u64) as usize,
                    dice.below(30) as i32 - 2,
                )
            })
            .collect();
        let mut text =
            format!("{} {} {} {} {}\n", n_videos, n_endpoints, n_requests, n_cache, capacity);
        for s in &sizes {
            text += &format!("{} ", s);
        }
        for (dc, links) in &endpoints {
            text += &format!("\n{} {}", dc, links.len());
            for (c, l) in links {
                text += &format!("\n{} {}", c, l);
            }
        }
        for (v, e, n) in &requests {
            text += &format!("\n{} {} {}", v, e, n);
        }
        let problem = read_videos(text.clone().into_bytes()).unwrap();
        let placements = place_videos(&problem);
        let (expected, total) = plain_videos(capacity, n_cache, &sizes, &endpoints, &requests);
        assert_eq!(answer(&placements, n_cache), expected, "{}", text);
        assert_eq!(total_score(&placements), Some(total as i128), "{}", text);
        if capacity >= 0 {
            let evaluation = evaluate(&problem, &expected);
            assert!(
                evaluation.is_ok() || evaluation == Err(hashcode::qualification2017::report::EvalError::NoRequests),
                "{}",
                text
            );
        }
    }
}

fn plain_rides(n_cars: usize, n_steps: usize, rides: &[Ride]) -> Vec<Vec<usize>> {
    let dist = |a: &Position, b: &Position| ((a.0 - b.0).abs() + (a.1 - b.1).abs()) as u32;
    let mut rides: Vec<Ride> = rides.to_vec();
    let n_rides = rides.len();
    let mut cars: Vec<(Position, u32, Vec<usize>)> =
        (0..n_cars).map(|_| (Position(0, 0), 0, vec![])).collect();
    rides.sort_by_key(|r| r.t_start);
    let mut far = vec![u32::MAX; n_rides];
    for i in 0..n_rides {
        for j in 0..n_rides {
            if i != j {
                far[i] = std::cmp::min(far[i], dist(&rides[i].c_finish, &rides[j].c_start));
            }
        }
    }
    loop {
        let mut anything = false;
        for i in 0..n_cars {
            let mut score_ride = (u32::MAX, 0);
            for j in 0..n_rides {
                let to_start = dist(&cars[i].0, &rides[j].c_start);
                let arrive = cars[i].1 + to_start;
                let start = std::cmp::max(arrive, rides[j].t_start);
                let waiting = start - arrive;
                let finish = start + dist(&rides[j].c_start, &rides[j].c_finish);
                let possible = !rides[j].used && finish <= rides[j].t_finish;
                let mut wasted = to_start + waiting;
                if finish <= n_steps as u32 / 100 * 98 {
                    wasted += far[j] / 15;
                }
                if possible {
                    score_ride = std::cmp::min(score_ride, (wasted, j));
                }
            }
            let (wasted, j) = score_ride;
            if wasted == u32::MAX {
                continue;
            }
            let to_start = dist(&cars[i].0, &rides[j].c_start);
            let start = std::cmp::max(cars[i].1 + to_start, rides[j].t_start);
            cars[i].1 = start + dist(&rides[j].c_start, &rides[j].c_finish);
            cars[i].0 = rides[j].c_finish;
            cars[i].2.push(rides[j].id);
            rides[j].used = true;
            anything = true;
        }
        if !anything {
            break;
        }
    }
    cars.into_iter().map(|c| c.2).collect()
}

#[test]
fn rides_are_assigned_as_by_the_plain_rule() {
    let mut dice = Dice(0x2018);
    for round in 0..300 {
        let n_cars = dice.below(4) as usize;
        let n_rides = dice.below(8) as usize;
        let n_steps = [10usize, 250, 100_000][round % 3];
        let rides: Vec<Ride> = (0..n_rides)
            .map(|id| {
                let t_start = dice.below(40) as u32;
                Ride {
                    id,
                    c_start: Position(dice.below(12) as i32, dice.below(12) as i32),
                    c_finish: Position(dice.below(12) as i32, dice.below(12) as i32),
                    t_start,
                    t_finish: t_start + dice.below(60) as u32,
                    used: false,
                }
            })
            .collect();
        let cars = assign_rides(n_cars, n_steps, &rides);
        let lists: Vec<Vec<usize>> = cars.iter().map(|c| c.rides.clone()).collect();
        assert_eq!(lists, plain_rides(n_cars, n_steps, &rides));
        let solution: Vec<SolutionCar> =
            lists.into_iter().enumerate().map(|(id, rides)| SolutionCar { id, rides }).collect();
        // what the cars were given can be driven
        assert!(score_rides(dice.below(5) as usize, &rides, &solution).is_ok());
    }
}

fn plain_interest(a: &BTreeSet<u32>, b: &BTreeSet<u32>) -> usize {
    let common = a.intersection(b).count();
    std::cmp::min(common, std::cmp::min(a.len() - common, b.len() - common))
}

fn plain_show(images: &[Img]) -> Option<(Vec<(u32, u32)>, usize)> {
    let tags: Vec<BTreeSet<u32>> = images.iter().map(|i| i.tags.iter().copied().collect()).collect();
    let mut used = vec![false; images.len()];
    let mut solution = Vec::new();
    match images.iter().find(|i| !i.vert).map(|i| i.id) {
        Some(id) => {
            solution.push((id, NON_EXISTENT_IMG));
            used[id as usize] = true;
        }
        None => {
            if images.len() < 2 {
                return None;
            }
            solution.push((0, 1));
            used[0] = true;
            used[1] = true;
        }
    }
    let mut total = 0;
    loop {
        let last: (u32, u32) = *solution.last().unwrap();
        let prev: BTreeSet<u32> = if last.1 == NON_EXISTENT_IMG {
            tags[last.0 as usize].clone()
        } else {
            tags[last.0 as usize].union(&tags[last.1 as usize]).copied().collect()
        };
        let mut best = (0, NON_EXISTENT_IMG);
        for j in 0..images.len() {
            if used[j] {
                continue;
            }
            best = std::cmp::max(best, (plain_interest(&prev, &tags[j]), j as u32));
        }
        let (score, j) = best;
        if j == NON_EXISTENT_IMG {
            break;
        }
        if !images[j as usize].vert {
            solution.push((j, NON_EXISTENT_IMG));
            used[j as usize] = true;
            total += score;
        } else {
            let first = j;
            let mut best = (0, NON_EXISTENT_IMG);
            for j in 0..images.len() {
                if used[j] || j == first as usize {
                    continue;
                }
                let both: BTreeSet<u32> = tags[first as usize].union(&tags[j]).copied().collect();
                best = std::cmp::max(best, (plain_interest(&prev, &both), j as u32));
            }
            let (score, j) = best;
            if j == NON_EXISTENT_IMG {
                break;
            }
            solution.push((first, j));
            used[first as usize] = true;
            used[j as usize] = true;
            total += score;
        }
    }
    Some((solution, total))
}

#[test]
fn shows_are_built_as_by_the_plain_rule() {
    let mut dice = Dice(0x2019);
    for _ in 0..300 {
        let n = dice.below(9) as usize;
        let n_tags = 1 + dice.below(10) as usize;
        let images: Vec<Img> = (0..n)
            .map(|id| {
                let tags: BTreeSet<u32> =
                    (0..dice.below(6)).map(|_| dice.below(n_tags as u64) as u32).collect();
                Img {
                    id: id as u32,
                    used: false,
                    vert: dice.below(2) == 0,
                    tags: tags.into_iter().collect(),
                }
            })
            .collect();
        let expected = plain_show(&images);
        let got = try_solve_bitsets(&images, n_tags).ok();
        assert_eq!(got, expected.clone().map(|(s, t)| (s, t as u128)));
        if let Some((slides, total)) = expected {
            // the interest that the show was built with is the interest it is scored with
            let mut text = format!("{}\n", slides.len());
            for (a, b) in &slides {
                if *b == NON_EXISTENT_IMG {
                    text += &format!("{}\n", a);
                } else {
                    text += &format!("{} {}\n", a, b);
                }
            }
            let well_paired = slides.iter().all(|&(a, b)| {
                images[a as usize].vert == (b != NON_EXISTENT_IMG)
            });
            if well_paired {
                assert_eq!(score_show(&images, text.into_bytes()), Ok(total as u128));
            }
        }
    }
}

fn plain_best_books(lib: &Library, curr_day: usize, n_days: usize, scores: &[u32]) -> Vec<usize> {
    if curr_day + lib.n_days >= n_days {
        return Vec::new();
    }
    let days_left = n_days - (curr_day + lib.n_days);
    let n_books = std::cmp::min(lib.books.len(), days_left * lib.n_ship_daily);
    let mut heap = BinaryHeap::with_capacity(n_books);
    for &book in &lib.books {
        heap.push(Reverse((scores[book], book)));
        if heap.len() > n_books {
            heap.pop();
        }
    }
    let mut res: Vec<usize> =
        heap.iter().map(|Reverse(t)| t.1).filter(|b| scores[*b] > 0).collect();
    res.sort_by_key(|b| Reverse(scores[*b]));
    res
}

fn plain_plan(n_days: usize, scores: &[u32], libs: &[Library]) -> Vec<(usize, Vec<usize>)> {
    let mut scores = scores.to_vec();
    let mut used = vec![false; libs.len()];
    let mut res = Vec::new();
    let mut curr_day = 0;
    loop {
        let results: Vec<(usize, Vec<usize>, u128)> = libs
            .iter()
            .filter(|l| !used[l.id])
            .map(|l| {
                let books = plain_best_books(l, curr_day, n_days, &scores);
                let score = books.iter().map(|b| scores[*b] as u128).sum::<u128>() / l.n_days as u128;
                (l.id, books, score)
            })
            .collect();
        match results.into_iter().max_by_key(|t| t.2) {
            Some((id, books, _)) => {
                curr_day += libs[id].n_days;
                if curr_day >= n_days {
                    break;
                }
                for b in &books {
                    scores[*b] = 0;
                }
                res.push((id, books));
                used[id] = true;
            }
            None => break,
        }
    }
    res
}

#[test]
fn libraries_sign_up_as_by_the_plain_rule() {
    let mut dice = Dice(0x2020);
    for _ in 0..300 {
        let n_books = 1 + dice.below(8) as usize;
        let n_days = dice.below(12) as usize;
        let scores: Vec<u32> = (0..n_books).map(|_| dice.below(6) as u32).collect();
        let libs: Vec<Library> = (0..dice.below(5) as usize)
            .map(|id| {
                let books: BTreeSet<usize> =
                    (0..dice.below(6)).map(|_| dice.below(n_books as u64) as usize).collect();
                let mut books: Vec<usize> = books.into_iter().collect();
                let len = books.len();
                if len > 1 {
                    books.swap(0, dice.below(len as u64) as usize);
                }
                Library::new(id, 1 + dice.below(4) as usize, dice.below(4) as usize, books)
            })
            .collect();
        for lib in &libs {
            let day = dice.below(6) as usize;
            let got = lib.get_best_books(day, n_days, &scores);
            let mut expected = plain_best_books(lib, day, n_days, &scores);
            // the best come first; among books that score alike the order is free
            assert!(got.windows(2).all(|w| scores[w[0]] >= scores[w[1]]));
            let mut sorted = got.clone();
            sorted.sort();
            expected.sort();
            assert_eq!(sorted, expected);
        }
        let got = plan_libraries(n_days, scores.clone(), &libs);
        let expected = plain_plan(n_days, &scores, &libs);
        let sets = |plan: &Vec<(usize, Vec<usize>)>| -> Vec<(usize, Vec<usize>)> {
            plan.iter()
                .map(|(id, books)| {
                    let mut books = books.clone();
                    books.sort();
                    (*id, books)
                })
                .collect()
        };
        assert_eq!(sets(&got), sets(&expected));
    }
}

fn plain_lights(text: &str) -> i64 {
    let mut tokens = text.split_whitespace();
    let mut number = |tokens: &mut std::str::SplitWhitespace| tokens.next().unwrap().parse::<i64>().unwrap();
    let duration = number(&mut tokens);
    let n_intersections = number(&mut tokens) as usize;
    let n_streets = number(&mut tokens) as usize;
    let n_cars = number(&mut tokens) as usize;
    let bonus = number(&mut tokens);
    let mut streets = Vec::new();
    let mut ids = HashMap::new();
    let mut incoming = vec![Vec::new(); n_intersections];
    for id in 0..n_streets {
        let _from = number(&mut tokens);
        let to = number(&mut tokens) as usize;
        let name = tokens.next().unwrap().to_string();
        let len = number(&mut tokens);
        streets.push((to, len));
        ids.insert(name, id);
        incoming[to].push(id);
    }
    let mut trips = Vec::new();
    let mut popularity = vec![0i64; n_streets];
    for _ in 0..n_cars {
        let n = number(&mut tokens) as usize;
        let trip: Vec<usize> = (0..n).map(|_| ids[tokens.next().unwrap()]).collect();
        for &id in &trip[..trip.len() - 1] {
            popularity[id] += 1;
        }
        trips.push(trip);
    }
    let mut res = BTreeMap::new();
    for i in 0..n_intersections {
        let popular: Vec<usize> =
            incoming[i].iter().copied().filter(|&j| popularity[j] > 0).collect();
        if let Some(min) = popular.iter().map(|&j| popularity[j]).min() {
            let schedule: Vec<(usize, i64)> =
                popular.iter().map(|&j| (j, popularity[j] / min)).collect();
            res.insert(i, schedule);
        }
    }
    let mut trips_left: Vec<VecDeque<usize>> =
        trips.iter().map(|t| t.iter().copied().collect()).collect();
    let mut cars_at_streets = vec![VecDeque::new(); n_streets];
    for (car, trip) in trips.iter().enumerate() {
        cars_at_streets[trip[0]].push_back((0i64, car));
    }
    let mut score = 0;
    for t in 0..duration {
        for (_, schedule) in res.iter() {
            let cycle: i64 = schedule.iter().map(|s| s.1).sum();
            let tt = t % cycle;
            let mut sum = 0;
            let mut street = usize::MAX;
            for &(s, seconds) in schedule {
                sum += seconds;
                if tt < sum {
                    street = s;
                    break;
                }
            }
            if let Some(&(time, car)) = cars_at_streets[street].front() {
                if t >= time {
                    cars_at_streets[street].pop_front();
                    assert!(trips_left[car].pop_front() == Some(street));
                    match trips_left[car].front() {
                        Some(&next) => {
                            cars_at_streets[next].push_back((t + streets[next].1, car));
                        }
                        None => score += duration - t + bonus,
                    }
                }
            }
        }
    }
    score
}

#[test]
fn lights_are_run_as_by_the_plain_rule() {
    let mut dice = Dice(0x2021);
    for _ in 0..300 {
        let n_intersections = 1 + dice.below(4) as usize;
        let n_streets = 1 + dice.below(6) as usize;
        let duration = dice.below(25);
        let bonus = dice.below(100);
        // every street begins where another ends, so that trips can go on
        let ends: Vec<(usize, usize)> = (0..n_streets)
            .map(|_| {
                (dice.below(n_intersections as u64) as usize, dice.below(n_intersections as u64) as usize)
            })
            .collect();
        let n_cars = dice.below(5) as usize;
        let mut text = format!("{} {} {} {} {}\n", duration, n_intersections, n_streets, n_cars, bonus);
        for (id, (from, to)) in ends.iter().enumerate() {
            text += &format!("{} {} s{} {}\n", from, to, id, 1 + dice.below(4));
        }
        for _ in 0..n_cars {
            let len = 1 + dice.below(5) as usize;
            let mut trip = vec![dice.below(n_streets as u64) as usize];
            while trip.len() < len {
                let at = ends[*trip.last().unwrap()].1;
                let onward: Vec<usize> = (0..n_streets).filter(|&s| ends[s].0 == at).collect();
                if onward.is_empty() {
                    break;
                }
                trip.push(onward[dice.below(onward.len() as u64) as usize]);
            }
            text += &format!("{}", trip.len());
            for s in &trip {
                text += &format!(" s{}", s);
            }
            text += "\n";
        }
        let input = read_city(text.clone().into_bytes()).unwrap();
        assert_eq!(run_lights(&input).1, plain_lights(&text) as i128, "{}", text);
    }
}
