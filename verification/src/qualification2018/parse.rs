//! Reading a problem instance and a solution from their text.

use vstd::prelude::*;
use crate::helpers::red::{
    lemma_read_many_len, lemma_repeat_stops, read_many, repeat, value_at, views, Red,
};
use crate::qualification2018::model::{Position, Ride, RideId, SolutionCar};

verus! {

/// A problem instance as the text describes it.
pub struct ProblemText {
    pub n_rows: usize,
    pub n_cols: usize,
    pub n_cars: usize,
    pub n_rides: usize,
    pub bonus: usize,
    pub n_steps: usize,
    pub rides: Seq<Ride>,
}

/// One ride, which gets the number `id`: row and column of its start and
/// of its finish, its earliest start and its latest finish.
pub open spec fn ride_at(s: Seq<u8>, pos: int, id: int) -> Option<(Ride, int)> {
    match value_at::<i32>(s, pos) {
        Some((a, p1)) => match value_at::<i32>(s, p1) {
            Some((b, p2)) => match value_at::<i32>(s, p2) {
                Some((x, p3)) => match value_at::<i32>(s, p3) {
                    Some((y, p4)) => match value_at::<u32>(s, p4) {
                        Some((t_start, p5)) => match value_at::<u32>(s, p5) {
                            Some((t_finish, p6)) => Some(
                                (
                                    Ride {
                                        id: id as usize,
                                        c_start: Position(a, b),
                                        c_finish: Position(x, y),
                                        t_start,
                                        t_finish,
                                        used: false,
                                    },
                                    p6,
                                ),
                            ),
                            None => None,
                        },
                        None => None,
                    },
                    None => None,
                },
                None => None,
            },
            None => None,
        },
        None => None,
    }
}

/// The first `n` rides that stand from `pos` on, numbered from 0, and
/// where the reader then stands.
pub open spec fn rides_at(s: Seq<u8>, pos: int, n: nat) -> Option<(Seq<Ride>, int)>
    decreases n,
{
    if n == 0 {
        Some((Seq::empty(), pos))
    } else {
        match rides_at(s, pos, (n - 1) as nat) {
            None => None,
            Some((rides, p)) => match ride_at(s, p, n - 1) {
                None => None,
                Some((ride, q)) => Some((rides.push(ride), q)),
            },
        }
    }
}

/// Once a ride cannot be read, no longer list can.
pub proof fn lemma_rides_stop(s: Seq<u8>, pos: int, k: nat, n: nat)
    requires
        k <= n,
        rides_at(s, pos, k) is None,
    ensures
        rides_at(s, pos, n) is None,
    decreases n,
{
    if n > k {
        lemma_rides_stop(s, pos, k, (n - 1) as nat);
    }
}

/// The six numbers that a problem begins with, and where the reader
/// stands after them.
pub open spec fn header_of(s: Seq<u8>) -> Option<(Seq<usize>, int)> {
    match read_many::<usize>(s, 0, 6) {
        (Ok(v), p) => Some((v, p)),
        (Err(_), _) => None,
    }
}

/// What the text `s` says: the numbers of rows, columns, cars and rides,
/// the bonus and the number of steps, then the rides. `None` where a
/// number is missing or is not a number of its kind. What follows the
/// last ride is not read.
pub open spec fn problem_of(s: Seq<u8>) -> Option<ProblemText> {
    match header_of(s) {
        Some((h, p)) => match rides_at(s, p, h[3] as nat) {
            Some((rides, q)) => Some(
                ProblemText {
                    n_rows: h[0],
                    n_cols: h[1],
                    n_cars: h[2],
                    n_rides: h[3],
                    bonus: h[4],
                    n_steps: h[5],
                    rides,
                },
            ),
            None => None,
        },
        None => None,
    }
}

/// Reads one ride, which gets the number `id`.
fn read_ride(red: &mut Red, id: usize) -> (r: Option<Ride>)
    ensures
        final(red).bytes() == old(red).bytes(),
        match r {
            Some(ride) => ride_at(old(red).bytes(), old(red).pos(), id as int) == Some(
                (ride, final(red).pos()),
            ),
            None => ride_at(old(red).bytes(), old(red).pos(), id as int) is None,
        },
{
    let a = match red.value::<i32>() {
        Some(v) => v,
        None => {
            return None;
        },
    };
    let b = match red.value::<i32>() {
        Some(v) => v,
        None => {
            return None;
        },
    };
    let x = match red.value::<i32>() {
        Some(v) => v,
        None => {
            return None;
        },
    };
    let y = match red.value::<i32>() {
        Some(v) => v,
        None => {
            return None;
        },
    };
    let t_start = match red.value::<u32>() {
        Some(v) => v,
        None => {
            return None;
        },
    };
    let t_finish = match red.value::<u32>() {
        Some(v) => v,
        None => {
            return None;
        },
    };
    Some(
        Ride { id, c_start: Position(a, b), c_finish: Position(x, y), t_start, t_finish, used: false },
    )
}

/// Reads a problem instance from its text: the numbers of rows, columns,
/// cars and rides, the bonus, the number of steps, and the rides.
pub fn try_read_problem(bytes: Vec<u8>) -> (r: Option<
    (usize, usize, usize, usize, usize, usize, Vec<Ride>),
>)
    ensures
        match r {
            Some((n_rows, n_cols, n_cars, n_rides, on_time_bonus, n_steps, rides)) => problem_of(
                bytes@,
            ) == Some(
                ProblemText {
                    n_rows,
                    n_cols,
                    n_cars,
                    n_rides,
                    bonus: on_time_bonus,
                    n_steps,
                    rides: rides@,
                },
            ) && rides@.len() == n_rides,
            None => problem_of(bytes@) is None,
        },
{
    let ghost s = bytes@;
    let mut red = Red::new(bytes);
    let header = match red.try_read_vec::<usize>(6) {
        Ok(v) => v,
        Err(_) => {
            return None;
        },
    };
    proof {
        assert(views(header@) =~= header@);
        lemma_read_many_len::<usize>(s, 0, 6);
    }
    let n_rides = header[3];
    let ghost p = red.pos();
    let mut rides: Vec<Ride> = Vec::new();
    let mut id: usize = 0;
    while id < n_rides
        invariant
            id <= n_rides,
            red.bytes() == s,
            s == bytes@,
            header_of(s) == Some((header@, p)),
            header@.len() == 6,
            n_rides == header@[3],
            rides_at(s, p, id as nat) == Some((rides@, red.pos())),
            rides@.len() == id,
        decreases n_rides - id,
    {
        match read_ride(&mut red, id) {
            Some(ride) => {
                rides.push(ride);
            },
            None => {
                proof {
                    lemma_rides_stop(s, p, (id + 1) as nat, n_rides as nat);
                }
                return None;
            },
        }
        id = id + 1;
    }
    Some((header[0], header[1], header[2], n_rides, header[4], header[5], rides))
}

/// One car of a solution: the number of its rides, then the rides.
pub open spec fn car_at(s: Seq<u8>, pos: int) -> Option<(Seq<RideId>, int)> {
    match value_at::<usize>(s, pos) {
        Some((n, p1)) => repeat(s, p1, n as nat, |s: Seq<u8>, p: int| value_at::<usize>(s, p)),
        None => None,
    }
}

/// The solution that the text `s` writes down for `num_cars` cars: the
/// rides of each car in turn.
pub open spec fn solution_of(s: Seq<u8>, num_cars: nat) -> Option<Seq<Seq<RideId>>> {
    match repeat(s, 0, num_cars, |s: Seq<u8>, p: int| car_at(s, p)) {
        Some((cars, p)) => Some(cars),
        None => None,
    }
}

/// The rides of the cars of a solution.
pub open spec fn solution_view(cars: Seq<SolutionCar>) -> Seq<Seq<RideId>> {
    cars.map_values(|c: SolutionCar| c.rides@)
}

/// Reads the rides of one car.
fn read_car(red: &mut Red) -> (r: Option<Vec<RideId>>)
    ensures
        final(red).bytes() == old(red).bytes(),
        match r {
            Some(rides) => car_at(old(red).bytes(), old(red).pos()) == Some(
                (rides@, final(red).pos()),
            ),
            None => car_at(old(red).bytes(), old(red).pos()) is None,
        },
{
    let ghost s = red.bytes();
    let n = match red.value::<usize>() {
        Some(v) => v,
        None => {
            return None;
        },
    };
    let ghost p1 = red.pos();
    let ghost one = |s: Seq<u8>, p: int| value_at::<usize>(s, p);
    let mut rides: Vec<RideId> = Vec::new();
    let mut i: usize = 0;
    while i < n
        invariant
            i <= n,
            red.bytes() == s,
            s == old(red).bytes(),
            one == |s: Seq<u8>, p: int| value_at::<usize>(s, p),
            repeat(s, p1, i as nat, one) == Some((rides@, red.pos())),
            car_at(s, old(red).pos()) == repeat(s, p1, n as nat, one),
        decreases n - i,
    {
        match red.value::<usize>() {
            Some(ride) => {
                rides.push(ride);
            },
            None => {
                proof {
                    lemma_repeat_stops(s, p1, (i + 1) as nat, n as nat, one);
                }
                return None;
            },
        }
        i = i + 1;
    }
    Some(rides)
}

/// Reads a solution for `num_cars` cars from its text: for each car the
/// number of its rides, then the rides. The cars are numbered by their
/// place.
pub fn try_read_solution(num_cars: usize, bytes: Vec<u8>) -> (r: Option<Vec<SolutionCar>>)
    ensures
        match r {
            Some(cars) => solution_of(bytes@, num_cars as nat) == Some(solution_view(cars@))
                && cars@.len() == num_cars && forall|i: int|
                0 <= i < num_cars ==> (#[trigger] cars@[i]).id == i,
            None => solution_of(bytes@, num_cars as nat) is None,
        },
{
    let ghost s = bytes@;
    let mut red = Red::new(bytes);
    let ghost one = |s: Seq<u8>, p: int| car_at(s, p);
    let mut cars: Vec<SolutionCar> = Vec::new();
    let mut id: usize = 0;
    assert(solution_view(cars@) =~= Seq::<Seq<RideId>>::empty());
    while id < num_cars
        invariant
            id <= num_cars,
            red.bytes() == s,
            s == bytes@,
            one == |s: Seq<u8>, p: int| car_at(s, p),
            repeat(s, 0, id as nat, one) == Some((solution_view(cars@), red.pos())),
            cars@.len() == id,
            forall|i: int| 0 <= i < id ==> (#[trigger] cars@[i]).id == i,
        decreases num_cars - id,
    {
        let ghost before = solution_view(cars@);
        match read_car(&mut red) {
            Some(rides) => {
                let ghost view = rides@;
                cars.push(SolutionCar { id, rides });
                assert(solution_view(cars@) =~= before.push(view));
            },
            None => {
                proof {
                    lemma_repeat_stops(s, 0, (id + 1) as nat, num_cars as nat, one);
                }
                return None;
            },
        }
        id = id + 1;
    }
    Some(cars)
}

/// Reads a problem instance from a text that describes one: see
/// [`problem_of`].
pub fn read_problem(bytes: Vec<u8>) -> (r: (usize, usize, usize, usize, usize, usize, Vec<Ride>))
    requires
        problem_of(bytes@) is Some,
    ensures
        problem_of(bytes@) == Some(
            ProblemText {
                n_rows: r.0,
                n_cols: r.1,
                n_cars: r.2,
                n_rides: r.3,
                bonus: r.4,
                n_steps: r.5,
                rides: r.6@,
            },
        ),
        r.6@.len() == r.3,
{
    match try_read_problem(bytes) {
        Some(problem) => problem,
        None => vstd::pervasive::unreached(),
    }
}

/// Reads a solution for `num_cars` cars from a text that writes one down:
/// see [`solution_of`]. The cars are numbered by their place.
pub fn read_solution(num_cars: usize, bytes: Vec<u8>) -> (cars: Vec<SolutionCar>)
    requires
        solution_of(bytes@, num_cars as nat) is Some,
    ensures
        solution_of(bytes@, num_cars as nat) == Some(solution_view(cars@)),
        cars@.len() == num_cars,
        forall|i: int| 0 <= i < num_cars ==> (#[trigger] cars@[i]).id == i,
{
    match try_read_solution(num_cars, bytes) {
        Some(cars) => cars,
        None => vstd::pervasive::unreached(),
    }
}

} // verus!
