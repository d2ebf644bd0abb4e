//! Scoring a solution.

use vstd::prelude::*;
use crate::qualification2018::model::{manhattan, steps, Position, Ride, RideId, SolutionCar};
use crate::qualification2018::parse::solution_view;

verus! {

/// Why a solution has no score.
#[derive(Clone, Copy, Debug, PartialEq, Eq, Structural)]
pub enum CheckError {
    /// A car has a ride that does not exist.
    UnknownRide,
    /// A ride is given to a car a second time.
    RideReused,
    /// A ride would end after its latest finish.
    TooLate,
    /// The score cannot be written down.
    ScoreTooLarge,
}

/// The score after one car drove its rides from place `i` on, being free
/// at step `t` in `pos`: each ride gives a point for each of its steps,
/// and the bonus where the car is at its start in time.
pub open spec fn score_rides(
    bonus: int,
    rides: Seq<Ride>,
    list: Seq<RideId>,
    i: int,
    pos: Position,
    t: int,
    used: Seq<bool>,
    total: int,
) -> Result<(Seq<bool>, int), CheckError>
    decreases list.len() - i,
{
    if i < 0 || i >= list.len() {
        Ok((used, total))
    } else if list[i] >= rides.len() {
        Err(CheckError::UnknownRide)
    } else if used[list[i] as int] {
        Err(CheckError::RideReused)
    } else {
        let ride = rides[list[i] as int];
        let to = manhattan(pos, ride.c_start);
        let len = ride.len();
        if t + to + len > ride.t_finish {
            Err(CheckError::TooLate)
        } else {
            let gain = len + if t + to <= ride.t_start {
                bonus
            } else {
                0
            };
            if total + gain > u128::MAX {
                Err(CheckError::ScoreTooLarge)
            } else {
                score_rides(
                    bonus,
                    rides,
                    list,
                    i + 1,
                    ride.c_finish,
                    if ride.t_start + len >= t + to + len {
                        ride.t_start + len
                    } else {
                        t + to + len
                    },
                    used.update(list[i] as int, true),
                    total + gain,
                )
            }
        }
    }
}

/// The score after the cars from place `k` on drove their rides, each
/// from the corner of the grid and the first step on.
pub open spec fn score_cars(
    bonus: int,
    rides: Seq<Ride>,
    cars: Seq<Seq<RideId>>,
    k: int,
    used: Seq<bool>,
    total: int,
) -> Result<int, CheckError>
    decreases cars.len() - k,
{
    if k < 0 || k >= cars.len() {
        Ok(total)
    } else {
        match score_rides(bonus, rides, cars[k], 0, Position(0, 0), 0, used, total) {
            Err(e) => Err(e),
            Ok((used2, total2)) => score_cars(bonus, rides, cars, k + 1, used2, total2),
        }
    }
}

/// The score of a solution. Rides that are marked as used in `rides`
/// cannot be given to a car.
pub open spec fn score_of(bonus: int, rides: Seq<Ride>, cars: Seq<Seq<RideId>>) -> Result<
    int,
    CheckError,
> {
    score_cars(bonus, rides, cars, 0, rides.map_values(|r: Ride| r.used), 0)
}

/// Scores a solution: see [`score_rides`]. The solution is refused where
/// it gives a ride twice, gives one that does not exist, or lets one end
/// too late.
pub fn try_check(bonus: usize, rides: &Vec<Ride>, cars: &Vec<SolutionCar>) -> (r: Result<
    u128,
    CheckError,
>)
    ensures
        match r {
            Ok(total) => score_of(bonus as int, rides@, solution_view(cars@)) == Ok::<
                int,
                CheckError,
            >(total as int),
            Err(e) => score_of(bonus as int, rides@, solution_view(cars@)) == Err::<
                int,
                CheckError,
            >(e),
        },
{
    let ghost view = solution_view(cars@);
    let n_rides = rides.len();
    let mut used: Vec<bool> = Vec::new();
    let mut j: usize = 0;
    while j < n_rides
        invariant
            j <= n_rides == rides@.len(),
            used@.len() == j,
            forall|k: int| 0 <= k < j ==> #[trigger] used@[k] == rides@[k].used,
        decreases n_rides - j,
    {
        used.push(rides[j].used);
        j = j + 1;
    }
    assert(used@ =~= rides@.map_values(|r: Ride| r.used));
    let mut total: u128 = 0;
    let mut k: usize = 0;
    while k < cars.len()
        invariant
            k <= cars@.len(),
            view == solution_view(cars@),
            n_rides == rides@.len(),
            used@.len() == n_rides,
            score_of(bonus as int, rides@, view) == score_cars(
                bonus as int,
                rides@,
                view,
                k as int,
                used@,
                total as int,
            ),
        decreases cars@.len() - k,
    {
        let list = &cars[k].rides;
        assert(view[k as int] == list@);
        let ghost used0 = used@;
        let ghost total0 = total as int;
        let mut t: u64 = 0;
        let mut pos = Position(0, 0);
        let mut i: usize = 0;
        while i < list.len()
            invariant
                i <= list@.len(),
                k < cars@.len(),
                view == solution_view(cars@),
                view[k as int] == list@,
                n_rides == rides@.len(),
                used@.len() == n_rides,
                t <= 0x3_ffff_ffff,
                score_of(bonus as int, rides@, view) == score_cars(
                    bonus as int,
                    rides@,
                    view,
                    k as int,
                    used0,
                    total0,
                ),
                score_rides(bonus as int, rides@, list@, 0, Position(0, 0), 0, used0, total0)
                    == score_rides(
                    bonus as int,
                    rides@,
                    list@,
                    i as int,
                    pos,
                    t as int,
                    used@,
                    total as int,
                ),
            decreases list@.len() - i,
        {
            let r = list[i];
            if r >= n_rides {
                return Err(CheckError::UnknownRide);
            }
            if used[r] {
                return Err(CheckError::RideReused);
            }
            let ride = &rides[r];
            let to = steps(&pos, &ride.c_start);
            let len = steps(&ride.c_start, &ride.c_finish);
            if t + to + len > ride.t_finish as u64 {
                return Err(CheckError::TooLate);
            }
            let mut gain: u128 = len as u128;
            if t + to <= ride.t_start as u64 {
                gain = gain + bonus as u128;
            }
            total = match total.checked_add(gain) {
                Some(sum) => sum,
                None => {
                    return Err(CheckError::ScoreTooLarge);
                },
            };
            t = if ride.t_start as u64 + len >= t + to + len {
                ride.t_start as u64 + len
            } else {
                t + to + len
            };
            pos = ride.c_finish;
            used.set(r, true);
            i = i + 1;
        }
        k = k + 1;
    }
    Ok(total)
}

/// Scores a solution that can be scored: see [`score_of`].
pub fn check(bonus: usize, rides: &Vec<Ride>, cars: &Vec<SolutionCar>) -> (total: u128)
    requires
        score_of(bonus as int, rides@, solution_view(cars@)) is Ok,
    ensures
        score_of(bonus as int, rides@, solution_view(cars@)) == Ok::<int, CheckError>(total as int),
{
    match try_check(bonus, rides, cars) {
        Ok(total) => total,
        Err(_) => vstd::pervasive::unreached(),
    }
}

} // verus!
