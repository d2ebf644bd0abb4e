//! Giving each car, again and again, the ride that wastes least of its
//! time.

use vstd::prelude::*;
use crate::helpers::flags::{lemma_unused_update, unused};
use crate::helpers::sort::{pair_leq, sort_pairs};
use crate::qualification2018::model::{
    arrival, departure, finish, manhattan, steps, Car, Position, Ride, RideId, TimeT,
};

verus! {

/// A car as a mathematical value.
pub struct CarView {
    pub c: Position,
    pub t: TimeT,
    pub rides: Seq<RideId>,
}

/// The cars and which rides are taken.
pub struct Fleet {
    pub cars: Seq<CarView>,
    pub used: Seq<bool>,
}

/// The cars as mathematical values.
pub open spec fn cars_view(cars: Seq<Car>) -> Seq<CarView> {
    cars.map_values(|car: Car| CarView { c: car.c, t: car.t, rides: car.rides@ })
}

/// The rides with their places, the earliest start first.
pub open spec fn start_order(rides: Seq<Ride>) -> Seq<(u64, u64)> {
    Seq::new(rides.len(), |i: int| (rides[i].t_start as u64, i as u64)).sort_by(pair_leq())
}

/// The rides by their earliest start, and by their place among rides that
/// start together.
pub open spec fn by_start(rides: Seq<Ride>) -> Seq<Ride> {
    Seq::new(rides.len(), |k: int| rides[start_order(rides)[k].1 as int])
}

/// The least number of steps from the finish of ride `i` to the start of
/// another among the first `k` rides, or the largest time where there is
/// none or it is further.
pub open spec fn far_upto(rides: Seq<Ride>, i: int, k: int) -> int
    decreases k,
{
    if k <= 0 {
        TimeT::MAX as int
    } else {
        let rest = far_upto(rides, i, k - 1);
        let d = manhattan(rides[i].c_finish, rides[k - 1].c_start);
        if k - 1 != i && d < rest {
            d
        } else {
            rest
        }
    }
}

/// How far it is from the finish of ride `i` to the nearest start of
/// another ride.
pub open spec fn nearest(rides: Seq<Ride>, i: int) -> int {
    far_upto(rides, i, rides.len() as int)
}

/// The step up to which a ride counts for its surroundings: 98 hundredths
/// of the steps there are, as far as 32 bits hold their number.
pub open spec fn threshold(n_steps: usize) -> int {
    (n_steps as int % 0x1_0000_0000) / 100 * 98
}

/// The time that a car free at step `t` in `c` wastes on ride `j`: the
/// way to the start and the wait there, and for a ride that is over by
/// the threshold a fifteenth of the way from its finish to the next
/// start.
pub open spec fn wasted(rides: Seq<Ride>, c: Position, t: int, j: int, n_steps: usize) -> int {
    let ride = &rides[j];
    manhattan(c, ride.c_start) + (departure(c, t, ride) - arrival(c, t, ride)) + if finish(
        c,
        t,
        ride,
    ) <= threshold(n_steps) {
        nearest(rides, j) / 15
    } else {
        0
    }
}

/// The car can take ride `j`: it is free, would be over in time, and
/// the time wasted on it can be written down.
pub open spec fn possible(
    rides: Seq<Ride>,
    used: Seq<bool>,
    car: CarView,
    j: int,
    n_steps: usize,
) -> bool {
    &&& 0 <= j < rides.len()
    &&& !used[j]
    &&& finish(car.c, car.t as int, &rides[j]) <= rides[j].t_finish
    &&& wasted(rides, car.c, car.t as int, j, n_steps) < TimeT::MAX
}

/// Ride `j` is the one for the car: it can take it, and no ride that it
/// can take wastes less, or as much and comes earlier.
pub open spec fn is_ride_for(
    rides: Seq<Ride>,
    used: Seq<bool>,
    car: CarView,
    j: int,
    n_steps: usize,
) -> bool {
    &&& possible(rides, used, car, j, n_steps)
    &&& forall|k: int| #[trigger]
        possible(rides, used, car, k, n_steps) ==> {
            let this = wasted(rides, car.c, car.t as int, j, n_steps);
            let other = wasted(rides, car.c, car.t as int, k, n_steps);
            this < other || (this == other && j <= k)
        }
}

/// There is a ride for the car.
pub open spec fn has_ride(rides: Seq<Ride>, used: Seq<bool>, car: CarView, n_steps: usize)
    -> bool {
    exists|j: int| is_ride_for(rides, used, car, j, n_steps)
}

/// The ride for the car.
pub open spec fn ride_for(rides: Seq<Ride>, used: Seq<bool>, car: CarView, n_steps: usize) -> int {
    choose|j: int| is_ride_for(rides, used, car, j, n_steps)
}

/// The car after ride `j`.
pub open spec fn after_ride(rides: Seq<Ride>, car: CarView, j: int) -> CarView {
    CarView {
        c: rides[j].c_finish,
        t: finish(car.c, car.t as int, &rides[j]) as TimeT,
        rides: car.rides.push(rides[j].id),
    }
}

/// The fleet after car `i` took the ride for it, if there is one.
pub open spec fn serve(rides: Seq<Ride>, fleet: Fleet, i: int, n_steps: usize) -> Fleet {
    let car = fleet.cars[i];
    if has_ride(rides, fleet.used, car, n_steps) {
        let j = ride_for(rides, fleet.used, car, n_steps);
        Fleet { cars: fleet.cars.update(i, after_ride(rides, car, j)), used: fleet.used.update(j, true) }
    } else {
        fleet
    }
}

/// The fleet after the first `k` cars were served in turn.
pub open spec fn round_upto(rides: Seq<Ride>, fleet: Fleet, k: int, n_steps: usize) -> Fleet
    decreases k,
{
    if k <= 0 {
        fleet
    } else {
        serve(rides, round_upto(rides, fleet, k - 1, n_steps), k - 1, n_steps)
    }
}

/// The fleet after round upon round, until a round gives no car a ride.
pub open spec fn run(rides: Seq<Ride>, fleet: Fleet, n_steps: usize) -> Fleet
    decreases unused(fleet.used),
{
    let next = round_upto(rides, fleet, fleet.cars.len() as int, n_steps);
    if unused(next.used) >= unused(fleet.used) {
        next
    } else {
        run(rides, next, n_steps)
    }
}

/// The fleet before the first round: `n_cars` cars at the corner of the
/// grid, and no ride taken.
pub open spec fn initial_fleet(n_cars: nat, n_rides: nat) -> Fleet {
    Fleet {
        cars: Seq::new(n_cars, |i: int| CarView { c: Position(0, 0), t: 0, rides: Seq::empty() }),
        used: Seq::new(n_rides, |j: int| false),
    }
}

/// At most one ride is the one for the car.
pub proof fn lemma_ride_unique(
    rides: Seq<Ride>,
    used: Seq<bool>,
    car: CarView,
    j: int,
    n_steps: usize,
)
    requires
        is_ride_for(rides, used, car, j, n_steps),
    ensures
        has_ride(rides, used, car, n_steps),
        ride_for(rides, used, car, n_steps) == j,
{
    let c = ride_for(rides, used, car, n_steps);
    assert(is_ride_for(rides, used, car, c, n_steps));
    assert(possible(rides, used, car, c, n_steps));
    assert(possible(rides, used, car, j, n_steps));
}

/// The rides by their earliest start: see [`by_start`].
pub fn sort_rides(rides: &Vec<Ride>) -> (r: Vec<Ride>)
    ensures
        r@ == by_start(rides@),
{
    let n = rides.len();
    let mut pairs: Vec<(u64, u64)> = Vec::new();
    let mut i: usize = 0;
    while i < n
        invariant
            i <= n == rides@.len(),
            pairs@.len() == i,
            forall|k: int| 0 <= k < i ==> #[trigger] pairs@[k] == (rides@[k].t_start as u64, k as u64),
        decreases n - i,
    {
        pairs.push((rides[i].t_start as u64, i as u64));
        i = i + 1;
    }
    let ghost unsorted = pairs@;
    assert(unsorted =~= Seq::new(rides@.len(), |i: int| (rides@[i].t_start as u64, i as u64)));
    sort_pairs(&mut pairs);
    let mut out: Vec<Ride> = Vec::new();
    let mut k: usize = 0;
    while k < n
        invariant
            k <= n == rides@.len(),
            pairs@.len() == n,
            unsorted.len() == n,
            forall|m: int| 0 <= m < n ==> #[trigger] unsorted[m] == (rides@[m].t_start as u64, m as u64),
            forall|m: int| 0 <= m < n ==> unsorted.contains(#[trigger] pairs@[m]),
            pairs@ == start_order(rides@),
            out@.len() == k,
            forall|m: int| 0 <= m < k ==> #[trigger] out@[m] == rides@[pairs@[m].1 as int],
        decreases n - k,
    {
        let item = pairs[k];
        proof {
            assert(unsorted.contains(item));
            let w = choose|w: int| 0 <= w < unsorted.len() && unsorted[w] == item;
            assert(item.1 == w as u64);
        }
        let ride = &rides[item.1 as usize];
        out.push(
            Ride {
                id: ride.id,
                c_start: ride.c_start,
                c_finish: ride.c_finish,
                t_start: ride.t_start,
                t_finish: ride.t_finish,
                used: ride.used,
            },
        );
        k = k + 1;
    }
    assert(out@ =~= by_start(rides@));
    out
}

/// How far it is from the finish of each ride to the nearest start of
/// another: see [`nearest`].
pub fn nearest_starts(rides: &Vec<Ride>) -> (r: Vec<u64>)
    ensures
        r@.len() == rides@.len(),
        forall|i: int| 0 <= i < rides@.len() ==> #[trigger] r@[i] == nearest(rides@, i),
{
    let n = rides.len();
    let mut out: Vec<u64> = Vec::new();
    let mut i: usize = 0;
    while i < n
        invariant
            i <= n == rides@.len(),
            out@.len() == i,
            forall|k: int| 0 <= k < i ==> #[trigger] out@[k] == nearest(rides@, k),
        decreases n - i,
    {
        let mut best: u64 = TimeT::MAX as u64;
        let mut j: usize = 0;
        while j < n
            invariant
                i < n == rides@.len(),
                j <= n,
                best == far_upto(rides@, i as int, j as int),
                best <= TimeT::MAX,
            decreases n - j,
        {
            if i != j {
                let d = steps(&rides[i].c_finish, &rides[j].c_start);
                if d < best {
                    best = d;
                }
            }
            j = j + 1;
        }
        out.push(best);
        i = i + 1;
    }
    out
}

/// Computes [`threshold`].
fn threshold_of(n_steps: usize) -> (r: u64)
    ensures
        r == threshold(n_steps),
{
    ((n_steps as u64) % 0x1_0000_0000) / 100 * 98
}

/// The ride for the car, if there is one.
pub fn best_ride(rides: &Vec<Ride>, far: &Vec<u64>, used: &Vec<bool>, car: &Car, n_steps: usize)
    -> (r: Option<usize>)
    requires
        used@.len() == rides@.len(),
        far@.len() == rides@.len(),
        forall|i: int| 0 <= i < rides@.len() ==> #[trigger] far@[i] == nearest(rides@, i),
    ensures
        match r {
            Some(j) => is_ride_for(
                rides@,
                used@,
                CarView { c: car.c, t: car.t, rides: car.rides@ },
                j as int,
                n_steps,
            ),
            None => !has_ride(
                rides@,
                used@,
                CarView { c: car.c, t: car.t, rides: car.rides@ },
                n_steps,
            ),
        },
{
    let ghost view = CarView { c: car.c, t: car.t, rides: car.rides@ };
    let n = rides.len();
    let limit = threshold_of(n_steps);
    let mut best: Option<(u64, usize)> = None;
    let mut j: usize = 0;
    while j < n
        invariant
            j <= n == rides@.len(),
            used@.len() == n,
            far@.len() == n,
            forall|i: int| 0 <= i < rides@.len() ==> #[trigger] far@[i] == nearest(rides@, i),
            limit == threshold(n_steps),
            view == (CarView { c: car.c, t: car.t, rides: car.rides@ }),
            match best {
                Some((w, b)) => {
                    &&& b < j
                    &&& possible(rides@, used@, view, b as int, n_steps)
                    &&& w == wasted(rides@, view.c, view.t as int, b as int, n_steps)
                    &&& forall|k: int| #[trigger]
                        possible(rides@, used@, view, k, n_steps) && k < j ==> {
                            let other = wasted(rides@, view.c, view.t as int, k, n_steps);
                            w < other || (w == other && b <= k)
                        }
                },
                None => forall|k: int| #[trigger]
                    possible(rides@, used@, view, k, n_steps) ==> k >= j,
            },
        decreases n - j,
    {
        let ride = &rides[j];
        let d = steps(&car.c, &ride.c_start);
        let arrive = car.t as u64 + d;
        let start = if arrive >= ride.t_start as u64 { arrive } else { ride.t_start as u64 };
        let waiting = start - arrive;
        let end = start + steps(&ride.c_start, &ride.c_finish);
        let mut w = d + waiting;
        if end <= limit {
            w = w + far[j] / 15;
        }
        assert(w == wasted(rides@, view.c, view.t as int, j as int, n_steps));
        if !used[j] && end <= ride.t_finish as u64 && w < TimeT::MAX as u64 {
            assert(possible(rides@, used@, view, j as int, n_steps));
            let better = match best {
                Some((bw, _)) => w < bw,
                None => true,
            };
            if better {
                best = Some((w, j));
            }
        } else {
            assert(!possible(rides@, used@, view, j as int, n_steps));
        }
        j = j + 1;
    }
    match best {
        Some((_, b)) => Some(b),
        None => {
            proof {
                if has_ride(rides@, used@, view, n_steps) {
                    let c = ride_for(rides@, used@, view, n_steps);
                    assert(is_ride_for(rides@, used@, view, c, n_steps));
                    assert(possible(rides@, used@, view, c, n_steps));
                }
            }
            None
        },
    }
}

/// Gives rides to `n_cars` cars: the rides are put in the order of their
/// earliest start, and then each car in turn takes the ride that wastes
/// least of its time, round upon round, until a round gives no car a
/// ride. Returns the cars with their rides.
pub fn solve(n_cars: usize, n_steps: usize, rides: &Vec<Ride>) -> (r: Vec<Car>)
    ensures
        r@.len() == n_cars,
        forall|i: int| 0 <= i < n_cars ==> (#[trigger] r@[i]).id == i,
        cars_view(r@) == run(
            by_start(rides@),
            initial_fleet(n_cars as nat, rides@.len()),
            n_steps,
        ).cars,
{
    let sorted = sort_rides(rides);
    let far = nearest_starts(&sorted);
    let n_rides = sorted.len();
    let mut cars: Vec<Car> = Vec::new();
    let mut i: usize = 0;
    while i < n_cars
        invariant
            i <= n_cars,
            cars@.len() == i,
            forall|k: int|
                0 <= k < i ==> (#[trigger] cars@[k]).id == k && cars@[k].c == Position(0, 0)
                    && cars@[k].t == 0 && cars@[k].rides@ == Seq::<RideId>::empty(),
        decreases n_cars - i,
    {
        cars.push(Car::new(i));
        i = i + 1;
    }
    let mut used: Vec<bool> = Vec::new();
    let mut j: usize = 0;
    while j < n_rides
        invariant
            j <= n_rides,
            used@.len() == j,
            forall|k: int| 0 <= k < j ==> !(#[trigger] used@[k]),
        decreases n_rides - j,
    {
        used.push(false);
        j = j + 1;
    }
    let ghost first = initial_fleet(n_cars as nat, rides@.len());
    assert(cars_view(cars@) =~= first.cars);
    assert(used@ =~= first.used);
    loop
        invariant_except_break
            cars@.len() == n_cars,
            forall|k: int| 0 <= k < n_cars ==> (#[trigger] cars@[k]).id == k,
            used@.len() == n_rides,
            n_rides == sorted@.len(),
            far@.len() == n_rides,
            forall|k: int| 0 <= k < sorted@.len() ==> #[trigger] far@[k] == nearest(sorted@, k),
            run(sorted@, first, n_steps) == run(
                sorted@,
                Fleet { cars: cars_view(cars@), used: used@ },
                n_steps,
            ),
        ensures
            cars@.len() == n_cars,
            forall|k: int| 0 <= k < n_cars ==> (#[trigger] cars@[k]).id == k,
            cars_view(cars@) == run(sorted@, first, n_steps).cars,
        decreases unused(used@),
    {
        let ghost start = Fleet { cars: cars_view(cars@), used: used@ };
        let mut anything = false;
        let mut i: usize = 0;
        while i < n_cars
            invariant
                i <= n_cars == cars@.len(),
                forall|k: int| 0 <= k < n_cars ==> (#[trigger] cars@[k]).id == k,
                used@.len() == n_rides,
                n_rides == sorted@.len(),
                far@.len() == n_rides,
                forall|k: int| 0 <= k < sorted@.len() ==> #[trigger] far@[k] == nearest(sorted@, k),
                start.cars.len() == n_cars,
                (Fleet { cars: cars_view(cars@), used: used@ }) == round_upto(
                    sorted@,
                    start,
                    i as int,
                    n_steps,
                ),
                unused(used@) <= unused(start.used),
                anything == (unused(used@) < unused(start.used)),
            decreases n_cars - i,
        {
            let ghost before = Fleet { cars: cars_view(cars@), used: used@ };
            assert(before.cars[i as int] == (CarView {
                c: cars@[i as int].c,
                t: cars@[i as int].t,
                rides: cars@[i as int].rides@,
            }));
            match best_ride(&sorted, &far, &used, &cars[i], n_steps) {
                Some(j) => {
                    proof {
                        lemma_ride_unique(sorted@, used@, before.cars[i as int], j as int, n_steps);
                        lemma_unused_update(used@, j as int);
                    }
                    cars[i].assign(&sorted[j]);
                    used.set(j, true);
                    anything = true;
                    assert(cars_view(cars@) =~= before.cars.update(
                        i as int,
                        after_ride(sorted@, before.cars[i as int], j as int),
                    ));
                },
                None => {},
            }
            i = i + 1;
        }
        if !anything {
            break;
        }
    }
    cars
}

} // verus!
