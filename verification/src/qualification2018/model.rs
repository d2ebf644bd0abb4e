//! Positions, rides and cars.

use vstd::prelude::*;

verus! {

pub type RideId = usize;

pub type CarId = usize;

pub type TimeT = u32;

pub type CoordT = i32;

/// An intersection of the city grid: its row and its column.
#[derive(Copy, Clone, Debug)]
pub struct Position(pub CoordT, pub CoordT);

impl Default for Position {
    fn default() -> (r: Position)
        ensures
            r == Position(0, 0),
    {
        Position(0, 0)
    }
}

/// The number of steps from `a` to `b`: the rows and the columns between
/// them.
pub open spec fn manhattan(a: Position, b: Position) -> int {
    (if a.0 >= b.0 {
        a.0 - b.0
    } else {
        b.0 - a.0
    }) + (if a.1 >= b.1 {
        a.1 - b.1
    } else {
        b.1 - a.1
    })
}

/// The number of steps from `a` to `b`.
pub fn steps(a: &Position, b: &Position) -> (r: u64)
    ensures
        r == manhattan(*a, *b),
        r <= 0x1_ffff_fffe,
{
    let dx: i64 = a.0 as i64 - b.0 as i64;
    let dy: i64 = a.1 as i64 - b.1 as i64;
    let x: i64 = if dx >= 0 { dx } else { -dx };
    let y: i64 = if dy >= 0 { dy } else { -dy };
    (x + y) as u64
}

impl Position {
    /// The number of steps to `other`, which must be few enough to be
    /// written down.
    pub fn distance(&self, other: &Position) -> (r: TimeT)
        requires
            manhattan(*self, *other) <= TimeT::MAX,
        ensures
            r == manhattan(*self, *other),
    {
        steps(self, other) as TimeT
    }
}

/// A ride that someone has booked.
#[derive(Clone, Debug)]
pub struct Ride {
    /// The number of the ride: its place in the list of rides as booked.
    pub id: RideId,
    /// Where the ride starts.
    pub c_start: Position,
    /// Where the ride ends.
    pub c_finish: Position,
    /// The earliest step at which the ride can start.
    pub t_start: TimeT,
    /// The step by which the ride must be over to count.
    pub t_finish: TimeT,
    /// Whether a car has the ride already.
    pub used: bool,
}

impl Ride {
    /// The number of steps from start to finish.
    pub open spec fn len(&self) -> int {
        manhattan(self.c_start, self.c_finish)
    }

    /// The number of steps from start to finish, which must be few enough
    /// to be written down.
    pub fn length(&self) -> (r: TimeT)
        requires
            self.len() <= TimeT::MAX,
        ensures
            r == self.len(),
    {
        self.c_start.distance(&self.c_finish)
    }
}

/// A car with the rides it has taken.
#[derive(Clone, Debug)]
pub struct Car {
    pub id: CarId,
    /// Where the car is after its last ride.
    pub c: Position,
    /// The step at which the car is free again.
    pub t: TimeT,
    /// The rides of the car, in order.
    pub rides: Vec<RideId>,
}

/// The step at which a car that is free at step `t` in `c` reaches the
/// start of `ride`.
pub open spec fn arrival(c: Position, t: int, ride: &Ride) -> int {
    t + manhattan(c, ride.c_start)
}

/// The step at which the car sets out on `ride`: when it is there, but
/// not before the ride can start.
pub open spec fn departure(c: Position, t: int, ride: &Ride) -> int {
    if arrival(c, t, ride) >= ride.t_start {
        arrival(c, t, ride)
    } else {
        ride.t_start as int
    }
}

/// The step at which the car is free again after `ride`.
pub open spec fn finish(c: Position, t: int, ride: &Ride) -> int {
    departure(c, t, ride) + ride.len()
}

impl Car {
    /// A car at the corner of the grid, free from the first step on.
    pub fn new(id: CarId) -> (r: Self)
        ensures
            r.id == id,
            r.c == Position(0, 0),
            r.t == 0,
            r.rides@ == Seq::<RideId>::empty(),
    {
        Self { id, c: Position::default(), t: 0, rides: Vec::new() }
    }

    /// Gives `ride` to the car: it drives to the start, waits for the
    /// ride to begin if it is early, and is free again at the finish.
    pub fn assign(&mut self, ride: &Ride)
        requires
            finish(old(self).c, old(self).t as int, ride) <= TimeT::MAX,
        ensures
            final(self).id == old(self).id,
            final(self).t == finish(old(self).c, old(self).t as int, ride),
            final(self).rides@ == old(self).rides@.push(ride.id),
            final(self).c == ride.c_finish,
    {
        let distance_to_start_ride = self.c.distance(&ride.c_start);
        let when_arrive_start = self.t + distance_to_start_ride;
        let when_start = if when_arrive_start >= ride.t_start {
            when_arrive_start
        } else {
            ride.t_start
        };
        let when_finish = when_start + ride.length();
        self.t = when_finish;
        self.rides.push(ride.id);
        self.c = ride.c_finish;
    }
}

/// A car of a solution with its rides, in order.
pub struct SolutionCar {
    pub id: CarId,
    pub rides: Vec<RideId>,
}

} // verus!
