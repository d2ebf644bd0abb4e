//! The city, the cars and what is counted about them.

use vstd::prelude::*;

verus! {

/// A one-way street between two intersections.
#[derive(Debug)]
pub struct Street {
    /// The number of the street: its place in the list of streets.
    pub id: u32,
    /// The intersection where the street begins.
    pub from: u32,
    /// The intersection where the street ends, at a traffic light.
    pub to: u32,
    /// The time it takes to drive down the street.
    pub len: i32,
    /// The name of the street.
    pub name: Vec<u8>,
}

/// A car and the streets it wants to drive down.
pub struct Car {
    /// The number of the car: its place in the list of cars.
    pub id: u32,
    /// The streets of the trip, in order. The car starts at the end of
    /// the first one.
    pub trip: Vec<u32>,
    /// The length of all streets of the trip together.
    pub dist: i32,
}

/// One instance of the problem, with what is counted about it.
pub struct Input {
    pub n_intersections: usize,
    /// The points given for each car that finishes.
    pub bonus: i32,
    /// The length of the simulation.
    pub duration: i32,
    pub streets: Vec<Street>,
    pub cars: Vec<Car>,
    /// For each street, how many cars have to pass its light.
    pub street_popularity: Vec<i32>,
    /// For each intersection, how many cars have to pass it.
    pub intersection_popularity: Vec<i32>,
    /// For each intersection, the streets that end there, in order.
    pub intersection_to_incoming_streets: Vec<Vec<u32>>,
}

/// A street as a mathematical value.
pub struct StreetView {
    pub from: u32,
    pub to: u32,
    pub len: i32,
    pub name: Seq<u8>,
}

impl View for Street {
    type V = StreetView;

    open spec fn view(&self) -> StreetView {
        StreetView { from: self.from, to: self.to, len: self.len, name: self.name@ }
    }
}

/// The largest number of streets, cars or intersections that their
/// numbering can tell apart.
pub const MAX_ID: usize = 0xffff_ffff;

/// How often `street` occurs among the first `k` streets of `trip`.
pub open spec fn uses_upto(trip: Seq<u32>, street: int, k: int) -> int
    decreases k,
{
    if k <= 0 {
        0
    } else {
        uses_upto(trip, street, k - 1) + if trip[k - 1] == street {
            1int
        } else {
            0int
        }
    }
}

/// How many of the first `k` streets of `trip` end at `intersection`.
pub open spec fn arrivals_upto(ends: Seq<u32>, trip: Seq<u32>, intersection: int, k: int) -> int
    decreases k,
{
    if k <= 0 {
        0
    } else {
        arrivals_upto(ends, trip, intersection, k - 1) + if ends[trip[k - 1] as int]
            == intersection {
            1int
        } else {
            0int
        }
    }
}

/// Those of the first `k` streets that end at `intersection`, in order.
/// `ends` tells where each street ends.
pub open spec fn incoming_upto(ends: Seq<u32>, intersection: int, k: int) -> Seq<u32>
    decreases k,
{
    if k <= 0 {
        Seq::empty()
    } else {
        let front = incoming_upto(ends, intersection, k - 1);
        if ends[k - 1] == intersection {
            front.push((k - 1) as u32)
        } else {
            front
        }
    }
}

/// How many of the first `k` trips have to pass the light of `street`. The
/// last street of a trip has no light to pass.
pub open spec fn popularity_upto(trips: Seq<Seq<u32>>, street: int, k: int) -> int
    decreases k,
{
    if k <= 0 {
        0
    } else {
        popularity_upto(trips, street, k - 1) + uses_upto(
            trips[k - 1],
            street,
            trips[k - 1].len() - 1,
        )
    }
}

/// How many of the first `k` trips have to pass `intersection`.
pub open spec fn crossings_upto(ends: Seq<u32>, trips: Seq<Seq<u32>>, intersection: int, k: int)
    -> int
    decreases k,
{
    if k <= 0 {
        0
    } else {
        crossings_upto(ends, trips, intersection, k - 1) + arrivals_upto(
            ends,
            trips[k - 1],
            intersection,
            trips[k - 1].len() - 1,
        )
    }
}

impl Input {
    /// Where each street ends.
    pub open spec fn ends(&self) -> Seq<u32> {
        self.streets@.map_values(|s: Street| s.to)
    }

    /// The trips of the cars.
    pub open spec fn trips(&self) -> Seq<Seq<u32>> {
        self.cars@.map_values(|c: Car| c.trip@)
    }

    /// Streets and cars are numbered by their place, streets end at
    /// intersections that exist, and trips are not empty and name
    /// streets that exist.
    pub open spec fn wf_city(&self) -> bool {
        &&& self.n_intersections <= MAX_ID
        &&& self.streets@.len() <= MAX_ID
        &&& self.cars@.len() <= MAX_ID
        &&& forall|s: int|
            0 <= s < self.streets@.len() ==> (#[trigger] self.streets@[s]).id == s
                && self.streets@[s].to < self.n_intersections
        &&& forall|c: int|
            0 <= c < self.cars@.len() ==> (#[trigger] self.cars@[c]).id == c
                && self.cars@[c].trip@.len() >= 1
        &&& forall|c: int, k: int|
            0 <= c < self.cars@.len() && 0 <= k < self.cars@[c].trip@.len() ==> (
            #[trigger] self.cars@[c].trip@[k]) < self.streets@.len()
    }

    /// What is counted about the city is counted right.
    pub open spec fn wf_counts(&self) -> bool {
        &&& self.street_popularity@.len() == self.streets@.len()
        &&& forall|s: int|
            0 <= s < self.streets@.len() ==> #[trigger] self.street_popularity@[s]
                == popularity_upto(self.trips(), s, self.cars@.len() as int)
        &&& self.intersection_popularity@.len() == self.n_intersections
        &&& forall|i: int|
            0 <= i < self.n_intersections ==> #[trigger] self.intersection_popularity@[i]
                == crossings_upto(self.ends(), self.trips(), i, self.cars@.len() as int)
        &&& self.intersection_to_incoming_streets@.len() == self.n_intersections
        &&& forall|i: int|
            0 <= i < self.n_intersections ==> (
            #[trigger] self.intersection_to_incoming_streets@[i])@ == incoming_upto(
                self.ends(),
                i,
                self.streets@.len() as int,
            )
    }

    /// The instance is consistent.
    pub open spec fn wf(&self) -> bool {
        self.wf_city() && self.wf_counts()
    }
}

/// A count is not negative.
pub proof fn lemma_uses_nonnegative(trip: Seq<u32>, street: int, n: int)
    ensures
        0 <= uses_upto(trip, street, n),
    decreases n,
{
    if n > 0 {
        lemma_uses_nonnegative(trip, street, n - 1);
    }
}

/// Counting further never lowers a count.
pub proof fn lemma_uses_monotone(trip: Seq<u32>, street: int, k: int, n: int)
    requires
        k <= n,
    ensures
        uses_upto(trip, street, k) <= uses_upto(trip, street, n),
    decreases n - k,
{
    if k < n {
        lemma_uses_monotone(trip, street, k + 1, n);
        lemma_uses_nonnegative(trip, street, k);
    }
}

/// Counting further never lowers a count.
pub proof fn lemma_arrivals_monotone(
    ends: Seq<u32>,
    trip: Seq<u32>,
    intersection: int,
    k: int,
    n: int,
)
    requires
        k <= n,
    ensures
        arrivals_upto(ends, trip, intersection, k) <= arrivals_upto(ends, trip, intersection, n),
    decreases n - k,
{
    if k < n {
        lemma_arrivals_monotone(ends, trip, intersection, k + 1, n);
        lemma_arrivals_nonnegative(ends, trip, intersection, k);
    }
}

/// A count is not negative.
pub proof fn lemma_arrivals_nonnegative(ends: Seq<u32>, trip: Seq<u32>, intersection: int, n: int)
    ensures
        0 <= arrivals_upto(ends, trip, intersection, n),
    decreases n,
{
    if n > 0 {
        lemma_arrivals_nonnegative(ends, trip, intersection, n - 1);
    }
}

/// Counting more trips never lowers a count.
pub proof fn lemma_popularity_monotone(trips: Seq<Seq<u32>>, street: int, k: int, n: int)
    requires
        0 <= k <= n,
    ensures
        0 <= popularity_upto(trips, street, k) <= popularity_upto(trips, street, n),
    decreases n,
{
    if n > k {
        lemma_uses_nonnegative(trips[n - 1], street, trips[n - 1].len() - 1);
        lemma_popularity_monotone(trips, street, k, n - 1);
    } else if n > 0 {
        lemma_uses_nonnegative(trips[n - 1], street, trips[n - 1].len() - 1);
        lemma_popularity_monotone(trips, street, k - 1, n - 1);
    }
}

/// Counting more trips never lowers a count.
pub proof fn lemma_crossings_monotone(
    ends: Seq<u32>,
    trips: Seq<Seq<u32>>,
    intersection: int,
    k: int,
    n: int,
)
    requires
        0 <= k <= n,
    ensures
        0 <= crossings_upto(ends, trips, intersection, k) <= crossings_upto(
            ends,
            trips,
            intersection,
            n,
        ),
    decreases n,
{
    if n > k {
        lemma_arrivals_nonnegative(ends, trips[n - 1], intersection, trips[n - 1].len() - 1);
        lemma_crossings_monotone(ends, trips, intersection, k, n - 1);
    } else if n > 0 {
        lemma_arrivals_nonnegative(ends, trips[n - 1], intersection, trips[n - 1].len() - 1);
        lemma_crossings_monotone(ends, trips, intersection, k - 1, n - 1);
    }
}

/// The streets listed as ending at an intersection exist.
pub proof fn lemma_incoming_in_range(ends: Seq<u32>, intersection: int, k: int)
    requires
        0 <= k <= ends.len() <= MAX_ID,
    ensures
        incoming_upto(ends, intersection, k).len() <= k,
        forall|j: int|
            0 <= j < incoming_upto(ends, intersection, k).len() ==> (#[trigger] incoming_upto(
                ends,
                intersection,
                k,
            )[j]) < k,
    decreases k,
{
    if k > 0 {
        lemma_incoming_in_range(ends, intersection, k - 1);
    }
}

} // verus!
