//! From what the text says to a problem instance: looking up the street
//! names of the trips and counting the traffic.

use vstd::prelude::*;
use crate::helpers::names::{find_last, NameTable};
use crate::qualification2021::model::{
    arrivals_upto, crossings_upto, incoming_upto, lemma_arrivals_monotone,
    lemma_crossings_monotone, lemma_popularity_monotone, lemma_uses_monotone, popularity_upto,
    uses_upto, Car, Input, Street, StreetView, MAX_ID,
};
use crate::qualification2021::parse::{city_of, names_view, try_read_city, CityFile, CityText};

verus! {

/// The names of the streets, in order.
pub open spec fn street_names(streets: Seq<StreetView>) -> Seq<Seq<u8>> {
    streets.map_values(|x: StreetView| x.name)
}

/// Where the streets end, in order.
pub open spec fn street_ends(streets: Seq<StreetView>) -> Seq<u32> {
    streets.map_values(|x: StreetView| x.to)
}

/// The lengths of the streets, in order.
pub open spec fn street_lens(streets: Seq<StreetView>) -> Seq<i32> {
    streets.map_values(|x: StreetView| x.len)
}

/// The number of the street called `name`: the last one, where several
/// streets have that name.
pub open spec fn street_named(names: Seq<Seq<u8>>, name: Seq<u8>) -> Option<int> {
    find_last(names, name, names.len() as int)
}

/// Every name of `trip` is the name of a street.
pub open spec fn resolvable(names: Seq<Seq<u8>>, trip: Seq<Seq<u8>>) -> bool {
    forall|k: int| 0 <= k < trip.len() ==> street_named(names, #[trigger] trip[k]) is Some
}

/// The numbers of the streets that `trip` names.
pub open spec fn resolved(names: Seq<Seq<u8>>, trip: Seq<Seq<u8>>) -> Seq<u32> {
    Seq::new(trip.len(), |k: int| street_named(names, trip[k])->0 as u32)
}

/// The trips of all cars, by street number.
pub open spec fn resolved_trips(city: CityText) -> Seq<Seq<u32>> {
    city.trips.map_values(|t: Seq<Seq<u8>>| resolved(street_names(city.streets), t))
}

/// The length of the first `k` streets of `trip` together; `None` where
/// the sum leaves the range of the result on the way.
pub open spec fn dist_upto(lens: Seq<i32>, trip: Seq<u32>, k: int) -> Option<i32>
    decreases k,
{
    if k <= 0 {
        Some(0)
    } else {
        match dist_upto(lens, trip, k - 1) {
            Some(d) => {
                let sum = d + lens[trip[k - 1] as int];
                if i32::MIN <= sum <= i32::MAX {
                    Some(sum as i32)
                } else {
                    None
                }
            },
            None => None,
        }
    }
}

/// The text describes a city that can be worked on: there are no more
/// intersections, streets or cars than can be numbered, every street ends
/// at an intersection that exists, every trip has a street, names streets
/// that exist and has a length that can be written down, and so can the
/// traffic of every street and intersection.
pub open spec fn acceptable(city: CityText) -> bool {
    let names = street_names(city.streets);
    let lens = street_lens(city.streets);
    let ends = street_ends(city.streets);
    let trips = resolved_trips(city);
    &&& city.n_intersections <= MAX_ID
    &&& city.streets.len() <= MAX_ID
    &&& city.trips.len() <= MAX_ID
    &&& forall|k: int|
        0 <= k < city.streets.len() ==> (#[trigger] city.streets[k]).to < city.n_intersections
    &&& forall|c: int|
        0 <= c < city.trips.len() ==> {
            let t = #[trigger] city.trips[c];
            &&& t.len() >= 1
            &&& resolvable(names, t)
            &&& dist_upto(lens, resolved(names, t), t.len() as int) is Some
        }
    &&& forall|s: int|
        0 <= s < city.streets.len() ==> #[trigger] popularity_upto(
            trips,
            s,
            city.trips.len() as int,
        ) <= i32::MAX
    &&& forall|i: int|
        0 <= i < city.n_intersections ==> #[trigger] crossings_upto(
            ends,
            trips,
            i,
            city.trips.len() as int,
        ) <= i32::MAX
}

/// `input` is the city that the text describes.
pub open spec fn describes(input: &Input, city: CityText) -> bool {
    &&& input.duration == city.duration
    &&& input.n_intersections == city.n_intersections
    &&& input.bonus == city.bonus
    &&& input.streets@.map_values(|s: Street| s@) == city.streets
    &&& input.trips() == resolved_trips(city)
    &&& forall|c: int|
        0 <= c < input.cars@.len() ==> Some((#[trigger] input.cars@[c]).dist) == dist_upto(
            street_lens(city.streets),
            input.cars@[c].trip@,
            input.cars@[c].trip@.len() as int,
        )
}

/// The cars are numbered by their place, and each has a trip that the
/// text names street by street, with its length.
pub open spec fn cars_described(cars: Seq<Car>, city: CityText) -> bool {
    let names = street_names(city.streets);
    let lens = street_lens(city.streets);
    &&& forall|j: int|
        0 <= j < cars.len() && j < city.trips.len() ==> {
            let t = #[trigger] city.trips[j];
            &&& t.len() >= 1
            &&& resolvable(names, t)
            &&& dist_upto(lens, resolved(names, t), t.len() as int) is Some
        }
    &&& forall|j: int|
        0 <= j < cars.len() ==> (#[trigger] cars[j]).id == j && cars[j].trip@.len() >= 1 && Some(
            cars[j].dist,
        ) == dist_upto(lens, cars[j].trip@, cars[j].trip@.len() as int)
    &&& forall|j: int, m: int|
        0 <= j < cars.len() && 0 <= m < cars[j].trip@.len() ==> (#[trigger] cars[j].trip@[m])
            < city.streets.len()
}

/// A list of `n` zeros.
fn zeros(n: usize) -> (r: Vec<i32>)
    ensures
        r@.len() == n,
        forall|k: int| 0 <= k < n ==> #[trigger] r@[k] == 0,
{
    let mut r: Vec<i32> = Vec::new();
    let mut k: usize = 0;
    while k < n
        invariant
            k <= n,
            r@.len() == k,
            forall|j: int| 0 <= j < k ==> #[trigger] r@[j] == 0,
        decreases n - k,
    {
        r.push(0);
        k = k + 1;
    }
    r
}

/// Looks up the streets of one trip and adds up their lengths.
fn resolve_trip(streets: &Vec<Street>, table: &NameTable, names: &Vec<Vec<u8>>, id: u32) -> (r:
    Option<Car>)
    requires
        table.wf(),
        table@ == street_names(streets@.map_values(|s: Street| s@)),
        streets@.len() <= MAX_ID,
    ensures
        match r {
            Some(car) => {
                &&& car.id == id
                &&& resolvable(table@, names_view(names@))
                &&& car.trip@ == resolved(table@, names_view(names@))
                &&& Some(car.dist) == dist_upto(
                    street_lens(streets@.map_values(|s: Street| s@)),
                    car.trip@,
                    car.trip@.len() as int,
                )
                &&& forall|k: int| 0 <= k < car.trip@.len() ==> (#[trigger] car.trip@[k])
                    < streets@.len()
            },
            None => !resolvable(table@, names_view(names@)) || dist_upto(
                street_lens(streets@.map_values(|s: Street| s@)),
                resolved(table@, names_view(names@)),
                names@.len() as int,
            ) is None,
        },
{
    let ghost all = table@;
    let ghost wanted = names_view(names@);
    let ghost lens = street_lens(streets@.map_values(|s: Street| s@));
    let mut trip: Vec<u32> = Vec::new();
    let mut dist: i32 = 0;
    let mut k: usize = 0;
    while k < names.len()
        invariant
            table.wf(),
            all == table@,
            all == street_names(streets@.map_values(|s: Street| s@)),
            lens == street_lens(streets@.map_values(|s: Street| s@)),
            wanted == names_view(names@),
            streets@.len() <= MAX_ID,
            k <= names@.len(),
            trip@.len() == k,
            forall|j: int| 0 <= j < k ==> street_named(all, #[trigger] wanted[j]) is Some,
            forall|j: int|
                0 <= j < k ==> #[trigger] trip@[j] == street_named(all, wanted[j])->0 as u32
                    && trip@[j] < streets@.len(),
            Some(dist) == dist_upto(lens, trip@, k as int),
            dist_upto(lens, resolved(all, wanted), k as int) == dist_upto(lens, trip@, k as int),
        decreases names@.len() - k,
    {
        assert(wanted[k as int] == names@[k as int]@);
        let found = table.find(names[k].as_slice());
        let street = match found {
            Some(i) => i,
            None => {
                return None;
            },
        };
        proof {
            crate::helpers::names::lemma_find_last(all, wanted[k as int], all.len() as int);
        }
        let ghost before = trip@;
        trip.push(street as u32);
        proof {
            lemma_dist_prefix(lens, before, trip@, k as int);
            lemma_dist_prefix(lens, resolved(all, wanted), trip@, k as int);
            assert(resolved(all, wanted)[k as int] == trip@[k as int]);
        }
        dist = match dist.checked_add(streets[street].len) {
            Some(d) => d,
            None => {
                proof {
                    lemma_dist_stops(
                        lens,
                        resolved(all, wanted),
                        k + 1,
                        names@.len() as int,
                    );
                }
                return None;
            },
        };
        k = k + 1;
    }
    assert(trip@ =~= resolved(all, wanted));
    Some(Car { id, trip, dist })
}

/// The length of the first `k` streets depends on those streets only.
pub proof fn lemma_dist_prefix(lens: Seq<i32>, a: Seq<u32>, b: Seq<u32>, k: int)
    requires
        0 <= k <= a.len(),
        k <= b.len(),
        forall|j: int| 0 <= j < k ==> a[j] == b[j],
    ensures
        dist_upto(lens, a, k) == dist_upto(lens, b, k),
    decreases k,
{
    if k > 0 {
        lemma_dist_prefix(lens, a, b, k - 1);
    }
}

/// Once the length cannot be written down, no longer one can.
pub proof fn lemma_dist_stops(lens: Seq<i32>, trip: Seq<u32>, k: int, n: int)
    requires
        0 <= k <= n,
        dist_upto(lens, trip, k) is None,
    ensures
        dist_upto(lens, trip, n) is None,
    decreases n,
{
    if n > k {
        lemma_dist_stops(lens, trip, k, n - 1);
    }
}

/// Builds the problem instance that `city` describes, if it can be worked
/// on.
pub fn try_build(city: CityFile) -> (r: Option<Input>)
    requires
        forall|k: int| 0 <= k < city.streets@.len() ==> (#[trigger] city.streets@[k]).id == k as u32,
    ensures
        match r {
            Some(input) => acceptable(city@) && describes(&input, city@) && input.wf(),
            None => !acceptable(city@),
        },
{
    let ghost text = city@;
    let ghost names = street_names(text.streets);
    let ghost lens = street_lens(text.streets);
    let ghost ends = street_ends(text.streets);
    let n_streets = city.streets.len();
    let n_cars = city.trips.len();
    let n = city.n_intersections;
    if n > MAX_ID || n_streets > MAX_ID || n_cars > MAX_ID {
        return None;
    }
    let mut incoming: Vec<Vec<u32>> = Vec::new();
    let mut i: usize = 0;
    while i < n
        invariant
            i <= n,
            incoming@.len() == i,
            forall|j: int| 0 <= j < i ==> (#[trigger] incoming@[j])@ == Seq::<u32>::empty(),
        decreases n - i,
    {
        incoming.push(Vec::new());
        i = i + 1;
    }
    let mut table = NameTable::new();
    let mut k: usize = 0;
    assert(table@ =~= names.take(0));
    while k < n_streets
        invariant
            k <= n_streets == city.streets@.len(),
            n_streets <= MAX_ID,
            n == city.n_intersections,
            text == city@,
            names == street_names(text.streets),
            ends == street_ends(text.streets),
            table.wf(),
            table@ == names.take(k as int),
            incoming@.len() == n,
            forall|j: int| 0 <= j < k ==> (#[trigger] city.streets@[j]).to < n,
            forall|j: int| 0 <= j < n ==> (#[trigger] incoming@[j])@ == incoming_upto(
                ends,
                j,
                k as int,
            ),
        decreases n_streets - k,
    {
        let street = &city.streets[k];
        assert(text.streets[k as int] == city.streets@[k as int]@);
        if street.to as usize >= n {
            return None;
        }
        let ghost before = incoming@;
        incoming[street.to as usize].push(k as u32);
        table.push(vstd::slice::slice_to_vec(street.name.as_slice()));
        proof {
            assert(table@ =~= names.take(k + 1));
            assert forall|j: int| 0 <= j < n implies (#[trigger] incoming@[j])@ == incoming_upto(
                ends,
                j,
                k + 1,
            ) by {
                if j != street.to {
                    assert(incoming@[j] == before[j]);
                }
            }
        }
        k = k + 1;
    }
    assert(names.take(n_streets as int) =~= names);
    let mut cars: Vec<Car> = Vec::new();
    let mut c: usize = 0;
    assert(cars@.map_values(|c: Car| c.trip@) =~= resolved_trips(text).take(0));
    while c < n_cars
        invariant
            c <= n_cars == city.trips@.len(),
            n_cars <= MAX_ID,
            n_streets == city.streets@.len(),
            n_streets <= MAX_ID,
            text == city@,
            names == street_names(text.streets),
            lens == street_lens(text.streets),
            table.wf(),
            table@ == names,
            cars@.len() == c,
            cars@.map_values(|c: Car| c.trip@) == resolved_trips(text).take(c as int),
            cars_described(cars@, text),
        decreases n_cars - c,
    {
        let wanted = &city.trips[c];
        assert(text.trips[c as int] == names_view(wanted@));
        if wanted.len() == 0 {
            return None;
        }
        let ghost before = cars@.map_values(|c: Car| c.trip@);
        match resolve_trip(&city.streets, &table, wanted, c as u32) {
            Some(car) => {
                cars.push(car);
                proof {
                    assert(cars@.map_values(|c: Car| c.trip@) =~= before.push(car.trip@));
                    assert(resolved_trips(text).take(c + 1) =~= resolved_trips(text).take(
                        c as int,
                    ).push(resolved(names, text.trips[c as int])));
                }
            },
            None => {
                return None;
            },
        }
        c = c + 1;
    }
    let ghost trips = resolved_trips(text);
    assert(trips.take(n_cars as int) =~= trips);
    let mut street_popularity = zeros(n_streets);
    let mut intersection_popularity = zeros(n);
    let mut c: usize = 0;
    while c < n_cars
        invariant
            c <= n_cars == cars@.len(),
            n_streets == city.streets@.len(),
            n == city.n_intersections,
            text == city@,
            ends == street_ends(text.streets),
            trips == resolved_trips(text),
            trips == cars@.map_values(|c: Car| c.trip@),
            trips.len() == n_cars,
            street_popularity@.len() == n_streets,
            intersection_popularity@.len() == n,
            forall|j: int| 0 <= j < n_streets ==> (#[trigger] city.streets@[j]).to < n,
            cars_described(cars@, text),
            forall|s: int|
                0 <= s < n_streets ==> #[trigger] street_popularity@[s] == popularity_upto(
                    trips,
                    s,
                    c as int,
                ),
            forall|i: int|
                0 <= i < n ==> #[trigger] intersection_popularity@[i] == crossings_upto(
                    ends,
                    trips,
                    i,
                    c as int,
                ),
        decreases n_cars - c,
    {
        let trip = &cars[c].trip;
        assert(trips[c as int] == trip@);
        assert(forall|m: int| 0 <= m < trip@.len() ==> (#[trigger] trip@[m]) < n_streets);
        let last = trip.len() - 1;
        let mut k: usize = 0;
        while k < last
            invariant
                k <= last == trip@.len() - 1,
                c < n_cars == cars@.len(),
                cars_described(cars@, text),
                trips == cars@.map_values(|c: Car| c.trip@),
                trips[c as int] == trip@,
                trips.len() == n_cars,
                n_streets == city.streets@.len(),
                n == city.n_intersections,
                text == city@,
                ends == street_ends(text.streets),
                trips == resolved_trips(text),
                street_popularity@.len() == n_streets,
                intersection_popularity@.len() == n,
                forall|j: int| 0 <= j < n_streets ==> (#[trigger] city.streets@[j]).to < n,
                forall|m: int| 0 <= m < trip@.len() ==> (#[trigger] trip@[m]) < n_streets,
                forall|s: int|
                    0 <= s < n_streets ==> #[trigger] street_popularity@[s] == popularity_upto(
                        trips,
                        s,
                        c as int,
                    ) + uses_upto(trip@, s, k as int),
                forall|i: int|
                    0 <= i < n ==> #[trigger] intersection_popularity@[i] == crossings_upto(
                        ends,
                        trips,
                        i,
                        c as int,
                    ) + arrivals_upto(ends, trip@, i, k as int),
            decreases last - k,
        {
            let street = trip[k] as usize;
            let end = city.streets[street].to as usize;
            assert(ends[street as int] == city.streets@[street as int].to);
            let p = match street_popularity[street].checked_add(1) {
                Some(p) => p,
                None => {
                    proof {
                        lemma_uses_monotone(trip@, street as int, k + 1, last as int);
                        lemma_popularity_monotone(trips, street as int, c + 1, n_cars as int);
                        assert(popularity_upto(trips, street as int, n_cars as int) > i32::MAX);
                    }
                    return None;
                },
            };
            let q = match intersection_popularity[end].checked_add(1) {
                Some(q) => q,
                None => {
                    proof {
                        lemma_arrivals_monotone(ends, trip@, end as int, k + 1, last as int);
                        lemma_crossings_monotone(ends, trips, end as int, c + 1, n_cars as int);
                        assert(crossings_upto(ends, trips, end as int, n_cars as int) > i32::MAX);
                    }
                    return None;
                },
            };
            street_popularity.set(street, p);
            intersection_popularity.set(end, q);
            k = k + 1;
        }
        c = c + 1;
    }
    let input = Input {
        n_intersections: n,
        bonus: city.bonus,
        duration: city.duration,
        streets: city.streets,
        cars,
        street_popularity,
        intersection_popularity,
        intersection_to_incoming_streets: incoming,
    };
    proof {
        assert(input.ends() =~= ends);
        assert(input.trips() == trips);
        assert forall|s: int| 0 <= s < input.streets@.len() implies (#[trigger] input.streets@[s]).id
            == s && input.streets@[s].to < input.n_intersections by {
            assert(input.streets@[s].id == s as u32);
        }
        assert(input.wf_city());
        assert(input.wf_counts());
        assert(describes(&input, text));
        assert forall|s: int| 0 <= s < text.streets.len() implies #[trigger] popularity_upto(
            trips,
            s,
            text.trips.len() as int,
        ) <= i32::MAX by {
            assert(input.street_popularity@[s] == popularity_upto(trips, s, n_cars as int));
        }
        assert forall|i: int| 0 <= i < text.n_intersections implies #[trigger] crossings_upto(
            ends,
            trips,
            i,
            text.trips.len() as int,
        ) <= i32::MAX by {
            assert(input.intersection_popularity@[i] == crossings_upto(
                ends,
                trips,
                i,
                n_cars as int,
            ));
        }
        assert forall|c: int| 0 <= c < text.trips.len() implies {
            let t = #[trigger] text.trips[c];
            &&& t.len() >= 1
            &&& resolvable(names, t)
            &&& dist_upto(lens, resolved(names, t), t.len() as int) is Some
        } by {
            assert(cars_described(input.cars@, text));
        }
        assert(acceptable(text));
        assert forall|k: int| 0 <= k < text.streets.len() implies (#[trigger] text.streets[k]).to
            < text.n_intersections by {
            assert(text.streets[k] == input.streets@[k]@);
        }
    }
    Some(input)
}

/// Reads a problem instance from its text. See [`city_of`] for what the
/// text has to say and [`acceptable`] for what can be worked on.
pub fn try_read_problem(bytes: Vec<u8>) -> (r: Option<Input>)
    ensures
        match r {
            Some(input) => city_of(bytes@) is Some && acceptable(city_of(bytes@)->0) && describes(
                &input,
                city_of(bytes@)->0,
            ) && input.wf(),
            None => city_of(bytes@) is None || !acceptable(city_of(bytes@)->0),
        },
{
    match try_read_city(bytes) {
        Some(city) => try_build(city),
        None => None,
    }
}

/// Reads a problem instance from a text that describes a city that can
/// be worked on: see [`city_of`] and [`acceptable`].
pub fn read_problem(bytes: Vec<u8>) -> (input: Input)
    requires
        city_of(bytes@) is Some,
        acceptable(city_of(bytes@)->0),
    ensures
        describes(&input, city_of(bytes@)->0),
        input.wf(),
{
    match try_read_problem(bytes) {
        Some(input) => input,
        None => vstd::pervasive::unreached(),
    }
}

} // verus!
