//! Reading the description of a city from its text.

use vstd::prelude::*;
use crate::helpers::red::{lemma_repeat_stops, repeat, value_at, Red};
use crate::qualification2021::model::{Street, StreetView};

verus! {

/// What the text says, name by name, before the names are looked up.
pub struct CityFile {
    pub duration: i32,
    pub n_intersections: usize,
    pub bonus: i32,
    pub streets: Vec<Street>,
    /// For each car, the names of the streets of its trip.
    pub trips: Vec<Vec<Vec<u8>>>,
}

/// A [`CityFile`] as a mathematical value.
pub struct CityText {
    pub duration: i32,
    pub n_intersections: usize,
    pub bonus: i32,
    pub streets: Seq<StreetView>,
    pub trips: Seq<Seq<Seq<u8>>>,
}

/// The names in `trip` as mathematical values.
pub open spec fn names_view(trip: Seq<Vec<u8>>) -> Seq<Seq<u8>> {
    trip.map_values(|n: Vec<u8>| n@)
}

impl View for CityFile {
    type V = CityText;

    open spec fn view(&self) -> CityText {
        CityText {
            duration: self.duration,
            n_intersections: self.n_intersections,
            bonus: self.bonus,
            streets: self.streets@.map_values(|s: Street| s@),
            trips: self.trips@.map_values(|t: Vec<Vec<u8>>| names_view(t@)),
        }
    }
}

/// One street: the intersections where it begins and ends, its name and
/// its length.
pub open spec fn street_at(s: Seq<u8>, pos: int) -> Option<(StreetView, int)> {
    match value_at::<u32>(s, pos) {
        Some((from, p1)) => match value_at::<u32>(s, p1) {
            Some((to, p2)) => match value_at::<Vec<u8>>(s, p2) {
                Some((name, p3)) => match value_at::<i32>(s, p3) {
                    Some((len, p4)) => Some((StreetView { from, to, len, name }, p4)),
                    None => None,
                },
                None => None,
            },
            None => None,
        },
        None => None,
    }
}

/// One trip: the number of its streets, then their names.
pub open spec fn trip_at(s: Seq<u8>, pos: int) -> Option<(Seq<Seq<u8>>, int)> {
    match value_at::<u32>(s, pos) {
        Some((n, p1)) => repeat(s, p1, n as nat, |s: Seq<u8>, p: int| value_at::<Vec<u8>>(s, p)),
        None => None,
    }
}

/// What the text `s` says: the duration, the numbers of intersections,
/// streets and cars, and the bonus; then the streets; then the trips.
/// `None` where a token is missing or is not a number where one is
/// expected. A name that is missing at the end of the text reads as the
/// empty name. What follows the last trip is not read.
pub open spec fn city_of(s: Seq<u8>) -> Option<CityText> {
    match value_at::<i32>(s, 0) {
        Some((duration, p1)) => match value_at::<usize>(s, p1) {
            Some((n_intersections, p2)) => match value_at::<usize>(s, p2) {
                Some((n_streets, p3)) => match value_at::<usize>(s, p3) {
                    Some((n_cars, p4)) => match value_at::<i32>(s, p4) {
                        Some((bonus, p5)) => match repeat(
                            s,
                            p5,
                            n_streets as nat,
                            |s: Seq<u8>, p: int| street_at(s, p),
                        ) {
                            Some((streets, p6)) => match repeat(
                                s,
                                p6,
                                n_cars as nat,
                                |s: Seq<u8>, p: int| trip_at(s, p),
                            ) {
                                Some((trips, p7)) => Some(
                                    CityText { duration, n_intersections, bonus, streets, trips },
                                ),
                                None => None,
                            },
                            None => None,
                        },
                        None => None,
                    },
                    None => None,
                },
                None => None,
            },
            None => None,
        },
        None => None,
    }
}

/// Reads one street, which gets the number `id`.
fn read_street(red: &mut Red, id: u32) -> (r: Option<Street>)
    ensures
        final(red).bytes() == old(red).bytes(),
        match r {
            Some(v) => street_at(old(red).bytes(), old(red).pos()) == Some((v@, final(red).pos()))
                && v.id == id,
            None => street_at(old(red).bytes(), old(red).pos()) is None,
        },
{
    let from = match red.value::<u32>() {
        Some(v) => v,
        None => {
            return None;
        },
    };
    let to = match red.value::<u32>() {
        Some(v) => v,
        None => {
            return None;
        },
    };
    let name = match red.value::<Vec<u8>>() {
        Some(v) => v,
        None => {
            return None;
        },
    };
    let len = match red.value::<i32>() {
        Some(v) => v,
        None => {
            return None;
        },
    };
    Some(Street { id, from, to, len, name })
}

/// Reads the names of one trip.
fn read_trip(red: &mut Red) -> (r: Option<Vec<Vec<u8>>>)
    ensures
        final(red).bytes() == old(red).bytes(),
        match r {
            Some(v) => trip_at(old(red).bytes(), old(red).pos()) == Some(
                (names_view(v@), final(red).pos()),
            ),
            None => trip_at(old(red).bytes(), old(red).pos()) is None,
        },
{
    let ghost s = red.bytes();
    let n = match red.value::<u32>() {
        Some(v) => v,
        None => {
            return None;
        },
    };
    let ghost p1 = red.pos();
    let ghost one = |s: Seq<u8>, p: int| value_at::<Vec<u8>>(s, p);
    let mut names: Vec<Vec<u8>> = Vec::new();
    let mut i: u32 = 0;
    assert(names_view(names@) =~= Seq::<Seq<u8>>::empty());
    while i < n
        invariant
            i <= n,
            red.bytes() == s,
            s == old(red).bytes(),
            one == |s: Seq<u8>, p: int| value_at::<Vec<u8>>(s, p),
            repeat(s, p1, i as nat, one) == Some((names_view(names@), red.pos())),
            trip_at(s, old(red).pos()) == repeat(s, p1, n as nat, one),
        decreases n - i,
    {
        let ghost before = names_view(names@);
        match red.value::<Vec<u8>>() {
            Some(name) => {
                names.push(name);
                assert(names_view(names@) =~= before.push(name@));
            },
            None => {
                proof {
                    lemma_repeat_stops(s, p1, (i + 1) as nat, n as nat, one);
                }
                return None;
            },
        }
        i = i + 1;
    }
    Some(names)
}

/// Reads what the text says.
pub fn try_read_city(bytes: Vec<u8>) -> (r: Option<CityFile>)
    ensures
        match r {
            Some(city) => city_of(bytes@) == Some(city@) && forall|k: int|
                0 <= k < city.streets@.len() ==> (#[trigger] city.streets@[k]).id == k as u32,
            None => city_of(bytes@) is None,
        },
{
    let ghost s = bytes@;
    let mut red = Red::new(bytes);
    let duration = match red.value::<i32>() {
        Some(v) => v,
        None => {
            return None;
        },
    };
    let n_intersections = match red.value::<usize>() {
        Some(v) => v,
        None => {
            return None;
        },
    };
    let n_streets = match red.value::<usize>() {
        Some(v) => v,
        None => {
            return None;
        },
    };
    let n_cars = match red.value::<usize>() {
        Some(v) => v,
        None => {
            return None;
        },
    };
    let bonus = match red.value::<i32>() {
        Some(v) => v,
        None => {
            return None;
        },
    };
    let ghost p5 = red.pos();
    let ghost one_street = |s: Seq<u8>, p: int| street_at(s, p);
    let mut streets: Vec<Street> = Vec::new();
    let mut i: usize = 0;
    assert(streets@.map_values(|s: Street| s@) =~= Seq::<StreetView>::empty());
    while i < n_streets
        invariant
            i <= n_streets,
            red.bytes() == s,
            s == bytes@,
            one_street == |s: Seq<u8>, p: int| street_at(s, p),
            repeat(s, p5, i as nat, one_street) == Some(
                (streets@.map_values(|s: Street| s@), red.pos()),
            ),
            repeat(s, p5, n_streets as nat, one_street) is None ==> city_of(s) is None,
            streets@.len() == i,
            forall|k: int| 0 <= k < i ==> (#[trigger] streets@[k]).id == k as u32,
        decreases n_streets - i,
    {
        let ghost before = streets@.map_values(|s: Street| s@);
        match read_street(&mut red, i as u32) {
            Some(street) => {
                streets.push(street);
                assert(streets@.map_values(|s: Street| s@) =~= before.push(street@));
            },
            None => {
                proof {
                    lemma_repeat_stops(s, p5, (i + 1) as nat, n_streets as nat, one_street);
                }
                return None;
            },
        }
        i = i + 1;
    }
    let ghost p6 = red.pos();
    let ghost one_trip = |s: Seq<u8>, p: int| trip_at(s, p);
    let mut trips: Vec<Vec<Vec<u8>>> = Vec::new();
    let mut i: usize = 0;
    assert(trips@.map_values(|t: Vec<Vec<u8>>| names_view(t@)) =~= Seq::<Seq<Seq<u8>>>::empty());
    while i < n_cars
        invariant
            i <= n_cars,
            red.bytes() == s,
            s == bytes@,
            one_trip == |s: Seq<u8>, p: int| trip_at(s, p),
            repeat(s, p6, i as nat, one_trip) == Some(
                (trips@.map_values(|t: Vec<Vec<u8>>| names_view(t@)), red.pos()),
            ),
            repeat(s, p6, n_cars as nat, one_trip) is None ==> city_of(s) is None,
        decreases n_cars - i,
    {
        let ghost before = trips@.map_values(|t: Vec<Vec<u8>>| names_view(t@));
        match read_trip(&mut red) {
            Some(trip) => {
                trips.push(trip);
                assert(trips@.map_values(|t: Vec<Vec<u8>>| names_view(t@)) =~= before.push(
                    names_view(trip@),
                ));
            },
            None => {
                proof {
                    lemma_repeat_stops(s, p6, (i + 1) as nat, n_cars as nat, one_trip);
                }
                return None;
            },
        }
        i = i + 1;
    }
    Some(CityFile { duration, n_intersections, bonus, streets, trips })
}

} // verus!
