//! The light schedule: green times in proportion to the traffic.

use vstd::prelude::*;
use crate::qualification2021::model::{lemma_incoming_in_range, Input};

verus! {

/// Those of `list` that at least one car has to pass, in order.
pub open spec fn popular(input: &Input, list: Seq<u32>) -> Seq<u32>
    decreases list.len(),
{
    if list.len() == 0 {
        Seq::empty()
    } else {
        let front = popular(input, list.drop_last());
        if input.street_popularity@[list.last() as int] > 0 {
            front.push(list.last())
        } else {
            front
        }
    }
}

/// The lowest popularity among the streets of `list`, which is not empty.
pub open spec fn min_popularity(input: &Input, list: Seq<u32>) -> int
    decreases list.len(),
{
    if list.len() <= 1 {
        input.street_popularity@[list[0] as int] as int
    } else {
        let front = min_popularity(input, list.drop_last());
        let last = input.street_popularity@[list.last() as int] as int;
        if last < front {
            last
        } else {
            front
        }
    }
}

/// The schedule of one intersection: each incoming street that cars have
/// to pass, in order, with a green time that says how many times as
/// popular it is as the least popular among them, rounded down. Streets
/// that no car has to pass stay red.
pub open spec fn schedule_of(input: &Input, intersection: int) -> Seq<(u32, i32)> {
    let streets = popular(input, input.intersection_to_incoming_streets@[intersection]@);
    Seq::new(
        streets.len(),
        |k: int|
            (
                streets[k],
                (input.street_popularity@[streets[k] as int] as int / min_popularity(
                    input,
                    streets,
                )) as i32,
            ),
    )
}

/// The schedules of all intersections.
pub open spec fn plan(input: &Input) -> Seq<Seq<(u32, i32)>> {
    Seq::new(input.n_intersections as nat, |i: int| schedule_of(input, i))
}

/// The schedules as mathematical values.
pub open spec fn lights(schedules: Seq<Vec<(u32, i32)>>) -> Seq<Seq<(u32, i32)>> {
    schedules.map_values(|v: Vec<(u32, i32)>| v@)
}

/// Twice the number of seconds can be written down.
pub open spec fn half(seconds: i32) -> bool {
    -0x4000_0000 <= seconds <= 0x3fff_ffff
}

/// Every green time can be doubled.
pub open spec fn can_double(schedules: Seq<Seq<(u32, i32)>>) -> bool {
    forall|i: int, k: int|
        0 <= i < schedules.len() && 0 <= k < schedules[i].len() ==> half(
            (#[trigger] schedules[i][k]).1,
        )
}

/// The schedules with every green time doubled.
pub open spec fn doubled_of(schedules: Seq<Seq<(u32, i32)>>) -> Seq<Seq<(u32, i32)>> {
    Seq::new(
        schedules.len(),
        |i: int|
            Seq::new(
                schedules[i].len(),
                |k: int| (schedules[i][k].0, (2 * schedules[i][k].1) as i32),
            ),
    )
}

/// The popular streets of a list are streets of the list.
pub proof fn lemma_popular(input: &Input, list: Seq<u32>)
    requires
        forall|j: int| 0 <= j < list.len() ==> (#[trigger] list[j]) < input.streets@.len(),
        input.street_popularity@.len() == input.streets@.len(),
    ensures
        popular(input, list).len() <= list.len(),
        forall|j: int|
            0 <= j < popular(input, list).len() ==> (#[trigger] popular(input, list)[j])
                < input.streets@.len() && input.street_popularity@[popular(input, list)[j] as int]
                > 0,
    decreases list.len(),
{
    if list.len() > 0 {
        lemma_popular(input, list.drop_last());
    }
}

/// The lowest popularity is positive where all are, and none is lower.
pub proof fn lemma_min_popularity(input: &Input, list: Seq<u32>)
    requires
        list.len() > 0,
        forall|j: int|
            0 <= j < list.len() ==> input.street_popularity@[(#[trigger] list[j]) as int] > 0,
    ensures
        min_popularity(input, list) > 0,
        forall|j: int|
            0 <= j < list.len() ==> min_popularity(input, list)
                <= input.street_popularity@[(#[trigger] list[j]) as int],
    decreases list.len(),
{
    if list.len() > 1 {
        lemma_min_popularity(input, list.drop_last());
        assert forall|j: int| 0 <= j < list.len() implies min_popularity(input, list)
            <= input.street_popularity@[(#[trigger] list[j]) as int] by {
            if j < list.len() - 1 {
                assert(list.drop_last()[j] == list[j]);
            }
        }
    }
}

/// There is one schedule for each intersection, which names streets that
/// exist, none more often than there are streets, and gives each at least
/// one second.
pub open spec fn schedules_ok(input: &Input, schedules: Seq<Vec<(u32, i32)>>) -> bool {
    &&& schedules.len() == input.n_intersections
    &&& forall|i: int|
        0 <= i < schedules.len() ==> (#[trigger] schedules[i])@.len() <= input.streets@.len()
    &&& forall|i: int, k: int|
        0 <= i < schedules.len() && 0 <= k < schedules[i]@.len() ==> (
        #[trigger] schedules[i]@[k]).0 < input.streets@.len() && schedules[i]@[k].1 >= 1
}

/// Whether every green time can be doubled.
pub fn doubling_fits(schedules: &Vec<Vec<(u32, i32)>>) -> (r: bool)
    ensures
        r == can_double(lights(schedules@)),
{
    let mut i: usize = 0;
    while i < schedules.len()
        invariant
            i <= schedules@.len(),
            forall|j: int, k: int|
                0 <= j < i && 0 <= k < schedules@[j]@.len() ==> half(
                    (#[trigger] schedules@[j]@[k]).1,
                ),
        decreases schedules@.len() - i,
    {
        let schedule = &schedules[i];
        let mut k: usize = 0;
        while k < schedule.len()
            invariant
                i < schedules@.len(),
                *schedule == schedules@[i as int],
                k <= schedule@.len(),
                forall|m: int| 0 <= m < k ==> half((#[trigger] schedule@[m]).1),
            decreases schedule@.len() - k,
        {
            if schedule[k].1 > 0x3fff_ffff || schedule[k].1 < -0x4000_0000 {
                assert(!half(lights(schedules@)[i as int][k as int].1));
                return false;
            }
            k = k + 1;
        }
        i = i + 1;
    }
    assert forall|i: int, k: int|
        0 <= i < lights(schedules@).len() && 0 <= k < lights(schedules@)[i].len() implies half(
        (#[trigger] lights(schedules@)[i][k]).1,
    ) by {
        assert(half(schedules@[i]@[k].1));
    }
    true
}

/// The schedules with every green time doubled.
pub fn doubled(schedules: &Vec<Vec<(u32, i32)>>) -> (r: Vec<Vec<(u32, i32)>>)
    requires
        can_double(lights(schedules@)),
    ensures
        lights(r@) == doubled_of(lights(schedules@)),
{
    let ghost before = lights(schedules@);
    let mut out: Vec<Vec<(u32, i32)>> = Vec::new();
    let mut i: usize = 0;
    while i < schedules.len()
        invariant
            i <= schedules@.len(),
            before == lights(schedules@),
            can_double(before),
            out@.len() == i,
            forall|j: int| 0 <= j < i ==> (#[trigger] out@[j])@ == doubled_of(before)[j],
        decreases schedules@.len() - i,
    {
        let schedule = &schedules[i];
        let mut twice: Vec<(u32, i32)> = Vec::new();
        let mut k: usize = 0;
        while k < schedule.len()
            invariant
                i < schedules@.len(),
                *schedule == schedules@[i as int],
                before == lights(schedules@),
                can_double(before),
                k <= schedule@.len(),
                twice@.len() == k,
                forall|m: int|
                    0 <= m < k ==> #[trigger] twice@[m] == (
                        schedule@[m].0,
                        (2 * schedule@[m].1) as i32,
                    ),
            decreases schedule@.len() - k,
        {
            let (street, seconds) = schedule[k];
            assert(half(before[i as int][k as int].1));
            twice.push((street, 2 * seconds));
            k = k + 1;
        }
        assert(twice@ =~= doubled_of(before)[i as int]);
        out.push(twice);
        i = i + 1;
    }
    assert(lights(out@) =~= doubled_of(before));
    out
}

/// The schedules of all intersections: see [`schedule_of`].
pub fn schedules(input: &Input) -> (r: Vec<Vec<(u32, i32)>>)
    requires
        input.wf(),
    ensures
        lights(r@) == plan(input),
        schedules_ok(input, r@),
{
    let mut out: Vec<Vec<(u32, i32)>> = Vec::new();
    let mut i: usize = 0;
    while i < input.n_intersections
        invariant
            input.wf(),
            i <= input.n_intersections,
            out@.len() == i,
            forall|j: int| 0 <= j < i ==> (#[trigger] out@[j])@ == schedule_of(input, j),
            forall|j: int| 0 <= j < i ==> (#[trigger] out@[j])@.len() <= input.streets@.len(),
            forall|j: int, k: int|
                0 <= j < i && 0 <= k < out@[j]@.len() ==> (#[trigger] out@[j]@[k]).0
                    < input.streets@.len() && out@[j]@[k].1 >= 1,
        decreases input.n_intersections - i,
    {
        let incoming = &input.intersection_to_incoming_streets[i];
        proof {
            lemma_incoming_in_range(input.ends(), i as int, input.streets@.len() as int);
            lemma_popular(input, incoming@);
            assert(incoming@.take(0) =~= Seq::<u32>::empty());
        }
        let mut streets: Vec<u32> = Vec::new();
        let mut min: i32 = 0;
        let mut j: usize = 0;
        while j < incoming.len()
            invariant
                input.wf(),
                j <= incoming@.len(),
                forall|k: int| 0 <= k < incoming@.len() ==> (#[trigger] incoming@[k])
                    < input.streets@.len(),
                streets@ == popular(input, incoming@.take(j as int)),
                streets@.len() <= j,
                forall|k: int|
                    0 <= k < streets@.len() ==> (#[trigger] streets@[k]) < input.streets@.len()
                        && input.street_popularity@[streets@[k] as int] > 0,
                streets@.len() > 0 ==> min == min_popularity(input, streets@),
            decreases incoming@.len() - j,
        {
            let street = incoming[j];
            let p = input.street_popularity[street as usize];
            proof {
                assert(incoming@.take(j + 1).drop_last() =~= incoming@.take(j as int));
            }
            if p > 0 {
                let ghost before = streets@;
                if streets.len() == 0 || p < min {
                    min = p;
                }
                streets.push(street);
                proof {
                    assert(streets@.drop_last() =~= before);
                }
            }
            j = j + 1;
        }
        proof {
            assert(incoming@.take(incoming@.len() as int) =~= incoming@);
            assert(incoming@.len() <= input.streets@.len());
            if streets@.len() > 0 {
                lemma_min_popularity(input, streets@);
            }
        }
        let mut schedule: Vec<(u32, i32)> = Vec::new();
        let mut k: usize = 0;
        while k < streets.len()
            invariant
                input.wf(),
                k <= streets@.len(),
                streets@.len() > 0 ==> min == min_popularity(input, streets@) && min > 0,
                forall|m: int|
                    0 <= m < streets@.len() ==> (#[trigger] streets@[m]) < input.streets@.len()
                        && input.street_popularity@[streets@[m] as int] >= min,
                schedule@.len() == k,
                forall|m: int|
                    0 <= m < k ==> #[trigger] schedule@[m] == (
                        streets@[m],
                        (input.street_popularity@[streets@[m] as int] as int / min as int) as i32,
                    ) && schedule@[m].1 >= 1,
            decreases streets@.len() - k,
        {
            let street = streets[k];
            let p = input.street_popularity[street as usize];
            let share: i32 = p / min;
            assert(1 <= share <= p) by (nonlinear_arith)
                requires
                    share == p as int / min as int,
                    0 < min <= p,
            ;
            schedule.push((street, share));
            k = k + 1;
        }
        assert(schedule@ =~= schedule_of(input, i as int));
        out.push(schedule);
        i = i + 1;
    }
    assert(lights(out@) =~= plan(input));
    out
}

} // verus!
