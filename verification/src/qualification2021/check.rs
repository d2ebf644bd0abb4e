//! Scoring schedules that were written down.

use vstd::prelude::*;
use crate::helpers::red::{lemma_repeat_stops, repeat, value_at, Red};
use crate::qualification2021::model::Input;
use crate::qualification2021::schedule::{lights, schedules_ok};
use crate::qualification2021::simulate::{run, simulate};

verus! {

/// Why schedules have no score.
#[derive(Clone, Copy, Debug, PartialEq, Eq, Structural)]
pub enum CheckError {
    /// A number is missing or is not a number.
    Malformed,
    /// A schedule names a street that does not exist, names more streets
    /// than there are, or gives a street no second.
    BadSchedule,
}

/// One green time: the number of a street and the seconds it is green.
pub open spec fn light_at(s: Seq<u8>, pos: int) -> Option<((u32, i32), int)> {
    match value_at::<u32>(s, pos) {
        Some((street, p1)) => match value_at::<i32>(s, p1) {
            Some((seconds, p2)) => Some(((street, seconds), p2)),
            None => None,
        },
        None => None,
    }
}

/// The schedule of one intersection: the number of its green times, then
/// the green times in their order.
pub open spec fn schedule_at(s: Seq<u8>, pos: int) -> Option<(Seq<(u32, i32)>, int)> {
    match value_at::<usize>(s, pos) {
        Some((n, p1)) => repeat(s, p1, n as nat, |s: Seq<u8>, p: int| light_at(s, p)),
        None => None,
    }
}

/// The schedules that the text `s` writes down for `n` intersections: the
/// schedule of each intersection in turn. What follows the last schedule
/// is not read.
pub open spec fn plan_of(s: Seq<u8>, n: nat) -> Option<Seq<Seq<(u32, i32)>>> {
    match repeat(s, 0, n, |s: Seq<u8>, p: int| schedule_at(s, p)) {
        Some((plan, p)) => Some(plan),
        None => None,
    }
}

/// There is one schedule for each intersection, which names streets that
/// exist, none more often than there are streets, and gives each at least
/// one second.
pub open spec fn plan_ok(input: &Input, plan: Seq<Seq<(u32, i32)>>) -> bool {
    &&& plan.len() == input.n_intersections
    &&& forall|i: int| 0 <= i < plan.len() ==> (#[trigger] plan[i]).len() <= input.streets@.len()
    &&& forall|i: int, k: int|
        0 <= i < plan.len() && 0 <= k < plan[i].len() ==> (#[trigger] plan[i][k]).0
            < input.streets@.len() && plan[i][k].1 >= 1
}

/// The points that the schedules written down in `s` are given: those
/// that the cars collect when the lights follow them for the whole
/// duration.
pub open spec fn score_of(input: &Input, s: Seq<u8>) -> Result<int, CheckError> {
    match plan_of(s, input.n_intersections as nat) {
        None => Err(CheckError::Malformed),
        Some(plan) => if !plan_ok(input, plan) {
            Err(CheckError::BadSchedule)
        } else {
            Ok(
                run(input, plan, if input.duration > 0 {
                    input.duration as int
                } else {
                    0
                }).score,
            )
        },
    }
}

/// Reads one green time.
fn read_light(red: &mut Red) -> (r: Option<(u32, i32)>)
    ensures
        final(red).bytes() == old(red).bytes(),
        match r {
            Some(light) => light_at(old(red).bytes(), old(red).pos()) == Some(
                (light, final(red).pos()),
            ),
            None => light_at(old(red).bytes(), old(red).pos()) is None,
        },
{
    let street = match red.value::<u32>() {
        Some(v) => v,
        None => {
            return None;
        },
    };
    let seconds = match red.value::<i32>() {
        Some(v) => v,
        None => {
            return None;
        },
    };
    Some((street, seconds))
}

/// Reads the schedule of one intersection.
fn read_schedule(red: &mut Red) -> (r: Option<Vec<(u32, i32)>>)
    ensures
        final(red).bytes() == old(red).bytes(),
        match r {
            Some(schedule) => schedule_at(old(red).bytes(), old(red).pos()) == Some(
                (schedule@, final(red).pos()),
            ),
            None => schedule_at(old(red).bytes(), old(red).pos()) is None,
        },
{
    let ghost s = red.bytes();
    let n = match red.value::<usize>() {
        Some(v) => v,
        None => {
            return None;
        },
    };
    let ghost p1 = red.pos();
    let ghost one = |s: Seq<u8>, p: int| light_at(s, p);
    let mut schedule: Vec<(u32, i32)> = Vec::new();
    let mut k: usize = 0;
    while k < n
        invariant
            k <= n,
            red.bytes() == s,
            s == old(red).bytes(),
            one == |s: Seq<u8>, p: int| light_at(s, p),
            repeat(s, p1, k as nat, one) == Some((schedule@, red.pos())),
            schedule_at(s, old(red).pos()) == repeat(s, p1, n as nat, one),
        decreases n - k,
    {
        match read_light(red) {
            Some(light) => {
                schedule.push(light);
            },
            None => {
                proof {
                    lemma_repeat_stops(s, p1, (k + 1) as nat, n as nat, one);
                }
                return None;
            },
        }
        k = k + 1;
    }
    Some(schedule)
}

/// Reads the schedules of `n` intersections from their text: see
/// [`plan_of`].
pub fn try_read_schedules(n: usize, bytes: Vec<u8>) -> (r: Option<Vec<Vec<(u32, i32)>>>)
    ensures
        match r {
            Some(schedules) => plan_of(bytes@, n as nat) == Some(lights(schedules@)),
            None => plan_of(bytes@, n as nat) is None,
        },
{
    let ghost s = bytes@;
    let mut red = Red::new(bytes);
    let ghost one = |s: Seq<u8>, p: int| schedule_at(s, p);
    let mut schedules: Vec<Vec<(u32, i32)>> = Vec::new();
    let mut i: usize = 0;
    assert(lights(schedules@) =~= Seq::<Seq<(u32, i32)>>::empty());
    while i < n
        invariant
            i <= n,
            red.bytes() == s,
            s == bytes@,
            one == |s: Seq<u8>, p: int| schedule_at(s, p),
            repeat(s, 0, i as nat, one) == Some((lights(schedules@), red.pos())),
        decreases n - i,
    {
        let ghost before = lights(schedules@);
        match read_schedule(&mut red) {
            Some(schedule) => {
                let ghost view = schedule@;
                schedules.push(schedule);
                assert(lights(schedules@) =~= before.push(view));
            },
            None => {
                proof {
                    lemma_repeat_stops(s, 0, (i + 1) as nat, n as nat, one);
                }
                return None;
            },
        }
        i = i + 1;
    }
    Some(schedules)
}

/// Reads the schedules of `n` intersections from a text that writes them
/// down: see [`plan_of`].
pub fn read_schedules(n: usize, bytes: Vec<u8>) -> (schedules: Vec<Vec<(u32, i32)>>)
    requires
        plan_of(bytes@, n as nat) is Some,
    ensures
        plan_of(bytes@, n as nat) == Some(lights(schedules@)),
{
    match try_read_schedules(n, bytes) {
        Some(schedules) => schedules,
        None => vstd::pervasive::unreached(),
    }
}

/// Whether the schedules can be followed: see [`plan_ok`].
pub fn schedules_valid(input: &Input, schedules: &Vec<Vec<(u32, i32)>>) -> (r: bool)
    ensures
        r == plan_ok(input, lights(schedules@)),
        r ==> schedules_ok(input, schedules@),
{
    let ghost plan = lights(schedules@);
    if schedules.len() != input.n_intersections {
        return false;
    }
    let n_streets = input.streets.len();
    let mut i: usize = 0;
    while i < schedules.len()
        invariant
            i <= schedules@.len(),
            schedules@.len() == input.n_intersections,
            plan == lights(schedules@),
            n_streets == input.streets@.len(),
            forall|j: int| 0 <= j < i ==> (#[trigger] schedules@[j])@.len() <= n_streets,
            forall|j: int, k: int|
                0 <= j < i && 0 <= k < schedules@[j]@.len() ==> (#[trigger] schedules@[j]@[k]).0
                    < n_streets && schedules@[j]@[k].1 >= 1,
        decreases schedules@.len() - i,
    {
        let schedule = &schedules[i];
        assert(plan[i as int] == schedule@);
        if schedule.len() > n_streets {
            return false;
        }
        let mut k: usize = 0;
        while k < schedule.len()
            invariant
                i < schedules@.len(),
                *schedule == schedules@[i as int],
                plan == lights(schedules@),
                plan.len() == input.n_intersections,
                n_streets == input.streets@.len(),
                k <= schedule@.len(),
                forall|m: int|
                    0 <= m < k ==> (#[trigger] schedule@[m]).0 < n_streets && schedule@[m].1 >= 1,
            decreases schedule@.len() - k,
        {
            if schedule[k].0 as usize >= n_streets || schedule[k].1 < 1 {
                assert(plan[i as int][k as int] == schedule@[k as int]);
                return false;
            }
            k = k + 1;
        }
        i = i + 1;
    }
    assert forall|i: int, k: int| 0 <= i < plan.len() && 0 <= k < plan[i].len() implies (
    #[trigger] plan[i][k]).0 < input.streets@.len() && plan[i][k].1 >= 1 by {
        assert(schedules@[i]@[k].0 < n_streets);
    }
    assert forall|i: int| 0 <= i < plan.len() implies (#[trigger] plan[i]).len()
        <= input.streets@.len() by {
        assert(schedules@[i]@.len() <= n_streets);
    }
    true
}

/// Scores the schedules that `solution` writes down for the city: see
/// [`score_of`]. They are refused where the text is cut short or names a
/// street that does not exist or gives one no second.
pub fn try_check(input: &Input, solution: Vec<u8>) -> (r: Result<i128, CheckError>)
    requires
        input.wf_city(),
    ensures
        match r {
            Ok(score) => score_of(input, solution@) == Ok::<int, CheckError>(score as int),
            Err(e) => score_of(input, solution@) == Err::<int, CheckError>(e),
        },
{
    let schedules = match try_read_schedules(input.n_intersections, solution) {
        Some(schedules) => schedules,
        None => {
            return Err(CheckError::Malformed);
        },
    };
    if !schedules_valid(input, &schedules) {
        return Err(CheckError::BadSchedule);
    }
    Ok(simulate(input, &schedules))
}

/// Scores schedules that can be scored: see [`score_of`].
pub fn check(input: &Input, solution: Vec<u8>) -> (score: i128)
    requires
        input.wf_city(),
        score_of(input, solution@) is Ok,
    ensures
        score_of(input, solution@) == Ok::<int, CheckError>(score as int),
{
    match try_check(input, solution) {
        Ok(score) => score,
        Err(_) => vstd::pervasive::unreached(),
    }
}

} // verus!
