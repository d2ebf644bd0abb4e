//! A simulation that jumps from event to event instead of going second by
//! second. It serves the street with the earliest event: if its light is
//! green it lets its cars pass, if not it waits for the light.

use std::collections::VecDeque;
use vstd::prelude::*;
use crate::qualification2021::model::Input;
use crate::qualification2021::schedule::{lights, schedules_ok};
use crate::qualification2021::simulate::{cycle_upto, initial, lemma_cycle, SimState, Simulation};

verus! {

/// How a run of the simulation ended.
#[derive(Clone, Copy, Debug, PartialEq, Eq, Structural)]
pub enum Outcome {
    /// More events can be served.
    Running,
    /// The time is over, or there are no streets.
    Finished,
    /// The street with the earliest event never turns green, a cycle of
    /// lights is too long to be timed, or the time has fallen behind the
    /// start because a street has a negative length.
    Stuck,
    /// The steps that were granted are used up.
    OutOfSteps,
}

/// The state of the simulation between two events, as a mathematical
/// value.
pub struct DraftView {
    pub sim: SimState,
    /// For each street, the time of its next event.
    pub next_event: Seq<i64>,
    /// The time of the event that was served last.
    pub t: i64,
}

/// The state of the simulation between two events.
pub struct Draft {
    pub sim: Simulation,
    pub next_event: Vec<i64>,
    pub t: i64,
}

impl View for Draft {
    type V = DraftView;

    open spec fn view(&self) -> DraftView {
        DraftView { sim: self.sim@, next_event: self.next_event@, t: self.t }
    }
}

/// The first entry of the schedule from `k` on that is for `street`, or
/// the length of the schedule.
pub open spec fn entry_of(schedule: Seq<(u32, i32)>, street: int, k: int) -> int
    decreases schedule.len() - k,
{
    if k < 0 || k >= schedule.len() || schedule[k].0 == street {
        k
    } else {
        entry_of(schedule, street, k + 1)
    }
}

/// When the light of `street` is green next, seen from time `curr_t`: the
/// first second and the second after the last. The green time of the
/// cycle that `curr_t` is in is taken, even where it is over, and no
/// second of it is left then; only in the first cycle the next green time
/// is taken instead. `None` where the schedule has no entry for the
/// street, or its cycle is longer than a time can be.
pub open spec fn window(schedule: Seq<(u32, i32)>, curr_t: int, street: int) -> Option<(int, int)> {
    let cycle = cycle_upto(schedule, schedule.len() as int);
    let k = entry_of(schedule, street, 0);
    if k >= schedule.len() || cycle > i32::MAX {
        None
    } else {
        let t = curr_t % cycle;
        let begin = curr_t - t + cycle_upto(schedule, k);
        let end = begin + schedule[k].1;
        let (begin, end) = if end <= t {
            (begin + cycle, end + cycle)
        } else {
            (begin, end)
        };
        Some((if begin >= curr_t {
            begin
        } else {
            curr_t
        }, end))
    }
}

/// The street with the earliest event among the first `k`, and the first
/// of them where several have it.
pub open spec fn earliest(next_event: Seq<i64>, k: int) -> int
    decreases k,
{
    if k <= 1 {
        0
    } else {
        let before = earliest(next_event, k - 1);
        if next_event[k - 1] < next_event[before] {
            k - 1
        } else {
            before
        }
    }
}

/// The state after the street `road` was served during the seconds from
/// `tt` to `end`: in each second the car at its light, if it has reached
/// it, drives on, taking for the next street as long as for this one, or
/// finishes and is given the bonus and a point for each second left, if
/// the time is not over. Serving ends when no car is left on the street.
pub open spec fn drain(input: &Input, st: SimState, road: int, tt: int, end: int) -> SimState
    decreases end - tt,
{
    if tt >= end || st.queues[road].len() == 0 {
        st
    } else {
        let q = st.queues[road];
        let car = q[0].1 as int;
        let k = st.done[car] as int;
        let trip = input.cars@[car].trip@;
        if q[0].0 <= tt && k < trip.len() && trip[k] == road {
            let queues = st.queues.update(road, q.drop_first());
            let done = st.done.update(car, (k + 1) as usize);
            let arrival = tt + input.streets@[road].len;
            if k + 1 < trip.len() {
                let next = trip[k + 1] as int;
                drain(
                    input,
                    SimState {
                        queues: queues.update(next, queues[next].push((arrival as i64, car as u32))),
                        done,
                        score: st.score,
                    },
                    road,
                    tt + 1,
                    end,
                )
            } else {
                drain(
                    input,
                    SimState {
                        queues,
                        done,
                        score: if arrival <= input.duration {
                            st.score + input.duration - arrival + input.bonus
                        } else {
                            st.score
                        },
                    },
                    road,
                    tt + 1,
                    end,
                )
            }
        } else {
            drain(input, st, road, tt + 1, end)
        }
    }
}

/// The time of the next event of a street: when the car at its light
/// reaches it, or the end of time without a car.
pub open spec fn event_of(queue: Seq<(i64, u32)>) -> i64 {
    if queue.len() > 0 {
        queue[0].0
    } else {
        i32::MAX as i64
    }
}

/// The state after the next event was served, and whether more can be:
/// see the head of this file.
pub open spec fn served(input: &Input, schedules: Seq<Seq<(u32, i32)>>, d: DraftView) -> (
    DraftView,
    Outcome,
) {
    if d.next_event.len() == 0 || d.t > input.duration {
        (d, Outcome::Finished)
    } else if d.t < 0 {
        (d, Outcome::Stuck)
    } else {
        let road = earliest(d.next_event, d.next_event.len() as int);
        match window(schedules[input.streets@[road].to as int], d.t as int, road) {
            None => (d, Outcome::Stuck),
            Some((begin, end)) => if d.t != begin {
                (
                    DraftView { next_event: d.next_event.update(road, begin as i64), ..d },
                    Outcome::Running,
                )
            } else {
                let sim = drain(input, d.sim, road, begin, end);
                (
                    DraftView {
                        sim,
                        next_event: d.next_event.update(road, event_of(sim.queues[road])),
                        t: d.next_event[road],
                    },
                    Outcome::Running,
                )
            },
        }
    }
}

/// The state after at most `steps` events were served.
pub open spec fn ran(input: &Input, schedules: Seq<Seq<(u32, i32)>>, d: DraftView, steps: nat) -> (
    DraftView,
    Outcome,
)
    decreases steps,
{
    if steps == 0 {
        (d, Outcome::OutOfSteps)
    } else {
        let (next, outcome) = served(input, schedules, d);
        if outcome == Outcome::Running {
            ran(input, schedules, next, (steps - 1) as nat)
        } else {
            (next, outcome)
        }
    }
}

/// The state before the first event: the cars are at the end of their
/// first street, and every street has an event at time 0.
pub open spec fn initial_draft(input: &Input) -> DraftView {
    DraftView {
        sim: initial(input),
        next_event: Seq::new(input.streets@.len(), |s: int| 0i64),
        t: 0,
    }
}

/// When the light of `street` is green next, seen from time `curr_t`: see
/// [`window`].
pub fn next_green_for_street(schedule: &Vec<(u32, i32)>, curr_t: i64, street: u32) -> (r: Option<
    (i64, i64),
>)
    requires
        0 <= curr_t <= i32::MAX,
        forall|j: int| 0 <= j < schedule@.len() ==> (#[trigger] schedule@[j]).1 >= 1,
    ensures
        match r {
            Some((begin, end)) => window(schedule@, curr_t as int, street as int) == Some(
                (begin as int, end as int),
            ) && curr_t <= begin <= 3 * 0x8000_0000 && 0 <= end <= 3 * 0x8000_0000 && end
                - begin <= i32::MAX,
            None => window(schedule@, curr_t as int, street as int) is None,
        },
{
    let n = schedule.len();
    let mut cycle: i64 = 0;
    let mut before: i64 = 0;
    let mut found: Option<usize> = None;
    let mut k: usize = 0;
    while k < n
        invariant
            k <= n == schedule@.len(),
            forall|j: int| 0 <= j < schedule@.len() ==> (#[trigger] schedule@[j]).1 >= 1,
            cycle == cycle_upto(schedule@, k as int),
            0 <= cycle <= i32::MAX,
            0 <= before <= cycle,
            entry_of(schedule@, street as int, 0) == match found {
                Some(i) => i as int,
                None => entry_of(schedule@, street as int, k as int),
            },
            match found {
                Some(i) => i < k && schedule@[i as int].0 == street && before == cycle_upto(
                    schedule@,
                    i as int,
                ) && before + schedule@[i as int].1 <= cycle,
                None => true,
            },
        decreases n - k,
    {
        if found.is_none() && schedule[k].0 == street {
            found = Some(k);
            before = cycle;
        }
        cycle = cycle + schedule[k].1 as i64;
        if cycle > i32::MAX as i64 {
            proof {
                lemma_cycle_grows(schedule@, k + 1, n as int);
            }
            return None;
        }
        k = k + 1;
    }
    let i = match found {
        Some(i) => i,
        None => {
            return None;
        },
    };
    proof {
        lemma_cycle(schedule@, n as int);
        assert(schedule@[i as int].1 >= 1);
    }
    let t = curr_t % cycle;
    let mut begin = curr_t - t + before;
    let mut end = begin + schedule[i].1 as i64;
    if end <= t {
        begin = begin + cycle;
        end = end + cycle;
    }
    if begin < curr_t {
        begin = curr_t;
    }
    Some((begin, end))
}

/// A cycle is no shorter than its beginning.
pub proof fn lemma_cycle_grows(schedule: Seq<(u32, i32)>, k: int, n: int)
    requires
        0 <= k <= n <= schedule.len(),
        forall|j: int| 0 <= j < schedule.len() ==> (#[trigger] schedule[j]).1 >= 1,
    ensures
        cycle_upto(schedule, k) <= cycle_upto(schedule, n),
    decreases n - k,
{
    if k < n {
        lemma_cycle_grows(schedule, k, n - 1);
    }
}

/// The street with the earliest event.
fn earliest_street(next_event: &Vec<i64>) -> (r: usize)
    requires
        next_event@.len() > 0,
    ensures
        r == earliest(next_event@, next_event@.len() as int),
        r < next_event@.len(),
{
    let mut best: usize = 0;
    let mut k: usize = 1;
    while k < next_event.len()
        invariant
            1 <= k <= next_event@.len(),
            best < k,
            best == earliest(next_event@, k as int),
        decreases next_event@.len() - k,
    {
        if next_event[k] < next_event[best] {
            best = k;
        }
        k = k + 1;
    }
    best
}

impl Draft {
    /// The state fits `input`, and there is room for more points.
    pub open spec fn wf(&self, input: &Input) -> bool {
        &&& self.sim.shape_ok(input)
        &&& self.next_event@.len() == input.streets@.len()
        &&& -0x10_0000_0000_0000_0000_0000_0000 <= self.sim.score
            <= 0x10_0000_0000_0000_0000_0000_0000
    }

    /// The state before the first event: the cars are at the end of their
    /// first street, and every street has an event at time 0.
    pub fn new(input: &Input) -> (r: Draft)
        requires
            input.wf_city(),
        ensures
            r@ == initial_draft(input),
            r.wf(input),
    {
        let sim = Simulation::new(input);
        let mut next_event: Vec<i64> = Vec::new();
        let mut s: usize = 0;
        while s < input.streets.len()
            invariant
                s <= input.streets@.len(),
                next_event@.len() == s,
                forall|j: int| 0 <= j < s ==> #[trigger] next_event@[j] == 0,
            decreases input.streets@.len() - s,
        {
            next_event.push(0);
            s = s + 1;
        }
        assert(next_event@ =~= Seq::new(input.streets@.len(), |s: int| 0i64));
        Draft { sim, next_event, t: 0 }
    }
}

/// Lets the cars of `road` pass during the seconds from `begin` to `end`:
/// see [`drain`].
fn let_pass(sim: &mut Simulation, input: &Input, road: usize, begin: i64, end: i64)
    requires
        input.wf_city(),
        old(sim).shape_ok(input),
        road < input.streets@.len(),
        0 <= begin <= end <= 3 * 0x8000_0000,
        end - begin <= i32::MAX,
        -0x10_0000_0000_0000_0000_0000_0000 <= old(sim).score
            <= 0x10_0000_0000_0000_0000_0000_0000,
    ensures
        final(sim).shape_ok(input),
        final(sim)@ == drain(input, old(sim)@, road as int, begin as int, end as int),
        old(sim).score - (end - begin) * 0x2_0000_0000 <= final(sim).score <= old(sim).score + (end
            - begin) * 0x2_0000_0000,
{
    let ghost first = sim@;
    let mut tt = begin;
    while tt < end
        invariant
            input.wf_city(),
            sim.shape_ok(input),
            road < input.streets@.len(),
            0 <= begin <= tt <= end <= 3 * 0x8000_0000,
            end - begin <= i32::MAX,
            -0x10_0000_0000_0000_0000_0000_0000 <= old(sim).score
            <= 0x10_0000_0000_0000_0000_0000_0000,
            drain(input, first, road as int, begin as int, end as int) == drain(
                input,
                sim@,
                road as int,
                tt as int,
                end as int,
            ),
            old(sim).score - (tt - begin) * 0x2_0000_0000 <= sim.score <= old(sim).score + (tt
                - begin) * 0x2_0000_0000,
        decreases end - tt,
    {
        let ghost st = sim@;
        let ghost queues0 = sim.queues@;
        assert(st.queues[road as int] == sim.queues@[road as int]@);
        if sim.queues[road].len() == 0 {
            assert(drain(input, st, road as int, tt as int, end as int) == st);
            assert(drain(input, st, road as int, end as int, end as int) == st);
            tt = end;
        } else {
            let (time, car) = sim.queues[road][0];
            let k = sim.done[car as usize];
            let trip = &input.cars[car as usize].trip;
            if time <= tt && k < trip.len() && trip[k] as usize == road {
                sim.queues[road].pop_front();
                let ghost queues1 = sim.queues@;
                sim.done.set(car as usize, k + 1);
                let arrival: i64 = tt + input.streets[road].len as i64;
                let ghost spec_queues1 = st.queues.update(
                    road as int,
                    st.queues[road as int].drop_first(),
                );
                if k + 1 < trip.len() {
                    let next = trip[k + 1] as usize;
                    sim.queues[next].push_back((arrival, car));
                    proof {
                        assert(queues1.map_values(|q: VecDeque<(i64, u32)>| q@) =~= spec_queues1);
                        assert(sim.queues@.map_values(|q: VecDeque<(i64, u32)>| q@)
                            =~= spec_queues1.update(
                            next as int,
                            spec_queues1[next as int].push((arrival, car)),
                        ));
                        assert forall|s: int, j: int|
                            0 <= s < sim.queues@.len() && 0 <= j < sim.queues@[s]@.len() implies (
                        #[trigger] sim.queues@[s]@[j]).1 < input.cars@.len() by {
                            if s == next {
                                if j < queues1[s]@.len() {
                                    assert(sim.queues@[s]@[j] == queues1[s]@[j]);
                                    if s == road {
                                        assert(queues1[s]@[j] == queues0[s]@[j + 1]);
                                    } else {
                                        assert(queues1[s] == queues0[s]);
                                    }
                                }
                            } else if s == road {
                                assert(sim.queues@[s] == queues1[s]);
                                assert(queues1[s]@[j] == queues0[s]@[j + 1]);
                            } else {
                                assert(sim.queues@[s] == queues0[s]);
                            }
                        }
                    }
                } else {
                    if arrival <= input.duration as i64 {
                        sim.score = sim.score + (input.duration as i128 - arrival as i128
                            + input.bonus as i128);
                    }
                    proof {
                        assert(sim.queues@.map_values(|q: VecDeque<(i64, u32)>| q@)
                            =~= spec_queues1);
                        assert forall|s: int, j: int|
                            0 <= s < sim.queues@.len() && 0 <= j < sim.queues@[s]@.len() implies (
                        #[trigger] sim.queues@[s]@[j]).1 < input.cars@.len() by {
                            if s == road {
                                assert(queues1[s]@[j] == queues0[s]@[j + 1]);
                            } else {
                                assert(sim.queues@[s] == queues0[s]);
                            }
                        }
                    }
                }
            }
            tt = tt + 1;
        }
    }
}

impl Draft {
    /// Serves the next event: see [`served`].
    pub fn step(&mut self, input: &Input, schedules: &Vec<Vec<(u32, i32)>>) -> (r: Outcome)
        requires
            input.wf_city(),
            schedules_ok(input, schedules@),
            old(self).wf(input),
        ensures
            (final(self)@, r) == served(input, lights(schedules@), old(self)@),
            final(self).sim.shape_ok(input),
            final(self).next_event@.len() == input.streets@.len(),
            old(self).sim.score - 0x1_0000_0000_0000_0000 <= final(self).sim.score <= old(
                self,
            ).sim.score + 0x1_0000_0000_0000_0000,
    {
        if self.next_event.len() == 0 || self.t > input.duration as i64 {
            return Outcome::Finished;
        }
        if self.t < 0 {
            return Outcome::Stuck;
        }
        let road = earliest_street(&self.next_event);
        let schedule = &schedules[input.streets[road].to as usize];
        let (begin, end) = match next_green_for_street(schedule, self.t, road as u32) {
            Some(w) => w,
            None => {
                return Outcome::Stuck;
            },
        };
        if self.t != begin {
            self.next_event.set(road, begin);
            return Outcome::Running;
        }
        if begin < end {
            let_pass(&mut self.sim, input, road, begin, end);
            proof {
                assert((end - begin) * 0x2_0000_0000 <= 0x8000_0000 * 0x2_0000_0000)
                    by (nonlinear_arith)
                    requires
                        0 <= end - begin <= 0x8000_0000,
                ;
            }
        }
        self.t = self.next_event[road];
        let event = if self.sim.queues[road].len() > 0 {
            self.sim.queues[road][0].0
        } else {
            i32::MAX as i64
        };
        assert(self.sim@.queues[road as int] == self.sim.queues@[road as int]@);
        self.next_event.set(road, event);
        Outcome::Running
    }
}

/// Serves at most `max_steps` events under the given schedules. Returns
/// the points given and how the run ended.
pub fn draft_solve(input: &Input, schedules: &Vec<Vec<(u32, i32)>>, max_steps: u32) -> (r: (
    i128,
    Outcome,
))
    requires
        input.wf_city(),
        schedules_ok(input, schedules@),
    ensures
        r.0 == ran(input, lights(schedules@), initial_draft(input), max_steps as nat).0.sim.score,
        r.1 == ran(input, lights(schedules@), initial_draft(input), max_steps as nat).1,
        r.1 != Outcome::Running,
{
    let mut draft = Draft::new(input);
    let mut left = max_steps;
    while left > 0
        invariant
            input.wf_city(),
            schedules_ok(input, schedules@),
            draft.sim.shape_ok(input),
            draft.next_event@.len() == input.streets@.len(),
            -((max_steps - left) * 0x1_0000_0000_0000_0000) <= draft.sim.score <= (max_steps
                - left) * 0x1_0000_0000_0000_0000,
            left <= max_steps,
            ran(input, lights(schedules@), initial_draft(input), max_steps as nat) == ran(
                input,
                lights(schedules@),
                draft@,
                left as nat,
            ),
        decreases left,
    {
        let outcome = draft.step(input, schedules);
        match outcome {
            Outcome::Running => {},
            Outcome::Finished => {
                return (draft.sim.score, Outcome::Finished);
            },
            Outcome::Stuck => {
                return (draft.sim.score, Outcome::Stuck);
            },
            Outcome::OutOfSteps => {
                return (draft.sim.score, Outcome::OutOfSteps);
            },
        }
        left = left - 1;
    }
    (draft.sim.score, Outcome::OutOfSteps)
}

} // verus!
