//! Driving the cars through the city under a light schedule.

use std::collections::VecDeque;
use vstd::prelude::*;
use crate::qualification2021::model::{Input, MAX_ID};
use crate::qualification2021::schedule::{lights, plan, schedules, schedules_ok};

verus! {

/// The state of the city between two steps, as a mathematical value.
pub struct SimState {
    /// For each street, the cars on it in the order in which they came,
    /// each with the time at which it reaches the light.
    pub queues: Seq<Seq<(i64, u32)>>,
    /// For each car, how many streets of its trip it has left behind.
    pub done: Seq<usize>,
    /// The points given so far.
    pub score: int,
}

/// The state of the city between two steps.
pub struct Simulation {
    pub queues: Vec<VecDeque<(i64, u32)>>,
    pub done: Vec<usize>,
    pub score: i128,
}

impl View for Simulation {
    type V = SimState;

    open spec fn view(&self) -> SimState {
        SimState {
            queues: self.queues@.map_values(|q: VecDeque<(i64, u32)>| q@),
            done: self.done@,
            score: self.score as int,
        }
    }
}

/// The green times of the first `k` entries of a schedule together.
pub open spec fn cycle_upto(schedule: Seq<(u32, i32)>, k: int) -> int
    decreases k,
{
    if k <= 0 {
        0
    } else {
        cycle_upto(schedule, k - 1) + schedule[k - 1].1
    }
}

/// The first entry from `k` on during whose green time second `tt` of the
/// cycle falls.
pub open spec fn green_index(schedule: Seq<(u32, i32)>, tt: int, k: int) -> int
    decreases schedule.len() - k,
{
    if k < 0 || k >= schedule.len() || tt < cycle_upto(schedule, k + 1) {
        k
    } else {
        green_index(schedule, tt, k + 1)
    }
}

/// The street that is green at time `t` under a schedule that repeats
/// from time 0 on.
pub open spec fn green_street(schedule: Seq<(u32, i32)>, t: int) -> u32 {
    schedule[green_index(schedule, t % cycle_upto(schedule, schedule.len() as int), 0)].0
}

/// The queues after the first `k` cars were put at the end of the first
/// street of their trip, ready to go.
pub open spec fn initial_queues(input: &Input, k: int) -> Seq<Seq<(i64, u32)>>
    decreases k,
{
    if k <= 0 {
        Seq::new(input.streets@.len(), |s: int| Seq::empty())
    } else {
        let before = initial_queues(input, k - 1);
        let first = input.cars@[k - 1].trip@[0] as int;
        before.update(first, before[first].push((0i64, input.cars@[k - 1].id)))
    }
}

/// The state at time 0.
pub open spec fn initial(input: &Input) -> SimState {
    SimState {
        queues: initial_queues(input, input.cars@.len() as int),
        done: Seq::new(input.cars@.len(), |c: int| 0usize),
        score: 0,
    }
}

/// The state after the light of `intersection` was served at time `t`: if
/// the first car on the green street has reached the light, it drives on
/// to the next street of its trip, or finishes and is given the bonus and
/// one point for each second that is left.
pub open spec fn step(
    input: &Input,
    schedules: Seq<Seq<(u32, i32)>>,
    st: SimState,
    t: int,
    i: int,
) -> SimState {
    let schedule = schedules[i];
    if schedule.len() == 0 {
        st
    } else {
        let g = green_street(schedule, t) as int;
        let q = st.queues[g];
        if q.len() > 0 && q[0].0 <= t {
            let car = q[0].1 as int;
            let k = st.done[car] as int;
            let trip = input.cars@[car].trip@;
            if k < trip.len() && trip[k] == g {
                let queues = st.queues.update(g, q.drop_first());
                let done = st.done.update(car, (k + 1) as usize);
                if k + 1 < trip.len() {
                    let next = trip[k + 1] as int;
                    SimState {
                        queues: queues.update(
                            next,
                            queues[next].push(((t + input.streets@[next].len) as i64, car as u32)),
                        ),
                        done,
                        score: st.score,
                    }
                } else {
                    SimState { queues, done, score: st.score + input.duration - t + input.bonus }
                }
            } else {
                st
            }
        } else {
            st
        }
    }
}

/// The state after the lights of the first `k` intersections were served
/// at time `t`, in order.
pub open spec fn sweep(
    input: &Input,
    schedules: Seq<Seq<(u32, i32)>>,
    st: SimState,
    t: int,
    k: int,
) -> SimState
    decreases k,
{
    if k <= 0 {
        st
    } else {
        step(input, schedules, sweep(input, schedules, st, t, k - 1), t, k - 1)
    }
}

/// The state after `t` seconds.
pub open spec fn run(input: &Input, schedules: Seq<Seq<(u32, i32)>>, t: int) -> SimState
    decreases t,
{
    if t <= 0 {
        initial(input)
    } else {
        sweep(
            input,
            schedules,
            run(input, schedules, t - 1),
            t - 1,
            input.n_intersections as int,
        )
    }
}

/// The green times of a schedule add up to at least one second each.
pub proof fn lemma_cycle(schedule: Seq<(u32, i32)>, k: int)
    requires
        0 <= k <= schedule.len(),
        forall|j: int| 0 <= j < schedule.len() ==> (#[trigger] schedule[j]).1 >= 1,
    ensures
        k <= cycle_upto(schedule, k) <= k * 0x7fff_ffff,
    decreases k,
{
    if k > 0 {
        lemma_cycle(schedule, k - 1);
    }
}

/// The street that is green at time `t`.
pub fn green(schedule: &Vec<(u32, i32)>, t: i32) -> (street: u32)
    requires
        0 <= t,
        0 < schedule@.len() <= MAX_ID,
        forall|j: int| 0 <= j < schedule@.len() ==> (#[trigger] schedule@[j]).1 >= 1,
    ensures
        street == green_street(schedule@, t as int),
        exists|j: int| 0 <= j < schedule@.len() && (#[trigger] schedule@[j]).0 == street,
{
    let n = schedule.len();
    let mut cycle: i128 = 0;
    let mut k: usize = 0;
    while k < n
        invariant
            k <= n == schedule@.len(),
            n <= MAX_ID,
            forall|j: int| 0 <= j < schedule@.len() ==> (#[trigger] schedule@[j]).1 >= 1,
            cycle == cycle_upto(schedule@, k as int),
            k <= cycle <= k * 0x7fff_ffff,
        decreases n - k,
    {
        cycle = cycle + schedule[k].1 as i128;
        k = k + 1;
    }
    let tt: i128 = (t as i128) % cycle;
    let mut sum: i128 = schedule[0].1 as i128;
    let mut k: usize = 0;
    proof {
        assert(cycle_upto(schedule@, 1) == cycle_upto(schedule@, 0) + schedule@[0].1);
    }
    while tt >= sum
        invariant
            k < n == schedule@.len(),
            n <= MAX_ID,
            forall|j: int| 0 <= j < schedule@.len() ==> (#[trigger] schedule@[j]).1 >= 1,
            0 <= tt < cycle == cycle_upto(schedule@, n as int),
            sum == cycle_upto(schedule@, k + 1),
            sum <= (k + 1) * 0x7fff_ffff,
            green_index(schedule@, tt as int, 0) == green_index(schedule@, tt as int, k as int),
        decreases n - k,
    {
        k = k + 1;
        sum = sum + schedule[k].1 as i128;
    }
    schedule[k].0
}

impl Simulation {
    /// The state fits `input`.
    pub open spec fn shape_ok(&self, input: &Input) -> bool {
        &&& self.queues@.len() == input.streets@.len()
        &&& self.done@.len() == input.cars@.len()
        &&& forall|s: int, j: int|
            0 <= s < self.queues@.len() && 0 <= j < self.queues@[s]@.len() ==> (
            #[trigger] self.queues@[s]@[j]).1 < input.cars@.len()
    }

    /// The state at time 0.
    pub fn new(input: &Input) -> (r: Simulation)
        requires
            input.wf_city(),
        ensures
            r.shape_ok(input),
            r@ == initial(input),
    {
        let mut queues: Vec<VecDeque<(i64, u32)>> = Vec::new();
        let mut s: usize = 0;
        while s < input.streets.len()
            invariant
                s <= input.streets@.len(),
                queues@.len() == s,
                forall|j: int| 0 <= j < s ==> (#[trigger] queues@[j])@ == Seq::<(i64, u32)>::empty(),
            decreases input.streets@.len() - s,
        {
            queues.push(VecDeque::new());
            s = s + 1;
        }
        assert(queues@.map_values(|q: VecDeque<(i64, u32)>| q@) =~= initial_queues(input, 0));
        let mut done: Vec<usize> = Vec::new();
        let mut c: usize = 0;
        while c < input.cars.len()
            invariant
                input.wf_city(),
                c <= input.cars@.len(),
                queues@.len() == input.streets@.len(),
                queues@.map_values(|q: VecDeque<(i64, u32)>| q@) == initial_queues(input, c as int),
                forall|s: int, j: int|
                    0 <= s < queues@.len() && 0 <= j < queues@[s]@.len() ==> (
                    #[trigger] queues@[s]@[j]).1 < input.cars@.len(),
                done@.len() == c,
                forall|j: int| 0 <= j < c ==> #[trigger] done@[j] == 0,
            decreases input.cars@.len() - c,
        {
            let car = &input.cars[c];
            let first = car.trip[0] as usize;
            let ghost before = queues@;
            queues[first].push_back((0, car.id));
            done.push(0);
            proof {
                assert(queues@.map_values(|q: VecDeque<(i64, u32)>| q@) =~= initial_queues(
                    input,
                    c + 1,
                ));
                assert forall|s: int, j: int|
                    0 <= s < queues@.len() && 0 <= j < queues@[s]@.len() implies (
                #[trigger] queues@[s]@[j]).1 < input.cars@.len() by {
                    if s != first {
                        assert(queues@[s] == before[s]);
                    } else if j < before[s]@.len() {
                        assert(queues@[s]@[j] == before[s]@[j]);
                    }
                }
            }
            c = c + 1;
        }
        let r = Simulation { queues, done, score: 0 };
        assert(r@.done =~= initial(input).done);
        r
    }

    /// Serves the light of `intersection` at time `t`.
    pub fn step(&mut self, input: &Input, schedules: &Vec<Vec<(u32, i32)>>, t: i32, i: usize)
        requires
            input.wf_city(),
            schedules_ok(input, schedules@),
            old(self).shape_ok(input),
            0 <= t < input.duration,
            i < input.n_intersections,
            -0x10_0000_0000_0000_0000_0000_0000 <= old(self).score
                <= 0x10_0000_0000_0000_0000_0000_0000,
        ensures
            final(self).shape_ok(input),
            final(self)@ == step(input, lights(schedules@), old(self)@, t as int, i as int),
            old(self).score - 0x4_0000_0000 <= final(self).score <= old(self).score
                + 0x4_0000_0000,
    {
        let schedule = &schedules[i];
        if schedule.len() == 0 {
            return ;
        }
        let g = green(schedule, t) as usize;
        let ghost st = self@;
        let ghost queues0 = self.queues@;
        assert(st.queues[g as int] == self.queues@[g as int]@);
        if self.queues[g].len() == 0 {
            return ;
        }
        let (time, car) = self.queues[g][0];
        if time > t as i64 {
            return ;
        }
        let k = self.done[car as usize];
        let trip = &input.cars[car as usize].trip;
        if k >= trip.len() || trip[k] as usize != g {
            return ;
        }
        self.queues[g].pop_front();
        let ghost queues1 = self.queues@;
        self.done.set(car as usize, k + 1);
        if k + 1 < trip.len() {
            let next = trip[k + 1] as usize;
            let arrival: i64 = t as i64 + input.streets[next].len as i64;
            self.queues[next].push_back((arrival, car));
            proof {
                let spec_queues1 = st.queues.update(g as int, st.queues[g as int].drop_first());
                assert(queues1.map_values(|q: VecDeque<(i64, u32)>| q@) =~= spec_queues1);
                assert(self.queues@.map_values(|q: VecDeque<(i64, u32)>| q@) =~= spec_queues1.update(
                    next as int,
                    spec_queues1[next as int].push((arrival, car)),
                ));
                assert forall|s: int, j: int|
                    0 <= s < self.queues@.len() && 0 <= j < self.queues@[s]@.len() implies (
                #[trigger] self.queues@[s]@[j]).1 < input.cars@.len() by {
                    if s == next {
                        if j < queues1[s]@.len() {
                            assert(self.queues@[s]@[j] == queues1[s]@[j]);
                            if s == g {
                                assert(queues1[s]@[j] == queues0[s]@[j + 1]);
                            } else {
                                assert(queues1[s] == queues0[s]);
                            }
                        }
                    } else if s == g {
                        assert(self.queues@[s] == queues1[s]);
                        assert(queues1[s]@[j] == queues0[s]@[j + 1]);
                    } else {
                        assert(self.queues@[s] == queues0[s]);
                    }
                }
            }
        } else {
            self.score = self.score + (input.duration as i128 - t as i128 + input.bonus as i128);
            proof {
                let spec_queues1 = st.queues.update(g as int, st.queues[g as int].drop_first());
                assert(self.queues@.map_values(|q: VecDeque<(i64, u32)>| q@) =~= spec_queues1);
                assert forall|s: int, j: int|
                    0 <= s < self.queues@.len() && 0 <= j < self.queues@[s]@.len() implies (
                #[trigger] self.queues@[s]@[j]).1 < input.cars@.len() by {
                    if s == g {
                        assert(queues1[s]@[j] == queues0[s]@[j + 1]);
                    } else {
                        assert(self.queues@[s] == queues0[s]);
                    }
                }
            }
        }
    }
}

/// Runs the simulation for the whole duration and returns the points
/// given: for each car that finished its trip, the bonus and one point
/// for each second that was left.
pub fn simulate(input: &Input, schedules: &Vec<Vec<(u32, i32)>>) -> (score: i128)
    requires
        input.wf_city(),
        schedules_ok(input, schedules@),
    ensures
        score == run(input, lights(schedules@), if input.duration > 0 {
            input.duration as int
        } else {
            0
        }).score,
{
    let n = input.n_intersections;
    let mut sim = Simulation::new(input);
    let mut t: i32 = 0;
    while t < input.duration
        invariant
            input.wf_city(),
            schedules_ok(input, schedules@),
            n == input.n_intersections,
            0 <= t,
            t <= input.duration || t == 0,
            sim.shape_ok(input),
            sim@ == run(input, lights(schedules@), t as int),
            -(t * n * 0x4_0000_0000) <= sim.score <= t * n * 0x4_0000_0000,
        decreases input.duration - t,
    {
        let ghost start = sim@;
        let ghost base = t * n;
        assert(0 <= base <= 0x7fff_ffff * 0x1_0000_0000) by (nonlinear_arith)
            requires
                base == t * n,
                0 <= t < 0x7fff_ffff,
                0 <= n <= 0x1_0000_0000,
        ;
        let mut i: usize = 0;
        while i < n
            invariant
                input.wf_city(),
                schedules_ok(input, schedules@),
                n == input.n_intersections,
                0 <= t < input.duration,
                i <= n,
                sim.shape_ok(input),
                sim@ == sweep(input, lights(schedules@), start, t as int, i as int),
                0 <= base <= 0x7fff_ffff * 0x1_0000_0000,
                -((base + i) * 0x4_0000_0000) <= sim.score <= (base + i) * 0x4_0000_0000,
            decreases n - i,
        {
            sim.step(input, schedules, t, i);
            i = i + 1;
        }
        assert((t + 1) * n == base + n) by (nonlinear_arith)
            requires
                base == t * n,
        ;
        t = t + 1;
    }
    sim.score
}

/// Gives every light the green times that the traffic asks for and runs
/// the simulation. Returns the schedules, which are the answer, and the
/// points they are given.
pub fn solve(input: &Input) -> (r: (Vec<Vec<(u32, i32)>>, i128))
    requires
        input.wf(),
    ensures
        lights(r.0@) == plan(input),
        schedules_ok(input, r.0@),
        r.1 == run(input, plan(input), if input.duration > 0 {
            input.duration as int
        } else {
            0
        }).score,
{
    let schedules = schedules(input);
    let score = simulate(input, &schedules);
    (schedules, score)
}

} // verus!
