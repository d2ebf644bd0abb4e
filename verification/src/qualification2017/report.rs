//! What a placement amounts to: the videos on each server, the totals, and
//! the score of the answer.

use vstd::prelude::*;
use crate::qualification2017::greedy::solve;
use crate::qualification2017::index::{links_match, Index};
use crate::qualification2017::model::{slack, trunc_div, Placement, Problem};

verus! {

broadcast use vstd::std_specs::hash::group_hash_axioms;

/// Why an answer has no score.
#[derive(Clone, Copy, Debug, PartialEq, Eq, Structural)]
pub enum EvalError {
    /// The answer does not list the videos of every server.
    WrongServerCount,
    /// A server holds a video that does not exist.
    UnknownVideo,
    /// The videos of a server exceed its capacity.
    OverCapacity,
    /// The requests add up to none, so there is no average.
    NoRequests,
}

/// The score of an answer and the room it leaves.
#[derive(Clone, Copy, Debug, PartialEq, Eq, Structural)]
pub struct Evaluation {
    /// The most room left on any one server, or -1 without servers.
    pub max_space_left: i64,
    /// The time saved per request, in thousandths of the latency unit.
    pub final_score: i128,
}

/// The videos that `placements` puts on server `s`, in order.
pub open spec fn videos_on(placements: Seq<Placement>, s: int) -> Seq<usize>
    decreases placements.len(),
{
    if placements.len() == 0 {
        Seq::empty()
    } else {
        let front = videos_on(placements.drop_last(), s);
        if placements.last().server == s {
            front.push(placements.last().video)
        } else {
            front
        }
    }
}

/// The sum of the first `k` scores.
pub open spec fn score_sum(placements: Seq<Placement>, k: int) -> int
    decreases k,
{
    if k <= 0 {
        0
    } else {
        score_sum(placements, k - 1) + placements[k - 1].score
    }
}

/// The sum of the sizes of the first `k` placed videos.
pub open spec fn size_sum(p: &Problem, placements: Seq<Placement>, k: int) -> int
    decreases k,
{
    if k <= 0 {
        0
    } else {
        size_sum(p, placements, k - 1) + p.video_sizes@[placements[k - 1].video as int]
    }
}

/// The size of the videos in `list` together.
pub open spec fn load(p: &Problem, list: Seq<usize>) -> int
    decreases list.len(),
{
    if list.len() == 0 {
        0
    } else {
        load(p, list.drop_last()) + p.video_sizes@[list.last() as int]
    }
}

/// The lists of videos as mathematical values.
pub open spec fn rows(answer: Seq<Vec<usize>>) -> Seq<Seq<usize>> {
    answer.map_values(|v: Vec<usize>| v@)
}

/// Server `c` holds the video with id `video`.
pub open spec fn serves(answer: Seq<Seq<usize>>, c: int, video: i32) -> bool {
    0 <= video && 0 <= c < answer.len() && answer[c].contains(video as usize)
}

/// The latency at which request `r` is served when only the first `k`
/// links of its endpoint are used: the lowest among the data centre and
/// the linked servers that hold the video.
pub open spec fn served_upto(p: &Problem, answer: Seq<Seq<usize>>, r: int, k: int) -> int
    decreases k,
{
    if k <= 0 {
        p.endpoint_of(r).dc_latency as int
    } else {
        let prev = served_upto(p, answer, r, k - 1);
        let c = p.endpoint_of(r).caches@[k - 1].0 as int;
        match p.endpoint_of(r).latency(c) {
            Some(l) => if serves(answer, c, p.requests@[r].video) && l < prev {
                l as int
            } else {
                prev
            },
            None => prev,
        }
    }
}

/// The latency at which request `r` is served.
pub open spec fn served(p: &Problem, answer: Seq<Seq<usize>>, r: int) -> int {
    served_upto(p, answer, r, p.endpoint_of(r).caches@.len() as int)
}

/// The time that the first `k` requests save over the data centre.
pub open spec fn saving_upto(p: &Problem, answer: Seq<Seq<usize>>, k: int) -> int
    decreases k,
{
    if k <= 0 {
        0
    } else {
        saving_upto(p, answer, k - 1) + (p.endpoint_of(k - 1).dc_latency - served(
            p,
            answer,
            k - 1,
        )) * p.requests@[k - 1].n_requests
    }
}

/// How many requests the first `k` descriptions stand for.
pub open spec fn requests_upto(p: &Problem, k: int) -> int
    decreases k,
{
    if k <= 0 {
        0
    } else {
        requests_upto(p, k - 1) + p.requests@[k - 1].n_requests
    }
}

/// The most room left on any of the first `k` servers, or -1.
pub open spec fn max_space_upto(p: &Problem, answer: Seq<Seq<usize>>, k: int) -> int
    decreases k,
{
    if k <= 0 {
        -1
    } else {
        let prev = max_space_upto(p, answer, k - 1);
        let room = p.capacity - load(p, answer[k - 1]);
        if room > prev {
            room
        } else {
            prev
        }
    }
}

/// The answer names one list per server, of videos that exist.
pub open spec fn answer_in_range(p: &Problem, answer: Seq<Seq<usize>>) -> bool {
    &&& answer.len() == p.n_cache
    &&& forall|s: int, i: int|
        0 <= s < answer.len() && 0 <= i < answer[s].len() ==> (#[trigger] answer[s][i])
            < p.video_sizes@.len()
}

/// What [`evaluate`] returns for `answer`.
pub open spec fn evaluation(p: &Problem, answer: Seq<Seq<usize>>) -> Result<
    Evaluation,
    EvalError,
> {
    let n = p.requests@.len() as int;
    if answer.len() != p.n_cache {
        Err(EvalError::WrongServerCount)
    } else if !answer_in_range(p, answer) {
        Err(EvalError::UnknownVideo)
    } else if exists|s: int| 0 <= s < answer.len() && load(p, #[trigger] answer[s]) > p.capacity {
        Err(EvalError::OverCapacity)
    } else if requests_upto(p, n) == 0 {
        Err(EvalError::NoRequests)
    } else {
        Ok(
            Evaluation {
                max_space_left: max_space_upto(p, answer, p.n_cache as int) as i64,
                final_score: trunc_div(saving_upto(p, answer, n) * 1000, requests_upto(p, n))
                    as i128,
            },
        )
    }
}

/// The videos on each server, in the order in which they were placed.
pub fn answer(placements: &Vec<Placement>, n_cache: usize) -> (r: Vec<Vec<usize>>)
    requires
        forall|i: int| 0 <= i < placements@.len() ==> (#[trigger] placements@[i]).server < n_cache,
    ensures
        r@.len() == n_cache,
        forall|s: int| 0 <= s < n_cache ==> (#[trigger] r@[s])@ == videos_on(placements@, s),
{
    let mut out: Vec<Vec<usize>> = Vec::new();
    let mut s: usize = 0;
    while s < n_cache
        invariant
            s <= n_cache,
            out@.len() == s,
            forall|j: int| 0 <= j < s ==> (#[trigger] out@[j])@ == Seq::<usize>::empty(),
        decreases n_cache - s,
    {
        out.push(Vec::new());
        s = s + 1;
    }
    let mut i: usize = 0;
    while i < placements.len()
        invariant
            i <= placements@.len(),
            out@.len() == n_cache,
            forall|j: int|
                0 <= j < placements@.len() ==> (#[trigger] placements@[j]).server < n_cache,
            forall|j: int|
                0 <= j < n_cache ==> (#[trigger] out@[j])@ == videos_on(
                    placements@.take(i as int),
                    j,
                ),
        decreases placements@.len() - i,
    {
        let q = placements[i];
        let ghost before = out@;
        let mut list: Vec<usize> = Vec::new();
        std::mem::swap(&mut list, &mut out[q.server]);
        list.push(q.video);
        out[q.server] = list;
        proof {
            assert(placements@.take(i + 1).drop_last() =~= placements@.take(i as int));
            assert forall|j: int| 0 <= j < n_cache implies (#[trigger] out@[j])@ == videos_on(
                placements@.take(i + 1),
                j,
            ) by {
                if j != q.server {
                    assert(out@[j] == before[j]);
                }
            }
        }
        i = i + 1;
    }
    assert(placements@.take(placements@.len() as int) =~= placements@);
    out
}

/// The sum of the scores at which the videos were placed; `None` where the
/// running total leaves the range of the result.
pub fn total_score(placements: &Vec<Placement>) -> (r: Option<i128>)
    ensures
        match r {
            Some(t) => t == score_sum(placements@, placements@.len() as int),
            None => exists|k: int|
                0 <= k <= placements@.len() && !(i128::MIN <= #[trigger] score_sum(
                    placements@,
                    k,
                ) <= i128::MAX),
        },
        r is Some ==> forall|k: int|
            0 <= k <= placements@.len() ==> i128::MIN <= #[trigger] score_sum(placements@, k)
                <= i128::MAX,
{
    let mut total: i128 = 0;
    let mut i: usize = 0;
    while i < placements.len()
        invariant
            i <= placements@.len(),
            total == score_sum(placements@, i as int),
            forall|k: int|
                0 <= k <= i ==> i128::MIN <= #[trigger] score_sum(placements@, k) <= i128::MAX,
        decreases placements@.len() - i,
    {
        match total.checked_add(placements[i].score) {
            Some(t) => {
                total = t;
            },
            None => {
                assert(!(i128::MIN <= score_sum(placements@, i + 1) <= i128::MAX));
                return None;
            },
        }
        i = i + 1;
    }
    Some(total)
}

/// The capacity that is left over all servers after the placements.
pub fn capacity_left(p: &Problem, placements: &Vec<Placement>) -> (r: i128)
    requires
        forall|i: int|
            0 <= i < placements@.len() ==> (#[trigger] placements@[i]).video
                < p.video_sizes@.len(),
    ensures
        r == p.capacity * p.n_cache - size_sum(p, placements@, placements@.len() as int),
{
    let n = placements.len();
    let mut used: i128 = 0;
    let mut i: usize = 0;
    while i < n
        invariant
            i <= n == placements@.len(),
            forall|j: int|
                0 <= j < placements@.len() ==> (#[trigger] placements@[j]).video
                    < p.video_sizes@.len(),
            used == size_sum(p, placements@, i as int),
            -(i * 0x8000_0000) <= used <= i * 0x8000_0000,
        decreases n - i,
    {
        used = used + p.video_sizes[placements[i].video] as i128;
        i = i + 1;
    }
    assert(-0x8000_0000 * 0x1_0000_0000_0000_0000 <= p.capacity * p.n_cache <= 0x8000_0000
        * 0x1_0000_0000_0000_0000) by (nonlinear_arith)
        requires
            -0x8000_0000 <= p.capacity <= 0x8000_0000,
            0 <= p.n_cache <= 0x1_0000_0000_0000_0000,
    ;
    (p.capacity as i128) * (p.n_cache as i128) - used
}

/// Whether `list` holds `x`.
fn list_contains(list: &Vec<usize>, x: usize) -> (r: bool)
    ensures
        r == list@.contains(x),
{
    let mut i: usize = 0;
    while i < list.len()
        invariant
            i <= list@.len(),
            forall|j: int| 0 <= j < i ==> list@[j] != x,
        decreases list@.len() - i,
    {
        if list[i] == x {
            return true;
        }
        i = i + 1;
    }
    false
}

/// The size of the videos in `list` together, if all of them exist.
fn list_load(p: &Problem, list: &Vec<usize>) -> (r: Option<i128>)
    ensures
        r is Some <==> forall|i: int|
            0 <= i < list@.len() ==> (#[trigger] list@[i]) < p.video_sizes@.len(),
        r is Some ==> r->0 == load(p, list@),
{
    let n = list.len();
    let mut total: i128 = 0;
    let mut i: usize = 0;
    while i < n
        invariant
            i <= n == list@.len(),
            forall|j: int| 0 <= j < i ==> (#[trigger] list@[j]) < p.video_sizes@.len(),
            total == load(p, list@.take(i as int)),
            -(i * 0x8000_0000) <= total <= i * 0x8000_0000,
        decreases n - i,
    {
        if list[i] >= p.video_sizes.len() {
            return None;
        }
        assert(list@.take(i + 1).drop_last() =~= list@.take(i as int));
        total = total + p.video_sizes[list[i]] as i128;
        i = i + 1;
    }
    assert(list@.take(list@.len() as int) =~= list@);
    Some(total)
}

/// Division that rounds towards zero.
fn div_trunc(a: i128, b: i128) -> (r: i128)
    requires
        b != 0,
        i128::MIN < a,
        i128::MIN < b,
    ensures
        r == trunc_div(a as int, b as int),
{
    if a >= 0 && b > 0 {
        a / b
    } else if a < 0 && b > 0 {
        -((-a) / b)
    } else if a >= 0 {
        -(a / (-b))
    } else {
        (-a) / (-b)
    }
}

/// The latency at which request `r` is served under `answer`.
fn served_latency(p: &Problem, idx: &Index, answer: &Vec<Vec<usize>>, r: usize) -> (m: i32)
    requires
        p.wf(),
        idx.wf(p),
        answer@.len() == p.n_cache,
        r < p.requests@.len(),
    ensures
        m == served(p, rows(answer@), r as int),
        m <= p.endpoint_of(r as int).dc_latency,
{
    let req = &p.requests[r];
    let e = &p.endpoints[req.endpoint];
    let mut m: i32 = e.dc_latency;
    let mut k: usize = 0;
    while k < e.caches.len()
        invariant
            p.wf(),
            idx.wf(p),
            answer@.len() == p.n_cache,
            r < p.requests@.len(),
            *req == p.requests@[r as int],
            *e == p.endpoint_of(r as int),
            k <= e.caches@.len(),
            m == served_upto(p, rows(answer@), r as int, k as int),
            m <= e.dc_latency,
        decreases e.caches@.len() - k,
    {
        let c = e.caches[k].0;
        proof {
            assert(links_match(
                idx.links@[req.endpoint as int]@,
                p.endpoints@[req.endpoint as int],
                p.endpoints@[req.endpoint as int].caches@.len() as int,
            ));
            assert(e.latency(c as int) == e.latency_upto(c as int, e.caches@.len() as int));
            assert(p.endpoints@[req.endpoint as int].caches@[k as int].0 < p.n_cache);
        }
        match idx.links[req.endpoint].get(&c) {
            Some(entry) => {
                if req.video >= 0 && entry.0 < m && list_contains(&answer[c], req.video as usize) {
                    m = entry.0;
                }
            },
            None => {},
        }
        k = k + 1;
    }
    m
}

/// Scores `answer`: the time that the requests save on average, and the
/// most room that a server has left. An answer that overfills a server,
/// names a video that does not exist or has the wrong number of servers is
/// refused, and so is a problem whose requests add up to none.
pub fn evaluate(p: &Problem, answer: &Vec<Vec<usize>>) -> (r: Result<Evaluation, EvalError>)
    requires
        p.wf(),
    ensures
        r == evaluation(p, rows(answer@)),
{
    if answer.len() != p.n_cache {
        return Err(EvalError::WrongServerCount);
    }
    let mut s: usize = 0;
    while s < p.n_cache
        invariant
            s <= p.n_cache == answer@.len(),
            forall|j: int, i: int|
                0 <= j < s && 0 <= i < answer@[j]@.len() ==> (#[trigger] answer@[j]@[i])
                    < p.video_sizes@.len(),
        decreases p.n_cache - s,
    {
        assert(rows(answer@)[s as int] == answer@[s as int]@);
        if list_load(p, &answer[s]).is_none() {
            return Err(EvalError::UnknownVideo);
        }
        s = s + 1;
    }
    assert(answer_in_range(p, rows(answer@))) by {
        assert forall|j: int, i: int|
            0 <= j < rows(answer@).len() && 0 <= i < rows(answer@)[j].len() implies (
        #[trigger] rows(answer@)[j][i]) < p.video_sizes@.len() by {
            assert(answer@[j]@[i] < p.video_sizes@.len());
        }
    }
    let mut max_space: i64 = -1;
    let mut s: usize = 0;
    while s < p.n_cache
        invariant
            p.wf(),
            s <= p.n_cache == answer@.len(),
            answer_in_range(p, rows(answer@)),
            forall|j: int| 0 <= j < s ==> load(p, #[trigger] rows(answer@)[j]) <= p.capacity,
            max_space == max_space_upto(p, rows(answer@), s as int),
            -1 <= max_space <= 0x1_0000_0000,
        decreases p.n_cache - s,
    {
        assert(rows(answer@)[s as int] == answer@[s as int]@);
        let used = match list_load(p, &answer[s]) {
            Some(u) => u,
            None => {
                assert(answer@[s as int]@ == rows(answer@)[s as int]);
                return Err(EvalError::UnknownVideo);
            },
        };
        if used > p.capacity as i128 {
            return Err(EvalError::OverCapacity);
        }
        proof {
            lemma_load_nonnegative(p, answer@[s as int]@);
        }
        let room: i64 = (p.capacity as i128 - used) as i64;
        if room > max_space {
            max_space = room;
        }
        s = s + 1;
    }
    let idx = Index::new(p);
    let n = p.requests.len();
    let mut saving: i128 = 0;
    let mut count: i128 = 0;
    let mut r: usize = 0;
    while r < n
        invariant
            p.wf(),
            idx.wf(p),
            answer@.len() == p.n_cache,
            n == p.requests@.len(),
            r <= n,
            saving == saving_upto(p, rows(answer@), r as int),
            count == requests_upto(p, r as int),
            -(r * 0x8000_0000_0000_0000) <= saving <= r * 0x8000_0000_0000_0000,
            -(r * 0x8000_0000) <= count <= r * 0x8000_0000,
        decreases n - r,
    {
        let m = served_latency(p, &idx, answer, r);
        let req = &p.requests[r];
        let d: i128 = p.endpoints[req.endpoint].dc_latency as i128 - m as i128;
        assert(-0x8000_0000_0000_0000 <= d * req.n_requests <= 0x8000_0000_0000_0000)
            by (nonlinear_arith)
            requires
                0 <= d <= 0xffff_ffff,
                -0x8000_0000 <= req.n_requests <= 0x8000_0000,
        ;
        saving = saving + d * (req.n_requests as i128);
        count = count + req.n_requests as i128;
        r = r + 1;
    }
    if count == 0 {
        return Err(EvalError::NoRequests);
    }
    Ok(Evaluation { max_space_left: max_space, final_score: div_trunc(saving * 1000, count) })
}

/// The videos of a server are the video that is placed first, if it goes
/// to the server, and the videos that the other placements put there.
pub proof fn lemma_videos_on_front(first: Placement, rest: Seq<Placement>, s: int)
    ensures
        videos_on(seq![first] + rest, s) == (if first.server == s {
            seq![first.video]
        } else {
            Seq::<usize>::empty()
        }) + videos_on(rest, s),
    decreases rest.len(),
{
    let all = seq![first] + rest;
    let head = if first.server == s { seq![first.video] } else { Seq::<usize>::empty() };
    if rest.len() == 0 {
        let none = Seq::<Placement>::empty();
        assert(all.drop_last() =~= none);
        assert(rest =~= none);
        assert(all.last() == first);
        assert(videos_on(none, s) =~= Seq::<usize>::empty());
        assert(videos_on(all, s) =~= head + videos_on(rest, s));
    } else {
        lemma_videos_on_front(first, rest.drop_last(), s);
        assert(all.drop_last() =~= seq![first] + rest.drop_last());
        assert(all.last() == rest.last());
        if rest.last().server == s {
            assert((head + videos_on(rest.drop_last(), s)).push(rest.last().video) =~= head
                + videos_on(rest.drop_last(), s).push(rest.last().video));
        }
    }
}

/// The load of a list is the size of its first video and the load of the
/// others.
pub proof fn lemma_load_front(p: &Problem, first: usize, rest: Seq<usize>)
    ensures
        load(p, seq![first] + rest) == p.video_sizes@[first as int] + load(p, rest),
    decreases rest.len(),
{
    let all = seq![first] + rest;
    if rest.len() == 0 {
        let none = Seq::<usize>::empty();
        assert(all.drop_last() =~= none);
        assert(rest =~= none);
        assert(all.last() == first);
        assert(load(p, none) == 0);
    } else {
        lemma_load_front(p, first, rest.drop_last());
        assert(all.drop_last() =~= seq![first] + rest.drop_last());
        assert(all.last() == rest.last());
    }
}

/// The videos that the greedy placement puts on a server fit into what is
/// left of it. On a server that is overfull already it puts none.
pub proof fn lemma_greedy_fits(p: &Problem, caps: Seq<i32>, best: Seq<i32>, s: int)
    requires
        p.wf(),
        caps.len() == p.n_cache,
        0 <= s < p.n_cache,
    ensures
        0 <= load(p, videos_on(p.greedy(caps, best), s)),
        caps[s] >= 0 ==> load(p, videos_on(p.greedy(caps, best), s)) <= caps[s],
        caps[s] < 0 ==> load(p, videos_on(p.greedy(caps, best), s)) == 0,
    decreases slack(caps),
{
    if p.has_choice(caps, best) {
        let (cs, cv) = p.choice(caps, best);
        assert(p.is_choice(caps, best, cs, cv));
        let first = Placement {
            server: cs as usize,
            video: cv as usize,
            score: p.score(best, cs, cv) as i128,
        };
        let rest = p.greedy(p.caps_after(caps, cs, cv), p.best_after(best, cs, cv));
        p.lemma_caps_after(caps, cs, cv);
        lemma_greedy_fits(p, p.caps_after(caps, cs, cv), p.best_after(best, cs, cv), s);
        lemma_videos_on_front(first, rest, s);
        if cs == s {
            lemma_load_front(p, cv as usize, videos_on(rest, s));
        } else {
            assert(Seq::<usize>::empty() + videos_on(rest, s) =~= videos_on(rest, s));
        }
    } else {
        assert(videos_on(p.greedy(caps, best), s) =~= Seq::<usize>::empty());
    }
}

/// Places videos greedily and returns the videos of each server, in the
/// order in which they were placed: the answer to be written down. No
/// server is overfilled.
pub fn solve_answer(p: &Problem) -> (r: Vec<Vec<usize>>)
    requires
        p.wf(),
    ensures
        r@.len() == p.n_cache,
        forall|s: int|
            0 <= s < p.n_cache ==> (#[trigger] r@[s])@ == videos_on(
                p.greedy(p.initial_caps(), p.initial_best()),
                s,
            ),
        forall|s: int|
            0 <= s < p.n_cache ==> 0 <= load(p, (#[trigger] r@[s])@) && (p.capacity >= 0 ==> load(
                p,
                r@[s]@,
            ) <= p.capacity),
{
    let placements = solve(p);
    let servers = answer(&placements, p.n_cache);
    proof {
        assert forall|s: int| 0 <= s < p.n_cache implies 0 <= load(p, (#[trigger] servers@[s])@)
            && (p.capacity >= 0 ==> load(p, servers@[s]@) <= p.capacity) by {
            lemma_greedy_fits(p, p.initial_caps(), p.initial_best(), s);
        }
    }
    servers
}

/// A list of videos that exist has a load that is not negative.
pub proof fn lemma_load_nonnegative(p: &Problem, list: Seq<usize>)
    requires
        p.wf(),
        forall|i: int| 0 <= i < list.len() ==> (#[trigger] list[i]) < p.video_sizes@.len(),
    ensures
        load(p, list) >= 0,
    decreases list.len(),
{
    if list.len() > 0 {
        lemma_load_nonnegative(p, list.drop_last());
    }
}

} // verus!
