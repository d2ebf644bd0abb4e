//! The greedy placement.

use vstd::prelude::*;
use crate::qualification2017::index::{
    lemma_requests_for_bounds, lemma_sum_gains, links_match, requests_for, sum_gains, Index,
};
use crate::qualification2017::model::{key_le, slack, Placement, Problem, MAX_COUNT};

verus! {

broadcast use vstd::std_specs::hash::group_hash_axioms;

/// No request gains more than this, in either direction.
pub open spec fn gain_bound() -> int {
    0x4000_0000_0000_0000_0000_0000
}

/// The gain of one request is bounded.
pub proof fn lemma_gain_bound(p: &Problem, best: Seq<i32>, r: int, s: int)
    requires
        p.wf(),
        0 <= r < p.requests@.len(),
    ensures
        -gain_bound() <= p.gain(best, r, s) <= gain_bound(),
{
    let e = p.endpoint_of(r);
    e.lemma_links(s, e.caches@.len() as int);
    match e.latency(s) {
        Some(l) => {
            if best[r] > l {
                let d = best[r] - l;
                let n = p.requests@[r].n_requests as int;
                let c = e.links(s) as int;
                lemma_product_bound(d, n, c);
            }
        },
        None => {},
    }
}

proof fn lemma_product_bound(d: int, n: int, c: int)
    requires
        0 <= d <= 0xffff_ffff,
        -0x8000_0000 <= n <= 0x8000_0000,
        0 <= c <= 0x8000_0000,
    ensures
        -0x8000_0000_0000_0000 <= d * n <= 0x8000_0000_0000_0000,
        -gain_bound() <= d * n * c <= gain_bound(),
{
    assert(-0x8000_0000_0000_0000 <= d * n <= 0x8000_0000_0000_0000) by (nonlinear_arith)
        requires
            0 <= d <= 0xffff_ffff,
            -0x8000_0000 <= n <= 0x8000_0000,
    ;
    let t = d * n;
    assert(-0x4000_0000_0000_0000_0000_0000 <= t * c <= 0x4000_0000_0000_0000_0000_0000)
        by (nonlinear_arith)
        requires
            -0x8000_0000_0000_0000 <= t <= 0x8000_0000_0000_0000,
            0 <= c <= 0x8000_0000,
    ;
}

/// The scores of a video do not depend on the best latencies of requests
/// for other videos.
pub proof fn lemma_score_other_video(
    p: &Problem,
    best: Seq<i32>,
    s0: int,
    v0: int,
    s: int,
    v: int,
    k: int,
)
    requires
        v != v0,
        0 <= k <= p.requests@.len() == best.len(),
    ensures
        p.raw_score_upto(p.best_after(best, s0, v0), s, v, k) == p.raw_score_upto(best, s, v, k),
    decreases k,
{
    if k > 0 {
        lemma_score_other_video(p, best, s0, v0, s, v, k - 1);
        assert(p.best_after(best, s0, v0)[k - 1] == p.improved(best, k - 1, s0, v0));
    }
}

/// The table holds the score of every pair that still fits.
pub open spec fn table_ok(p: &Problem, caps: Seq<i32>, best: Seq<i32>, table: Seq<Vec<i128>>)
    -> bool {
    &&& table.len() == p.n_cache
    &&& forall|s: int| 0 <= s < p.n_cache ==> (#[trigger] table[s])@.len() == p.video_sizes@.len()
    &&& forall|s: int, v: int| #[trigger]
        p.feasible(caps, s, v) ==> table[s]@[v] == p.score(best, s, v)
}

/// The score of storing video `v` on server `s`.
pub fn pair_score(p: &Problem, idx: &Index, best: &Vec<i32>, s: usize, v: usize) -> (r: i128)
    requires
        p.wf(),
        idx.wf(p),
        best@.len() == p.requests@.len(),
        v < p.video_sizes@.len(),
    ensures
        r == p.score(best@, s as int, v as int),
{
    let list = &idx.by_video[v];
    let ghost n_req = p.requests@.len() as int;
    proof {
        lemma_requests_for_bounds(p, v as int, n_req);
        lemma_sum_gains(p, best@, s as int, v as int, n_req);
        assert(list@.take(list@.len() as int) =~= list@);
    }
    let mut sum: i128 = 0;
    let mut i: usize = 0;
    while i < list.len()
        invariant
            p.wf(),
            idx.wf(p),
            best@.len() == p.requests@.len(),
            n_req == p.requests@.len(),
            list@ == requests_for(p, v as int, n_req),
            i <= list@.len() <= MAX_COUNT,
            forall|j: int| 0 <= j < list@.len() ==> (#[trigger] list@[j]) < n_req,
            sum == sum_gains(p, best@, s as int, list@.take(i as int)),
            -(i * gain_bound()) <= sum <= i * gain_bound(),
        decreases list@.len() - i,
    {
        let r = list[i];
        let req = &p.requests[r];
        let ghost e = p.endpoint_of(r as int);
        proof {
            assert(list@.take(i + 1).drop_last() =~= list@.take(i as int));
            assert(list@.take(i + 1).last() == r);
            lemma_gain_bound(p, best@, r as int, s as int);
            assert(links_match(
                idx.links@[req.endpoint as int]@,
                p.endpoints@[req.endpoint as int],
                p.endpoints@[req.endpoint as int].caches@.len() as int,
            ));
            e.lemma_links(s as int, e.caches@.len() as int);
            assert(e.latency(s as int) == e.latency_upto(s as int, e.caches@.len() as int));
        }
        match idx.links[req.endpoint].get(&s) {
            Some(entry) => {
                let latency = entry.0;
                let count = entry.1;
                if best[r] > latency {
                    let d: i128 = best[r] as i128 - latency as i128;
                    proof {
                        lemma_product_bound(d as int, req.n_requests as int, count as int);
                    }
                    let per_link: i128 = d * (req.n_requests as i128);
                    sum = sum + per_link * (count as i128);
                }
            },
            None => {},
        }
        i = i + 1;
    }
    let size = p.video_sizes[v] as i128;
    if sum >= 0 {
        sum / size
    } else {
        -((-sum) / size)
    }
}

/// The state of the placement: what is left of each server, the best
/// latency of each request, and the score of each pair.
pub struct State {
    pub caps: Vec<i32>,
    pub best: Vec<i32>,
    pub table: Vec<Vec<i128>>,
}

impl State {
    /// The state fits `p`, and its table holds the score of every pair
    /// that still fits.
    pub open spec fn wf(&self, p: &Problem) -> bool {
        &&& self.caps@.len() == p.n_cache
        &&& self.best@.len() == p.requests@.len()
        &&& table_ok(p, self.caps@, self.best@, self.table@)
    }

    /// The state before anything is placed.
    pub fn new(p: &Problem, idx: &Index) -> (r: State)
        requires
            p.wf(),
            idx.wf(p),
        ensures
            r.wf(p),
            r.caps@ == p.initial_caps(),
            r.best@ == p.initial_best(),
    {
        let n_videos = p.video_sizes.len();
        let mut best: Vec<i32> = Vec::new();
        let mut r: usize = 0;
        while r < p.requests.len()
            invariant
                p.wf(),
                r <= p.requests@.len(),
                best@.len() == r,
                forall|j: int| 0 <= j < r ==> #[trigger] best@[j] == p.endpoint_of(j).dc_latency,
            decreases p.requests@.len() - r,
        {
            best.push(p.endpoints[p.requests[r].endpoint].dc_latency);
            r = r + 1;
        }
        assert(best@ =~= p.initial_best());
        let mut caps: Vec<i32> = Vec::new();
        let mut table: Vec<Vec<i128>> = Vec::new();
        let mut s: usize = 0;
        while s < p.n_cache
            invariant
                p.wf(),
                idx.wf(p),
                n_videos == p.video_sizes@.len(),
                best@ == p.initial_best(),
                best@.len() == p.requests@.len(),
                s <= p.n_cache,
                caps@.len() == s,
                table@.len() == s,
                forall|j: int| 0 <= j < s ==> #[trigger] caps@[j] == p.capacity,
                forall|j: int| 0 <= j < s ==> (#[trigger] table@[j])@.len() == n_videos,
                forall|j: int, v: int|
                    0 <= j < s && 0 <= v < n_videos && p.capacity >= p.video_sizes@[v]
                        ==> #[trigger] table@[j]@[v] == p.score(best@, j, v),
            decreases p.n_cache - s,
        {
            let mut row: Vec<i128> = Vec::new();
            let mut v: usize = 0;
            while v < n_videos
                invariant
                    p.wf(),
                    idx.wf(p),
                    n_videos == p.video_sizes@.len(),
                    best@.len() == p.requests@.len(),
                    v <= n_videos,
                    row@.len() == v,
                    forall|j: int|
                        0 <= j < v && p.capacity >= p.video_sizes@[j] ==> #[trigger] row@[j]
                            == p.score(best@, s as int, j),
                decreases n_videos - v,
            {
                let x = if p.capacity >= p.video_sizes[v] {
                    pair_score(p, idx, &best, s, v)
                } else {
                    0
                };
                row.push(x);
                v = v + 1;
            }
            table.push(row);
            caps.push(p.capacity);
            s = s + 1;
        }
        assert(caps@ =~= p.initial_caps());
        State { caps, best, table }
    }

    /// The pair to place next, if there is one.
    pub fn pick(&self, p: &Problem) -> (r: Option<(usize, usize)>)
        requires
            self.wf(p),
        ensures
            match r {
                Some((s, v)) => p.is_choice(self.caps@, self.best@, s as int, v as int),
                None => !p.has_choice(self.caps@, self.best@),
            },
    {
        let caps = &self.caps;
        let table = &self.table;
        let ghost best = self.best@;
        let n_videos = p.video_sizes.len();
        let mut found: Option<(usize, usize)> = None;
        let mut s: usize = 0;
        while s < p.n_cache
            invariant
                s <= p.n_cache,
                n_videos == p.video_sizes@.len(),
                caps@.len() == p.n_cache,
                table_ok(p, caps@, best, table@),
                pick_inv(p, caps@, best, found, s as int, 0),
            decreases p.n_cache - s,
        {
            let mut v: usize = 0;
            while v < n_videos
                invariant
                    s < p.n_cache,
                    v <= n_videos,
                    n_videos == p.video_sizes@.len(),
                    caps@.len() == p.n_cache,
                    table_ok(p, caps@, best, table@),
                    pick_inv(p, caps@, best, found, s as int, v as int),
                decreases n_videos - v,
            {
                if caps[s] >= p.video_sizes[v] {
                    assert(p.feasible(caps@, s as int, v as int));
                    let score = table[s][v];
                    if score >= 0 {
                        let better = match found {
                            Some((fs, fv)) => {
                                assert(p.feasible(caps@, fs as int, fv as int));
                                score >= table[fs][fv]
                            },
                            None => true,
                        };
                        if better {
                            found = Some((s, v));
                        }
                    }
                }
                v = v + 1;
            }
            s = s + 1;
        }
        proof {
            match found {
                Some((fs, fv)) => {
                    assert forall|s2: int, v2: int| #[trigger]
                        p.feasible(caps@, s2, v2) implies key_le(
                        (p.score(best, s2, v2), s2, v2),
                        (p.score(best, fs as int, fv as int), fs as int, fv as int),
                    ) by {
                        assert(seen(s2, v2, s as int, 0));
                    }
                },
                None => {
                    if p.has_choice(caps@, best) {
                        let c = p.choice(caps@, best);
                        assert(p.is_choice(caps@, best, c.0, c.1));
                        assert(p.feasible(caps@, c.0, c.1));
                        assert(seen(c.0, c.1, s as int, 0));
                    }
                },
            }
        }
        found
    }

    /// Stores video `v` on server `s`: takes its size from the server,
    /// lowers the best latency of the requests it serves faster, and
    /// brings the scores of the video up to date.
    pub fn place(&mut self, p: &Problem, idx: &Index, s: usize, v: usize) -> (r: Placement)
        requires
            p.wf(),
            idx.wf(p),
            old(self).wf(p),
            p.feasible(old(self).caps@, s as int, v as int),
        ensures
            final(self).wf(p),
            final(self).caps@ == p.caps_after(old(self).caps@, s as int, v as int),
            final(self).best@ == p.best_after(old(self).best@, s as int, v as int),
            r == (Placement {
                server: s,
                video: v,
                score: p.score(old(self).best@, s as int, v as int) as i128,
            }),
    {
        let ghost caps0 = self.caps@;
        let ghost best0 = self.best@;
        let ghost table0 = self.table@;
        let n_videos = p.video_sizes.len();
        let score = self.table[s][v];
        let size = p.video_sizes[v];
        let left = self.caps[s] - size;
        self.caps.set(s, left);
        let mut r: usize = 0;
        while r < p.requests.len()
            invariant
                p.wf(),
                idx.wf(p),
                s < p.n_cache,
                v < p.video_sizes@.len() <= MAX_COUNT,
                r <= p.requests@.len() == best0.len(),
                self.best@.len() == best0.len(),
                self.caps@ == p.caps_after(caps0, s as int, v as int),
                self.table@ == table0,
                forall|j: int|
                    0 <= j < r ==> #[trigger] self.best@[j] == p.improved(
                        best0,
                        j,
                        s as int,
                        v as int,
                    ),
                forall|j: int| r <= j < best0.len() ==> #[trigger] self.best@[j] == best0[j],
            decreases p.requests@.len() - r,
        {
            let req = &p.requests[r];
            let ghost e = p.endpoint_of(r as int);
            proof {
                assert(links_match(
                    idx.links@[req.endpoint as int]@,
                    p.endpoints@[req.endpoint as int],
                    p.endpoints@[req.endpoint as int].caches@.len() as int,
                ));
                assert(e.latency(s as int) == e.latency_upto(s as int, e.caches@.len() as int));
            }
            if req.video == v as i32 {
                match idx.links[req.endpoint].get(&s) {
                    Some(entry) => {
                        if entry.0 < self.best[r] {
                            self.best.set(r, entry.0);
                        }
                    },
                    None => {},
                }
            }
            r = r + 1;
        }
        assert(self.best@ =~= p.best_after(best0, s as int, v as int));
        let ghost best1 = self.best@;
        let ghost caps1 = self.caps@;
        proof {
            assert forall|s2: int, v2: int| #[trigger]
                p.feasible(caps1, s2, v2) && v2 != v implies table0[s2]@[v2] == p.score(
                best1,
                s2,
                v2,
            ) by {
                assert(p.feasible(caps0, s2, v2));
                lemma_score_other_video(
                    p,
                    best0,
                    s as int,
                    v as int,
                    s2,
                    v2,
                    p.requests@.len() as int,
                );
            }
        }
        let mut t: usize = 0;
        while t < p.n_cache
            invariant
                p.wf(),
                idx.wf(p),
                v < p.video_sizes@.len(),
                n_videos == p.video_sizes@.len(),
                t <= p.n_cache,
                size == p.video_sizes@[v as int],
                self.best@ == best1,
                self.caps@ == caps1,
                caps1.len() == p.n_cache,
                best1.len() == p.requests@.len(),
                self.table@.len() == p.n_cache,
                forall|j: int|
                    0 <= j < p.n_cache ==> (#[trigger] self.table@[j])@.len() == n_videos,
                forall|s2: int, v2: int| #[trigger]
                    p.feasible(caps1, s2, v2) && (v2 != v || s2 < t) ==> self.table@[s2]@[v2]
                        == p.score(best1, s2, v2),
            decreases p.n_cache - t,
        {
            if self.caps[t] >= size {
                let x = pair_score(p, idx, &self.best, t, v);
                let ghost before = self.table@;
                let mut row: Vec<i128> = Vec::new();
                std::mem::swap(&mut row, &mut self.table[t]);
                row.set(v, x);
                self.table[t] = row;
                proof {
                    assert forall|s2: int, v2: int| #[trigger]
                        p.feasible(caps1, s2, v2) && (v2 != v || s2 < t + 1) implies self.table@[s2]@[v2]
                        == p.score(best1, s2, v2) by {
                        if s2 != t {
                            assert(self.table@[s2] == before[s2]);
                        }
                    }
                }
            }
            t = t + 1;
        }
        Placement { server: s, video: v, score }
    }
}

/// Places videos greedily until no video fits on any server with a score
/// that is not negative, and returns the placements in order.
pub fn solve(p: &Problem) -> (r: Vec<Placement>)
    requires
        p.wf(),
    ensures
        r@ == p.greedy(p.initial_caps(), p.initial_best()),
        forall|i: int|
            0 <= i < r@.len() ==> {
                &&& (#[trigger] r@[i]).server < p.n_cache
                &&& r@[i].video < p.video_sizes@.len()
                &&& r@[i].score >= 0
            },
{
    let idx = Index::new(p);
    let mut state = State::new(p, &idx);
    let mut out: Vec<Placement> = Vec::new();
    assert(out@ + p.greedy(state.caps@, state.best@) =~= p.greedy(state.caps@, state.best@));
    loop
        invariant_except_break
            p.wf(),
            idx.wf(p),
            state.wf(p),
            p.greedy(p.initial_caps(), p.initial_best()) == out@ + p.greedy(
                state.caps@,
                state.best@,
            ),
            forall|i: int|
                0 <= i < out@.len() ==> {
                    &&& (#[trigger] out@[i]).server < p.n_cache
                    &&& out@[i].video < p.video_sizes@.len()
                    &&& out@[i].score >= 0
                },
        ensures
            out@ == p.greedy(p.initial_caps(), p.initial_best()),
            forall|i: int|
                0 <= i < out@.len() ==> {
                    &&& (#[trigger] out@[i]).server < p.n_cache
                    &&& out@[i].video < p.video_sizes@.len()
                    &&& out@[i].score >= 0
                },
        decreases slack(state.caps@),
    {
        match state.pick(p) {
            None => {
                assert(out@ + Seq::<Placement>::empty() =~= out@);
                break;
            },
            Some((s, v)) => {
                let ghost caps0 = state.caps@;
                let ghost best0 = state.best@;
                let ghost rest = p.greedy(
                    p.caps_after(caps0, s as int, v as int),
                    p.best_after(best0, s as int, v as int),
                );
                proof {
                    p.lemma_choice_unique(caps0, best0, s as int, v as int);
                    p.lemma_caps_after(caps0, s as int, v as int);
                }
                let placement = state.place(p, &idx, s, v);
                assert(p.greedy(caps0, best0) == seq![placement] + rest);
                assert(out@ + (seq![placement] + rest) =~= out@.push(placement) + rest);
                out.push(placement);
            },
        }
    }
    out
}

/// The pair `(s2, v2)` comes before `(s, v)` in the order of the search.
pub open spec fn seen(s2: int, v2: int, s: int, v: int) -> bool {
    s2 < s || (s2 == s && v2 < v)
}

/// What the search knows when it stands at `(s, v)`: the pair found is the
/// best among those seen whose score is not negative, and if none is
/// found, none was seen.
pub open spec fn pick_inv(
    p: &Problem,
    caps: Seq<i32>,
    best: Seq<i32>,
    found: Option<(usize, usize)>,
    s: int,
    v: int,
) -> bool {
    match found {
        Some((fs, fv)) => {
            &&& p.feasible(caps, fs as int, fv as int)
            &&& p.score(best, fs as int, fv as int) >= 0
            &&& forall|s2: int, v2: int| #[trigger]
                p.feasible(caps, s2, v2) && seen(s2, v2, s, v) ==> key_le(
                    (p.score(best, s2, v2), s2, v2),
                    (p.score(best, fs as int, fv as int), fs as int, fv as int),
                )
        },
        None => forall|s2: int, v2: int| #[trigger]
            p.feasible(caps, s2, v2) && seen(s2, v2, s, v) ==> p.score(best, s2, v2) < 0,
    }
}

} // verus!
