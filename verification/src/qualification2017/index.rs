//! Lookup tables over a problem instance.

use std::collections::HashMap;
use vstd::prelude::*;
use crate::qualification2017::model::{Endpoint, Problem, MAX_COUNT};

verus! {

broadcast use vstd::std_specs::hash::group_hash_axioms;

/// Those of the first `k` requests that ask for video `v`, in order.
pub open spec fn requests_for(p: &Problem, v: int, k: int) -> Seq<usize>
    decreases k,
{
    if k <= 0 {
        Seq::empty()
    } else {
        let front = requests_for(p, v, k - 1);
        if p.requests@[k - 1].video == v {
            front.push((k - 1) as usize)
        } else {
            front
        }
    }
}

/// The gain over the requests in `list`.
pub open spec fn sum_gains(p: &Problem, best: Seq<i32>, s: int, list: Seq<usize>) -> int
    decreases list.len(),
{
    if list.len() == 0 {
        0
    } else {
        sum_gains(p, best, s, list.drop_last()) + p.gain(best, list.last() as int, s)
    }
}

/// The list of requests for a video names requests only.
pub proof fn lemma_requests_for_bounds(p: &Problem, v: int, k: int)
    requires
        0 <= k <= p.requests@.len() <= MAX_COUNT,
    ensures
        requests_for(p, v, k).len() <= k,
        forall|i: int| 0 <= i < requests_for(p, v, k).len() ==> (#[trigger] requests_for(p, v, k)[i]) < k,
    decreases k,
{
    if k > 0 {
        lemma_requests_for_bounds(p, v, k - 1);
    }
}

/// Summing the gain over the list of requests for a video gives the gain
/// of that video.
pub proof fn lemma_sum_gains(p: &Problem, best: Seq<i32>, s: int, v: int, k: int)
    requires
        0 <= k <= p.requests@.len() <= MAX_COUNT,
    ensures
        sum_gains(p, best, s, requests_for(p, v, k)) == p.raw_score_upto(best, s, v, k),
    decreases k,
{
    if k > 0 {
        lemma_sum_gains(p, best, s, v, k - 1);
        let front = requests_for(p, v, k - 1);
        if p.requests@[k - 1].video == v {
            assert(front.push((k - 1) as usize).drop_last() =~= front);
        }
    }
}

/// The table `m` holds, for every server, what the first `k` links of `e`
/// say of it: the latency and the number of links.
pub open spec fn links_match(m: Map<usize, (i32, u32)>, e: Endpoint, k: int) -> bool {
    forall|s: usize|
        #![trigger m.contains_key(s)]
        #![trigger e.latency_upto(s as int, k)]
        match e.latency_upto(s as int, k) {
            Some(l) => m.contains_key(s) && m[s] == (l, e.links_upto(s as int, k) as u32),
            None => !m.contains_key(s),
        }
}

/// Lookup tables over a problem instance: the links of each endpoint by
/// server, and the requests by video.
pub struct Index {
    pub links: Vec<HashMap<usize, (i32, u32)>>,
    pub by_video: Vec<Vec<usize>>,
}

impl Index {
    /// The tables describe `p`.
    pub open spec fn wf(&self, p: &Problem) -> bool {
        &&& self.links@.len() == p.endpoints@.len()
        &&& forall|e: int|
            0 <= e < p.endpoints@.len() ==> links_match(
                (#[trigger] self.links@[e])@,
                p.endpoints@[e],
                p.endpoints@[e].caches@.len() as int,
            )
        &&& self.by_video@.len() == p.video_sizes@.len()
        &&& forall|v: int|
            0 <= v < p.video_sizes@.len() ==> (#[trigger] self.by_video@[v])@ == requests_for(
                p,
                v,
                p.requests@.len() as int,
            )
    }

    /// Builds the tables for `p`.
    pub fn new(p: &Problem) -> (r: Index)
        requires
            p.wf(),
        ensures
            r.wf(p),
    {
        let mut links: Vec<HashMap<usize, (i32, u32)>> = Vec::new();
        let mut e: usize = 0;
        while e < p.endpoints.len()
            invariant
                p.wf(),
                e <= p.endpoints@.len(),
                links@.len() == e,
                forall|j: int|
                    0 <= j < e ==> links_match(
                        (#[trigger] links@[j])@,
                        p.endpoints@[j],
                        p.endpoints@[j].caches@.len() as int,
                    ),
            decreases p.endpoints@.len() - e,
        {
            let m = endpoint_links(&p.endpoints[e]);
            links.push(m);
            e = e + 1;
        }
        let n_videos = p.video_sizes.len();
        let mut by_video: Vec<Vec<usize>> = Vec::new();
        let mut v: usize = 0;
        while v < n_videos
            invariant
                v <= n_videos,
                by_video@.len() == v,
                forall|j: int| 0 <= j < v ==> (#[trigger] by_video@[j])@ == Seq::<usize>::empty(),
            decreases n_videos - v,
        {
            by_video.push(Vec::new());
            v = v + 1;
        }
        let mut r: usize = 0;
        while r < p.requests.len()
            invariant
                p.wf(),
                n_videos == p.video_sizes@.len(),
                r <= p.requests@.len(),
                by_video@.len() == n_videos,
                forall|j: int|
                    0 <= j < n_videos ==> (#[trigger] by_video@[j])@ == requests_for(
                        p,
                        j,
                        r as int,
                    ),
            decreases p.requests@.len() - r,
        {
            let video = p.requests[r].video;
            if 0 <= video && (video as usize) < n_videos {
                let ghost before = by_video@;
                let mut list: Vec<usize> = Vec::new();
                std::mem::swap(&mut list, &mut by_video[video as usize]);
                list.push(r);
                by_video[video as usize] = list;
                proof {
                    assert forall|j: int| 0 <= j < n_videos implies (#[trigger] by_video@[j])@
                        == requests_for(p, j, r + 1) by {
                        if j != video {
                            assert(by_video@[j] == before[j]);
                        }
                    }
                }
            }
            r = r + 1;
        }
        Index { links, by_video }
    }
}

/// The links of one endpoint by server.
fn endpoint_links(e: &Endpoint) -> (m: HashMap<usize, (i32, u32)>)
    requires
        e.caches@.len() <= MAX_COUNT,
    ensures
        links_match(m@, *e, e.caches@.len() as int),
{
    let mut m: HashMap<usize, (i32, u32)> = HashMap::new();
    let mut k: usize = 0;
    while k < e.caches.len()
        invariant
            k <= e.caches@.len() <= MAX_COUNT,
            links_match(m@, *e, k as int),
        decreases e.caches@.len() - k,
    {
        let (s, latency) = e.caches[k];
        let ghost before = m@;
        proof {
            e.lemma_links(s as int, k as int);
            assert(before.contains_key(s) <==> e.latency_upto(s as int, k as int) is Some);
        }
        let count: u32 = match m.get(&s) {
            Some(entry) => entry.1 + 1,
            None => 1,
        };
        m.insert(s, (latency, count));
        proof {
            assert forall|t: usize|
                #![trigger m@.contains_key(t)]
                #![trigger e.latency_upto(t as int, k + 1)]
                match e.latency_upto(t as int, k + 1) {
                    Some(l) => m@.contains_key(t) && m@[t] == (
                        l,
                        e.links_upto(t as int, k + 1) as u32,
                    ),
                    None => !m@.contains_key(t),
                } by {
                if t != s {
                    assert(before.contains_key(t) <==> e.latency_upto(t as int, k as int)
                        is Some);
                }
            }
        }
        k = k + 1;
    }
    m
}

} // verus!
