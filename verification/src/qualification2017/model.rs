//! The problem instance and the mathematical description of the greedy
//! placement.

use vstd::prelude::*;

verus! {

/// A group of users and its links to the data centre and to cache servers.
pub struct Endpoint {
    /// Latency of serving a request from the data centre.
    pub dc_latency: i32,
    /// The cache servers linked to this endpoint with their latencies, as
    /// listed. A server listed again replaces its earlier latency.
    pub caches: Vec<(usize, i32)>,
}

/// A number of requests for one video coming from one endpoint.
#[derive(Clone, Copy, Debug, PartialEq, Eq, Structural)]
pub struct Request {
    /// The video asked for. An id that names no video is never served.
    pub video: i32,
    /// The endpoint the requests come from.
    pub endpoint: usize,
    /// How many requests there are.
    pub n_requests: i32,
}

/// One instance of the problem.
pub struct Problem {
    /// The size of each video.
    pub video_sizes: Vec<i32>,
    /// The number of cache servers.
    pub n_cache: usize,
    /// The capacity of every cache server.
    pub capacity: i32,
    /// The endpoints.
    pub endpoints: Vec<Endpoint>,
    /// The request descriptions.
    pub requests: Vec<Request>,
}

/// An endpoint as a mathematical value.
pub struct EndpointView {
    pub dc_latency: i32,
    pub caches: Seq<(usize, i32)>,
}

/// A problem instance as a mathematical value.
pub struct ProblemView {
    pub video_sizes: Seq<i32>,
    pub n_cache: usize,
    pub capacity: i32,
    pub endpoints: Seq<EndpointView>,
    pub requests: Seq<Request>,
}

impl View for Endpoint {
    type V = EndpointView;

    open spec fn view(&self) -> EndpointView {
        EndpointView { dc_latency: self.dc_latency, caches: self.caches@ }
    }
}

impl View for Problem {
    type V = ProblemView;

    open spec fn view(&self) -> ProblemView {
        ProblemView {
            video_sizes: self.video_sizes@,
            n_cache: self.n_cache,
            capacity: self.capacity,
            endpoints: self.endpoints@.map_values(|e: Endpoint| e@),
            requests: self.requests@,
        }
    }
}

/// One step of the greedy placement: a video stored on a server, with the
/// score the pair had when it was chosen.
#[derive(Clone, Copy, Debug, PartialEq, Eq, Structural)]
pub struct Placement {
    pub server: usize,
    pub video: usize,
    pub score: i128,
}

/// The largest count that the input format can express.
pub const MAX_COUNT: usize = 0x7fff_ffff;

/// Integer division that rounds towards zero.
pub open spec fn trunc_div(a: int, b: int) -> int
    recommends
        b != 0,
{
    if a >= 0 && b > 0 {
        a / b
    } else if a < 0 && b > 0 {
        -((-a) / b)
    } else if a >= 0 {
        -(a / (-b))
    } else {
        (-a) / (-b)
    }
}

impl Endpoint {
    /// The latency to server `s` according to the first `k` links: that of
    /// the last link to `s` among them.
    pub open spec fn latency_upto(&self, s: int, k: int) -> Option<i32>
        decreases k,
    {
        if k <= 0 {
            None
        } else if self.caches@[k - 1].0 == s {
            Some(self.caches@[k - 1].1)
        } else {
            self.latency_upto(s, k - 1)
        }
    }

    /// The latency from this endpoint to server `s`, if they are linked.
    pub open spec fn latency(&self, s: int) -> Option<i32> {
        self.latency_upto(s, self.caches@.len() as int)
    }

    /// How many of the first `k` links lead to server `s`.
    pub open spec fn links_upto(&self, s: int, k: int) -> nat
        decreases k,
    {
        if k <= 0 {
            0
        } else {
            self.links_upto(s, k - 1) + if self.caches@[k - 1].0 == s {
                1nat
            } else {
                0nat
            }
        }
    }

    /// How many times server `s` is listed for this endpoint.
    pub open spec fn links(&self, s: int) -> nat {
        self.links_upto(s, self.caches@.len() as int)
    }

    /// A server is linked exactly when it has a latency, and no more often
    /// than there are links.
    pub proof fn lemma_links(&self, s: int, k: int)
        requires
            0 <= k <= self.caches@.len(),
        ensures
            self.links_upto(s, k) <= k,
            self.links_upto(s, k) > 0 <==> self.latency_upto(s, k) is Some,
        decreases k,
    {
        if k > 0 {
            self.lemma_links(s, k - 1);
        }
    }
}

impl Problem {
    /// The instance is one that the input format can express and on which
    /// the placement ends: counts fit the format, videos have a positive
    /// size, and links and requests name servers and endpoints that exist.
    pub open spec fn wf(&self) -> bool {
        &&& self.video_sizes@.len() <= MAX_COUNT
        &&& self.n_cache <= MAX_COUNT
        &&& self.endpoints@.len() <= MAX_COUNT
        &&& self.requests@.len() <= MAX_COUNT
        &&& forall|v: int| 0 <= v < self.video_sizes@.len() ==> #[trigger] self.video_sizes@[v] >= 1
        &&& forall|e: int|
            0 <= e < self.endpoints@.len() ==> (#[trigger] self.endpoints@[e]).caches@.len()
                <= MAX_COUNT
        &&& forall|e: int, k: int|
            0 <= e < self.endpoints@.len() && 0 <= k < self.endpoints@[e].caches@.len() ==> (
            #[trigger] self.endpoints@[e].caches@[k]).0 < self.n_cache
        &&& forall|r: int|
            0 <= r < self.requests@.len() ==> (#[trigger] self.requests@[r]).endpoint
                < self.endpoints@.len()
    }

    /// Whether the instance is well formed: see [`Problem::wf`].
    pub fn is_valid(&self) -> (r: bool)
        ensures
            r == self.wf(),
    {
        if self.video_sizes.len() > MAX_COUNT || self.n_cache > MAX_COUNT || self.endpoints.len()
            > MAX_COUNT || self.requests.len() > MAX_COUNT {
            return false;
        }
        let mut v: usize = 0;
        while v < self.video_sizes.len()
            invariant
                v <= self.video_sizes@.len(),
                forall|j: int| 0 <= j < v ==> #[trigger] self.video_sizes@[j] >= 1,
            decreases self.video_sizes@.len() - v,
        {
            if self.video_sizes[v] < 1 {
                return false;
            }
            v = v + 1;
        }
        let mut e: usize = 0;
        while e < self.endpoints.len()
            invariant
                e <= self.endpoints@.len(),
                forall|j: int|
                    0 <= j < e ==> (#[trigger] self.endpoints@[j]).caches@.len() <= MAX_COUNT,
                forall|j: int, k: int|
                    0 <= j < e && 0 <= k < self.endpoints@[j].caches@.len() ==> (
                    #[trigger] self.endpoints@[j].caches@[k]).0 < self.n_cache,
            decreases self.endpoints@.len() - e,
        {
            let caches = &self.endpoints[e].caches;
            if caches.len() > MAX_COUNT {
                return false;
            }
            let mut k: usize = 0;
            while k < caches.len()
                invariant
                    e < self.endpoints@.len(),
                    *caches == self.endpoints@[e as int].caches,
                    k <= caches@.len(),
                    forall|m: int| 0 <= m < k ==> (#[trigger] caches@[m]).0 < self.n_cache,
                decreases caches@.len() - k,
            {
                if caches[k].0 >= self.n_cache {
                    assert(!(self.endpoints@[e as int].caches@[k as int].0 < self.n_cache));
                    return false;
                }
                k = k + 1;
            }
            e = e + 1;
        }
        let mut r: usize = 0;
        while r < self.requests.len()
            invariant
                r <= self.requests@.len(),
                forall|j: int|
                    0 <= j < r ==> (#[trigger] self.requests@[j]).endpoint
                        < self.endpoints@.len(),
            decreases self.requests@.len() - r,
        {
            if self.requests[r].endpoint >= self.endpoints.len() {
                return false;
            }
            r = r + 1;
        }
        true
    }

    /// The endpoint that request `r` comes from.
    pub open spec fn endpoint_of(&self, r: int) -> Endpoint {
        self.endpoints@[self.requests@[r].endpoint as int]
    }

    /// Every server starts with the full capacity.
    pub open spec fn initial_caps(&self) -> Seq<i32> {
        Seq::new(self.n_cache as nat, |s: int| self.capacity)
    }

    /// Every request is first served from the data centre.
    pub open spec fn initial_best(&self) -> Seq<i32> {
        Seq::new(self.requests@.len(), |r: int| self.endpoint_of(r).dc_latency)
    }

    /// What request `r` gains, over all its links to server `s`, if its
    /// video is stored there, given the best latency `best` of each
    /// request so far.
    pub open spec fn gain(&self, best: Seq<i32>, r: int, s: int) -> int {
        match self.endpoint_of(r).latency(s) {
            Some(l) => if best[r] > l {
                (best[r] - l) * self.requests@[r].n_requests * self.endpoint_of(r).links(s)
            } else {
                0
            },
            None => 0,
        }
    }

    /// The gain of the first `k` requests, taking those for video `v` only.
    pub open spec fn raw_score_upto(&self, best: Seq<i32>, s: int, v: int, k: int) -> int
        decreases k,
    {
        if k <= 0 {
            0
        } else {
            self.raw_score_upto(best, s, v, k - 1) + if self.requests@[k - 1].video == v {
                self.gain(best, k - 1, s)
            } else {
                0
            }
        }
    }

    /// The score of storing video `v` on server `s`: the gain of all
    /// requests per unit of size.
    pub open spec fn score(&self, best: Seq<i32>, s: int, v: int) -> int {
        trunc_div(
            self.raw_score_upto(best, s, v, self.requests@.len() as int),
            self.video_sizes@[v] as int,
        )
    }

    /// Video `v` still fits on server `s`.
    pub open spec fn feasible(&self, caps: Seq<i32>, s: int, v: int) -> bool {
        &&& 0 <= s < self.n_cache
        &&& 0 <= v < self.video_sizes@.len()
        &&& caps[s] >= self.video_sizes@[v]
    }

    /// The pair `(s, v)` is the one to place next: it fits, its score is not
    /// negative, and no pair that fits has a higher score, or the same
    /// score and a higher server, or both the same and a higher video.
    pub open spec fn is_choice(&self, caps: Seq<i32>, best: Seq<i32>, s: int, v: int) -> bool {
        &&& self.feasible(caps, s, v)
        &&& self.score(best, s, v) >= 0
        &&& forall|s2: int, v2: int| #[trigger]
            self.feasible(caps, s2, v2) ==> key_le(
                (self.score(best, s2, v2), s2, v2),
                (self.score(best, s, v), s, v),
            )
    }

    /// Some pair can be placed next.
    pub open spec fn has_choice(&self, caps: Seq<i32>, best: Seq<i32>) -> bool {
        exists|c: (int, int)| self.is_choice(caps, best, c.0, c.1)
    }

    /// The pair to place next.
    pub open spec fn choice(&self, caps: Seq<i32>, best: Seq<i32>) -> (int, int) {
        choose|c: (int, int)| self.is_choice(caps, best, c.0, c.1)
    }

    /// The capacities after video `v` went to server `s`.
    pub open spec fn caps_after(&self, caps: Seq<i32>, s: int, v: int) -> Seq<i32> {
        caps.update(s, (caps[s] - self.video_sizes@[v]) as i32)
    }

    /// The best latency of request `r` after video `v` went to server `s`.
    pub open spec fn improved(&self, best: Seq<i32>, r: int, s: int, v: int) -> i32 {
        if self.requests@[r].video == v {
            match self.endpoint_of(r).latency(s) {
                Some(l) => if l < best[r] { l } else { best[r] },
                None => best[r],
            }
        } else {
            best[r]
        }
    }

    /// The best latencies after video `v` went to server `s`.
    pub open spec fn best_after(&self, best: Seq<i32>, s: int, v: int) -> Seq<i32> {
        Seq::new(best.len(), |r: int| self.improved(best, r, s, v))
    }

    /// The placements that the greedy rule makes from the given state on,
    /// in order, until no pair can be placed.
    pub open spec fn greedy(&self, caps: Seq<i32>, best: Seq<i32>) -> Seq<Placement>
        decreases slack(caps),
        when self.wf() && caps.len() == self.n_cache
        via Self::greedy_decreases
    {
        if self.has_choice(caps, best) {
            let (s, v) = self.choice(caps, best);
            seq![
                Placement {
                    server: s as usize,
                    video: v as usize,
                    score: self.score(best, s, v) as i128,
                },
            ] + self.greedy(self.caps_after(caps, s, v), self.best_after(best, s, v))
        } else {
            Seq::empty()
        }
    }

    #[via_fn]
    proof fn greedy_decreases(&self, caps: Seq<i32>, best: Seq<i32>) {
        if self.has_choice(caps, best) {
            let (s, v) = self.choice(caps, best);
            assert(self.is_choice(caps, best, s, v));
            self.lemma_caps_after(caps, s, v);
        }
    }

    /// Placing a pair that fits uses up capacity and leaves none negative
    /// that was not.
    pub proof fn lemma_caps_after(&self, caps: Seq<i32>, s: int, v: int)
        requires
            self.wf(),
            caps.len() == self.n_cache,
            self.feasible(caps, s, v),
        ensures
            self.caps_after(caps, s, v).len() == caps.len(),
            slack(self.caps_after(caps, s, v)) == slack(caps) - self.video_sizes@[v],
            slack(self.caps_after(caps, s, v)) < slack(caps),
    {
        lemma_slack_update(caps, s, (caps[s] - self.video_sizes@[v]) as i32);
    }

    /// At most one pair is the one to place next.
    pub proof fn lemma_choice_unique(&self, caps: Seq<i32>, best: Seq<i32>, s: int, v: int)
        requires
            self.is_choice(caps, best, s, v),
        ensures
            self.has_choice(caps, best),
            self.choice(caps, best) == (s, v),
    {
        let c = (s, v);
        assert(self.is_choice(caps, best, c.0, c.1));
        let d = self.choice(caps, best);
        assert(self.is_choice(caps, best, d.0, d.1));
        assert(self.feasible(caps, d.0, d.1));
        assert(self.feasible(caps, s, v));
    }
}

/// Lexicographic order on (score, server, video).
pub open spec fn key_le(a: (int, int, int), b: (int, int, int)) -> bool {
    a.0 < b.0 || (a.0 == b.0 && (a.1 < b.1 || (a.1 == b.1 && a.2 <= b.2)))
}

/// The capacity that is left over all servers, counting none below zero.
pub open spec fn slack(caps: Seq<i32>) -> nat
    decreases caps.len(),
{
    if caps.len() == 0 {
        0
    } else {
        slack(caps.drop_last()) + if caps.last() > 0 {
            caps.last() as nat
        } else {
            0nat
        }
    }
}

/// Changing one capacity changes the slack by as much.
pub proof fn lemma_slack_update(caps: Seq<i32>, s: int, c: i32)
    requires
        0 <= s < caps.len(),
    ensures
        slack(caps.update(s, c)) == slack(caps) - (if caps[s] > 0 {
            caps[s] as int
        } else {
            0
        }) + (if c > 0 {
            c as int
        } else {
            0
        }),
    decreases caps.len(),
{
    let after = caps.update(s, c);
    if s == caps.len() - 1 {
        assert(after.drop_last() =~= caps.drop_last());
    } else {
        lemma_slack_update(caps.drop_last(), s, c);
        assert(after.drop_last() =~= caps.drop_last().update(s, c));
    }
}

} // verus!
