//! Reading a problem instance from its text.

use vstd::prelude::*;
use crate::helpers::red::{after_token, lemma_repeat_stops, read_spec, repeat, Red};
use crate::qualification2017::model::{Endpoint, EndpointView, Problem, ProblemView, Request};

verus! {

/// The integer that a reader standing at `pos` reads, and where it then
/// stands; `None` where the next token is no 32-bit integer.
pub open spec fn int_at(s: Seq<u8>, pos: int) -> Option<(i32, int)> {
    match read_spec::<i32>(s, pos) {
        Ok(v) => Some((v, after_token(s, pos))),
        Err(_) => None,
    }
}

/// The size of one video: a positive integer.
pub open spec fn size_at(s: Seq<u8>, pos: int) -> Option<(i32, int)> {
    match int_at(s, pos) {
        Some((v, p)) => if v >= 1 {
            Some((v, p))
        } else {
            None
        },
        None => None,
    }
}

/// One link of an endpoint: the id of a cache server that exists, and the
/// latency to it.
pub open spec fn link_at(s: Seq<u8>, pos: int, n_cache: int) -> Option<((usize, i32), int)> {
    match int_at(s, pos) {
        Some((cache, p1)) => match int_at(s, p1) {
            Some((latency, p2)) => if 0 <= cache < n_cache {
                Some(((cache as usize, latency), p2))
            } else {
                None
            },
            None => None,
        },
        None => None,
    }
}

/// One endpoint: the latency to the data centre, the number of links, and
/// the links. A negative number of links counts as none.
pub open spec fn endpoint_at(s: Seq<u8>, pos: int, n_cache: int) -> Option<(EndpointView, int)> {
    match int_at(s, pos) {
        Some((dc_latency, p1)) => match int_at(s, p1) {
            Some((n_links, p2)) => match repeat(
                s,
                p2,
                (if n_links > 0 {
                    n_links as nat
                } else {
                    0nat
                }),
                |s: Seq<u8>, p: int| link_at(s, p, n_cache),
            ) {
                Some((caches, p3)) => Some((EndpointView { dc_latency, caches }, p3)),
                None => None,
            },
            None => None,
        },
        None => None,
    }
}

/// One request description: a video id, the id of an endpoint that exists,
/// and the number of requests.
pub open spec fn request_at(s: Seq<u8>, pos: int, n_endpoints: int) -> Option<(Request, int)> {
    match int_at(s, pos) {
        Some((video, p1)) => match int_at(s, p1) {
            Some((endpoint, p2)) => match int_at(s, p2) {
                Some((n_requests, p3)) => if 0 <= endpoint < n_endpoints {
                    Some((Request { video, endpoint: endpoint as usize, n_requests }, p3))
                } else {
                    None
                },
                None => None,
            },
            None => None,
        },
        None => None,
    }
}

/// The problem instance that the text `s` describes: five integers (the
/// numbers of videos, endpoints, request descriptions and cache servers,
/// and the capacity of a server), the sizes of the videos, the endpoints,
/// and the request descriptions. `None` where a token is missing or is no
/// 32-bit integer, a count is negative, a size is not positive, or a
/// server or endpoint is named that does not exist. What follows the last
/// request description is not read.
pub open spec fn problem_of(s: Seq<u8>) -> Option<ProblemView> {
    match int_at(s, 0) {
        Some((n_videos, p1)) => match int_at(s, p1) {
            Some((n_endpoints, p2)) => match int_at(s, p2) {
                Some((n_requests, p3)) => match int_at(s, p3) {
                    Some((n_cache, p4)) => match int_at(s, p4) {
                        Some((capacity, p5)) => if n_videos < 0 || n_endpoints < 0 || n_requests < 0
                            || n_cache < 0 {
                            None
                        } else {
                            match repeat(
                                s,
                                p5,
                                n_videos as nat,
                                |s: Seq<u8>, p: int| size_at(s, p),
                            ) {
                                Some((video_sizes, p6)) => match repeat(
                                    s,
                                    p6,
                                    n_endpoints as nat,
                                    |s: Seq<u8>, p: int| endpoint_at(s, p, n_cache as int),
                                ) {
                                    Some((endpoints, p7)) => match repeat(
                                        s,
                                        p7,
                                        n_requests as nat,
                                        |s: Seq<u8>, p: int| request_at(s, p, n_endpoints as int),
                                    ) {
                                        Some((requests, p8)) => Some(
                                            ProblemView {
                                                video_sizes,
                                                n_cache: n_cache as usize,
                                                capacity,
                                                endpoints,
                                                requests,
                                            },
                                        ),
                                        None => None,
                                    },
                                    None => None,
                                },
                                None => None,
                            }
                        },
                        None => None,
                    },
                    None => None,
                },
                None => None,
            },
            None => None,
        },
        None => None,
    }
}

/// Reads one integer.
fn read_int(red: &mut Red) -> (r: Option<i32>)
    ensures
        final(red).bytes() == old(red).bytes(),
        match r {
            Some(v) => int_at(old(red).bytes(), old(red).pos()) == Some((v, final(red).pos())),
            None => int_at(old(red).bytes(), old(red).pos()) is None,
        },
{
    match red.try_read::<i32>() {
        Ok(v) => Some(v),
        Err(_) => None,
    }
}

/// Reads one link.
fn read_link(red: &mut Red, n_cache: usize) -> (r: Option<(usize, i32)>)
    ensures
        final(red).bytes() == old(red).bytes(),
        match r {
            Some(v) => link_at(old(red).bytes(), old(red).pos(), n_cache as int) == Some(
                (v, final(red).pos()),
            ),
            None => link_at(old(red).bytes(), old(red).pos(), n_cache as int) is None,
        },
{
    let cache = match read_int(red) {
        Some(v) => v,
        None => {
            return None;
        },
    };
    let latency = match read_int(red) {
        Some(v) => v,
        None => {
            return None;
        },
    };
    if 0 <= cache && (cache as usize) < n_cache {
        Some((cache as usize, latency))
    } else {
        None
    }
}

/// Reads one endpoint.
fn read_endpoint(red: &mut Red, n_cache: usize) -> (r: Option<Endpoint>)
    ensures
        final(red).bytes() == old(red).bytes(),
        match r {
            Some(e) => endpoint_at(old(red).bytes(), old(red).pos(), n_cache as int) == Some(
                (e@, final(red).pos()),
            ),
            None => endpoint_at(old(red).bytes(), old(red).pos(), n_cache as int) is None,
        },
        r matches Some(e) ==> e.caches@.len() <= i32::MAX && forall|k: int|
            0 <= k < e.caches@.len() ==> (#[trigger] e.caches@[k]).0 < n_cache,
{
    let ghost s = red.bytes();
    let dc_latency = match read_int(red) {
        Some(v) => v,
        None => {
            return None;
        },
    };
    let n_links = match read_int(red) {
        Some(v) => v,
        None => {
            return None;
        },
    };
    let n: usize = if n_links > 0 { n_links as usize } else { 0 };
    let ghost p2 = red.pos();
    let ghost one = |s: Seq<u8>, p: int| link_at(s, p, n_cache as int);
    let mut caches: Vec<(usize, i32)> = Vec::new();
    let mut i: usize = 0;
    while i < n
        invariant
            i <= n <= i32::MAX,
            red.bytes() == s,
            s == old(red).bytes(),
            one == |s: Seq<u8>, p: int| link_at(s, p, n_cache as int),
            repeat(s, p2, i as nat, one) == Some((caches@, red.pos())),
            repeat(s, p2, n as nat, one) is None ==> endpoint_at(s, old(red).pos(), n_cache as int)
                is None,
            forall|k: int| 0 <= k < caches@.len() ==> (#[trigger] caches@[k]).0 < n_cache,
            caches@.len() == i,
        decreases n - i,
    {
        match read_link(red, n_cache) {
            Some(link) => {
                caches.push(link);
            },
            None => {
                proof {
                    lemma_repeat_stops(s, p2, (i + 1) as nat, n as nat, one);
                }
                return None;
            },
        }
        i = i + 1;
    }
    Some(Endpoint { dc_latency, caches })
}

/// Reads one request description.
fn read_request(red: &mut Red, n_endpoints: usize) -> (r: Option<Request>)
    ensures
        final(red).bytes() == old(red).bytes(),
        match r {
            Some(v) => request_at(old(red).bytes(), old(red).pos(), n_endpoints as int) == Some(
                (v, final(red).pos()),
            ),
            None => request_at(old(red).bytes(), old(red).pos(), n_endpoints as int) is None,
        },
        r matches Some(v) ==> v.endpoint < n_endpoints,
{
    let video = match read_int(red) {
        Some(v) => v,
        None => {
            return None;
        },
    };
    let endpoint = match read_int(red) {
        Some(v) => v,
        None => {
            return None;
        },
    };
    let n_requests = match read_int(red) {
        Some(v) => v,
        None => {
            return None;
        },
    };
    if 0 <= endpoint && (endpoint as usize) < n_endpoints {
        Some(Request { video, endpoint: endpoint as usize, n_requests })
    } else {
        None
    }
}

/// Reads a problem instance from its text. The instance returned is well
/// formed.
pub fn try_read_problem(bytes: Vec<u8>) -> (r: Option<Problem>)
    ensures
        match r {
            Some(p) => problem_of(bytes@) == Some(p@) && p.wf(),
            None => problem_of(bytes@) is None,
        },
{
    let ghost s = bytes@;
    let mut red = Red::new(bytes);
    let n_videos = match read_int(&mut red) {
        Some(v) => v,
        None => {
            return None;
        },
    };
    let n_endpoints = match read_int(&mut red) {
        Some(v) => v,
        None => {
            return None;
        },
    };
    let n_requests = match read_int(&mut red) {
        Some(v) => v,
        None => {
            return None;
        },
    };
    let n_cache = match read_int(&mut red) {
        Some(v) => v,
        None => {
            return None;
        },
    };
    let capacity = match read_int(&mut red) {
        Some(v) => v,
        None => {
            return None;
        },
    };
    if n_videos < 0 || n_endpoints < 0 || n_requests < 0 || n_cache < 0 {
        return None;
    }
    let ghost p5 = red.pos();
    let ghost one_size = |s: Seq<u8>, p: int| size_at(s, p);
    let mut video_sizes: Vec<i32> = Vec::new();
    let mut i: usize = 0;
    while i < n_videos as usize
        invariant
            0 <= n_videos,
            i <= n_videos,
            red.bytes() == s,
            s == bytes@,
            one_size == |s: Seq<u8>, p: int| size_at(s, p),
            repeat(s, p5, i as nat, one_size) == Some((video_sizes@, red.pos())),
            repeat(s, p5, n_videos as nat, one_size) is None ==> problem_of(s) is None,
            video_sizes@.len() == i,
            forall|k: int| 0 <= k < i ==> #[trigger] video_sizes@[k] >= 1,
        decreases n_videos - i,
    {
        match read_int(&mut red) {
            Some(size) => {
                if size < 1 {
                    proof {
                        lemma_repeat_stops(s, p5, (i + 1) as nat, n_videos as nat, one_size);
                    }
                    return None;
                }
                video_sizes.push(size);
            },
            None => {
                proof {
                    lemma_repeat_stops(s, p5, (i + 1) as nat, n_videos as nat, one_size);
                }
                return None;
            },
        }
        i = i + 1;
    }
    let ghost p6 = red.pos();
    let ghost one_endpoint = |s: Seq<u8>, p: int| endpoint_at(s, p, n_cache as int);
    let mut endpoints: Vec<Endpoint> = Vec::new();
    let mut i: usize = 0;
    while i < n_endpoints as usize
        invariant
            0 <= n_endpoints,
            0 <= n_cache,
            i <= n_endpoints,
            red.bytes() == s,
            s == bytes@,
            one_endpoint == |s: Seq<u8>, p: int| endpoint_at(s, p, n_cache as int),
            repeat(s, p6, i as nat, one_endpoint) == Some(
                (endpoints@.map_values(|e: Endpoint| e@), red.pos()),
            ),
            repeat(s, p6, n_endpoints as nat, one_endpoint) is None ==> problem_of(s) is None,
            endpoints@.len() == i,
            forall|e: int|
                0 <= e < i ==> (#[trigger] endpoints@[e]).caches@.len() <= i32::MAX,
            forall|e: int, k: int|
                0 <= e < i && 0 <= k < endpoints@[e].caches@.len() ==> (
                #[trigger] endpoints@[e].caches@[k]).0 < n_cache,
        decreases n_endpoints - i,
    {
        let ghost before = endpoints@.map_values(|e: Endpoint| e@);
        match read_endpoint(&mut red, n_cache as usize) {
            Some(e) => {
                endpoints.push(e);
                proof {
                    assert(endpoints@.map_values(|e: Endpoint| e@) =~= before.push(e@));
                }
            },
            None => {
                proof {
                    lemma_repeat_stops(s, p6, (i + 1) as nat, n_endpoints as nat, one_endpoint);
                }
                return None;
            },
        }
        i = i + 1;
    }
    let ghost p7 = red.pos();
    let ghost one_request = |s: Seq<u8>, p: int| request_at(s, p, n_endpoints as int);
    let mut requests: Vec<Request> = Vec::new();
    let mut i: usize = 0;
    while i < n_requests as usize
        invariant
            0 <= n_requests,
            0 <= n_endpoints,
            i <= n_requests,
            red.bytes() == s,
            s == bytes@,
            one_request == |s: Seq<u8>, p: int| request_at(s, p, n_endpoints as int),
            repeat(s, p7, i as nat, one_request) == Some((requests@, red.pos())),
            repeat(s, p7, n_requests as nat, one_request) is None ==> problem_of(s) is None,
            requests@.len() == i,
            forall|k: int| 0 <= k < i ==> (#[trigger] requests@[k]).endpoint < n_endpoints,
        decreases n_requests - i,
    {
        match read_request(&mut red, n_endpoints as usize) {
            Some(request) => {
                requests.push(request);
            },
            None => {
                proof {
                    lemma_repeat_stops(s, p7, (i + 1) as nat, n_requests as nat, one_request);
                }
                return None;
            },
        }
        i = i + 1;
    }
    Some(Problem { video_sizes, n_cache: n_cache as usize, capacity, endpoints, requests })
}

/// Reads a problem instance from a text that describes one: see
/// [`problem_of`]. The instance returned is well formed.
pub fn read_problem(bytes: Vec<u8>) -> (p: Problem)
    requires
        problem_of(bytes@) is Some,
    ensures
        problem_of(bytes@) == Some(p@),
        p.wf(),
{
    match try_read_problem(bytes) {
        Some(p) => p,
        None => vstd::pervasive::unreached(),
    }
}

} // verus!
