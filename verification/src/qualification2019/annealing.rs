//! The integer side of reordering a show of horizontal photos by
//! simulated annealing: the interest of a show, what reversing a stretch
//! of it changes, and the best of some reversals drawn at random.

use vstd::prelude::*;
use crate::qualification2019::random::{random_below, shuffle};

verus! {

/// The interest that `list` gives for going to photo `to`, looking from
/// entry `k` on: that of the first entry for `to`, or 0 without one.
pub open spec fn edge_from(list: Seq<(usize, i32)>, to: int, k: int) -> int
    decreases list.len() - k,
{
    if k < 0 || k >= list.len() {
        0
    } else if list[k].0 == to {
        list[k].1 as int
    } else {
        edge_from(list, to, k + 1)
    }
}

/// The interest of showing photo `b` after photo `a`.
pub open spec fn edge(graph: Seq<Vec<(usize, i32)>>, a: int, b: int) -> int {
    edge_from(graph[a]@, b, 0)
}

/// The interest of the part of the show from place `a` to place `b`.
pub open spec fn stretch(graph: Seq<Vec<(usize, i32)>>, order: Seq<usize>, a: int, b: int) -> int
    decreases b - a,
{
    if b <= a {
        0
    } else {
        stretch(graph, order, a, b - 1) + edge(graph, order[b - 1] as int, order[b] as int)
    }
}

/// The interest of the whole show.
pub open spec fn path_score(graph: Seq<Vec<(usize, i32)>>, order: Seq<usize>) -> int {
    stretch(graph, order, 0, order.len() - 1)
}

/// The show with the photos from place `i` to place `j` in reverse order.
pub open spec fn reversed(order: Seq<usize>, i: int, j: int) -> Seq<usize> {
    Seq::new(
        order.len(),
        |k: int|
            if i <= k <= j {
                order[i + j - k]
            } else {
                order[k]
            },
    )
}

/// What reversing the photos from place `i` to place `j` changes at the
/// two ends of the stretch.
pub open spec fn reversal_delta(graph: Seq<Vec<(usize, i32)>>, order: Seq<usize>, i: int, j: int)
    -> int {
    (if i > 0 {
        edge(graph, order[i - 1] as int, order[j] as int) - edge(
            graph,
            order[i - 1] as int,
            order[i] as int,
        )
    } else {
        0
    }) + (if j < order.len() - 1 {
        edge(graph, order[i] as int, order[j + 1] as int) - edge(
            graph,
            order[j] as int,
            order[j + 1] as int,
        )
    } else {
        0
    })
}

/// Showing two photos has the same interest in either order.
pub open spec fn symmetric(graph: Seq<Vec<(usize, i32)>>) -> bool {
    forall|a: int, b: int|
        0 <= a < graph.len() && 0 <= b < graph.len() ==> #[trigger] edge(graph, a, b) == edge(
            graph,
            b,
            a,
        )
}

/// Every place of the show holds a photo of the graph.
pub open spec fn in_graph(graph: Seq<Vec<(usize, i32)>>, order: Seq<usize>) -> bool {
    forall|k: int| 0 <= k < order.len() ==> (#[trigger] order[k]) < graph.len()
}

/// The interest of a stretch is that of its two parts.
pub proof fn lemma_stretch_split(
    graph: Seq<Vec<(usize, i32)>>,
    order: Seq<usize>,
    a: int,
    m: int,
    b: int,
)
    requires
        a <= m <= b,
    ensures
        stretch(graph, order, a, b) == stretch(graph, order, a, m) + stretch(graph, order, m, b),
    decreases b - m,
{
    if b > m {
        lemma_stretch_split(graph, order, a, m, b - 1);
    }
}

/// Shows that agree on a stretch give it the same interest.
pub proof fn lemma_stretch_agree(
    graph: Seq<Vec<(usize, i32)>>,
    x: Seq<usize>,
    y: Seq<usize>,
    a: int,
    b: int,
)
    requires
        forall|k: int| a <= k <= b ==> x[k] == y[k],
    ensures
        stretch(graph, x, a, b) == stretch(graph, y, a, b),
    decreases b - a,
{
    if b > a {
        lemma_stretch_agree(graph, x, y, a, b - 1);
    }
}

/// Where the interest is the same in either order, a stretch shown
/// backwards has the interest of the stretch.
pub proof fn lemma_stretch_reversed(
    graph: Seq<Vec<(usize, i32)>>,
    order: Seq<usize>,
    i: int,
    j: int,
    d: int,
)
    requires
        symmetric(graph),
        in_graph(graph, order),
        0 <= i <= j < order.len(),
        0 <= d <= j - i,
    ensures
        stretch(graph, reversed(order, i, j), i, i + d) == stretch(graph, order, j - d, j),
    decreases d,
{
    if d > 0 {
        let r = reversed(order, i, j);
        lemma_stretch_reversed(graph, order, i, j, d - 1);
        lemma_stretch_split(graph, order, j - d, j - d + 1, j);
        assert(stretch(graph, order, j - d, j - d + 1) == stretch(graph, order, j - d, j - d)
            + edge(graph, order[j - d] as int, order[j - d + 1] as int));
        assert(r[i + d - 1] == order[j - d + 1]);
        assert(r[i + d] == order[j - d]);
        assert(edge(graph, order[j - d + 1] as int, order[j - d] as int) == edge(
            graph,
            order[j - d] as int,
            order[j - d + 1] as int,
        ));
    }
}

/// Where the interest of showing two photos is the same in either order,
/// reversing a stretch of the show changes its interest by what changes
/// at the two ends of the stretch.
pub proof fn lemma_reversal_delta(
    graph: Seq<Vec<(usize, i32)>>,
    order: Seq<usize>,
    i: int,
    j: int,
)
    requires
        symmetric(graph),
        in_graph(graph, order),
        0 <= i <= j < order.len(),
    ensures
        path_score(graph, reversed(order, i, j)) == path_score(graph, order) + reversal_delta(
            graph,
            order,
            i,
            j,
        ),
{
    let r = reversed(order, i, j);
    let n = order.len() as int;
    lemma_stretch_split(graph, order, 0, i, n - 1);
    lemma_stretch_split(graph, order, i, j, n - 1);
    lemma_stretch_split(graph, r, 0, i, n - 1);
    lemma_stretch_split(graph, r, i, j, n - 1);
    lemma_stretch_reversed(graph, order, i, j, j - i);
    if i > 0 {
        lemma_stretch_agree(graph, r, order, 0, i - 1);
        assert(r[i - 1] == order[i - 1]);
        assert(r[i] == order[j]);
    }
    if j < n - 1 {
        lemma_stretch_split(graph, order, j, j + 1, n - 1);
        lemma_stretch_split(graph, r, j, j + 1, n - 1);
        lemma_stretch_agree(graph, r, order, j + 1, n - 1);
        assert(stretch(graph, order, j, j + 1) == stretch(graph, order, j, j) + edge(
            graph,
            order[j] as int,
            order[j + 1] as int,
        ));
        assert(stretch(graph, r, j, j + 1) == stretch(graph, r, j, j) + edge(
            graph,
            r[j] as int,
            r[j + 1] as int,
        ));
        assert(r[j] == order[i]);
        assert(r[j + 1] == order[j + 1]);
    }
}

/// The interest of showing photo `id2` after photo `id1`.
pub fn get_score_ids(graph: &Vec<Vec<(usize, i32)>>, id1: usize, id2: usize) -> (r: i32)
    requires
        id1 < graph@.len(),
    ensures
        r == edge(graph@, id1 as int, id2 as int),
{
    let list = &graph[id1];
    let mut k: usize = 0;
    while k < list.len()
        invariant
            k <= list@.len(),
            *list == graph@[id1 as int],
            edge_from(list@, id2 as int, 0) == edge_from(list@, id2 as int, k as int),
        decreases list@.len() - k,
    {
        if list[k].0 == id2 {
            return list[k].1;
        }
        k = k + 1;
    }
    0
}

/// The interest of the whole show.
pub fn total_score(graph: &Vec<Vec<(usize, i32)>>, order: &Vec<usize>) -> (r: i64)
    requires
        in_graph(graph@, order@),
        order@.len() <= u32::MAX,
    ensures
        r == path_score(graph@, order@),
{
    let n = order.len();
    let mut total: i64 = 0;
    let mut k: usize = 1;
    while k < n
        invariant
            1 <= k,
            k <= n || n == 0,
            n == 0 ==> k == 1,
            n == order@.len(),
            n <= u32::MAX,
            in_graph(graph@, order@),
            total == stretch(graph@, order@, 0, k - 1),
            -(k * 0x8000_0000) <= total <= k * 0x8000_0000,
        decreases n - k,
    {
        total = total + get_score_ids(graph, order[k - 1], order[k]) as i64;
        k = k + 1;
    }
    total
}

/// What reversing the photos from place `id1` to place `id2` changes.
pub fn delta_score(graph: &Vec<Vec<(usize, i32)>>, order: &Vec<usize>, id1: usize, id2: usize)
    -> (r: i64)
    requires
        in_graph(graph@, order@),
        id1 <= id2 < order@.len(),
    ensures
        r == reversal_delta(graph@, order@, id1 as int, id2 as int),
        -0x2_0000_0000 <= r <= 0x2_0000_0000,
{
    let mut delta: i64 = 0;
    if id1 > 0 {
        delta = delta - get_score_ids(graph, order[id1 - 1], order[id1]) as i64;
        delta = delta + get_score_ids(graph, order[id1 - 1], order[id2]) as i64;
    }
    if id2 < order.len() - 1 {
        delta = delta - get_score_ids(graph, order[id2], order[id2 + 1]) as i64;
        delta = delta + get_score_ids(graph, order[id1], order[id2 + 1]) as i64;
    }
    delta
}

/// Order on (change, first place, last place): by the change, then by the
/// places.
pub open spec fn triple_le(a: (int, int, int), b: (int, int, int)) -> bool {
    a.0 < b.0 || (a.0 == b.0 && (a.1 < b.1 || (a.1 == b.1 && a.2 <= b.2)))
}

/// The two places of a pair, the lower one first.
pub open spec fn ordered(pair: (usize, usize)) -> (int, int) {
    if pair.0 > pair.1 {
        (pair.1 as int, pair.0 as int)
    } else {
        (pair.0 as int, pair.1 as int)
    }
}

/// The best of the first `k` candidates: the reversal with the highest
/// change, and among equals the one with the higher places. Without a
/// candidate that changes more than the least number of its kind, it is
/// that number with the places 0 and 0.
pub open spec fn best_upto(
    graph: Seq<Vec<(usize, i32)>>,
    order: Seq<usize>,
    candidates: Seq<(usize, usize)>,
    k: int,
) -> (int, int, int)
    decreases k,
{
    if k <= 0 {
        (i32::MIN as int, 0, 0)
    } else {
        let prev = best_upto(graph, order, candidates, k - 1);
        let c = ordered(candidates[k - 1]);
        let cur = (reversal_delta(graph, order, c.0, c.1), c.0, c.1);
        if triple_le(prev, cur) {
            cur
        } else {
            prev
        }
    }
}

/// The best of the candidate reversals: see [`best_upto`].
pub fn best_reversal(
    graph: &Vec<Vec<(usize, i32)>>,
    order: &Vec<usize>,
    candidates: &Vec<(usize, usize)>,
) -> (r: (i64, usize, usize))
    requires
        in_graph(graph@, order@),
        forall|k: int|
            0 <= k < candidates@.len() ==> (#[trigger] candidates@[k]).0 < order@.len()
                && candidates@[k].1 < order@.len(),
    ensures
        (r.0 as int, r.1 as int, r.2 as int) == best_upto(
            graph@,
            order@,
            candidates@,
            candidates@.len() as int,
        ),
{
    let mut best: (i64, usize, usize) = (i32::MIN as i64, 0, 0);
    let mut k: usize = 0;
    while k < candidates.len()
        invariant
            k <= candidates@.len(),
            in_graph(graph@, order@),
            forall|m: int|
                0 <= m < candidates@.len() ==> (#[trigger] candidates@[m]).0 < order@.len()
                    && candidates@[m].1 < order@.len(),
            (best.0 as int, best.1 as int, best.2 as int) == best_upto(
                graph@,
                order@,
                candidates@,
                k as int,
            ),
        decreases candidates@.len() - k,
    {
        let (a, b) = candidates[k];
        let (id1, id2) = if a > b { (b, a) } else { (a, b) };
        let delta = delta_score(graph, order, id1, id2);
        if best.0 < delta || (best.0 == delta && (best.1 < id1 || (best.1 == id1 && best.2
            <= id2))) {
            best = (delta, id1, id2);
        }
        k = k + 1;
    }
    best
}

/// Draws `count` pairs of places of a show of `n` photos at random.
pub fn draw_candidates(n: usize, count: i32) -> (r: Vec<(usize, usize)>)
    requires
        n > 0,
    ensures
        r@.len() == if count > 0 {
            count as int
        } else {
            0
        },
        forall|k: int| 0 <= k < r@.len() ==> (#[trigger] r@[k]).0 < n && r@[k].1 < n,
{
    let mut out: Vec<(usize, usize)> = Vec::new();
    let mut k: i32 = 0;
    while k < count
        invariant
            n > 0,
            0 <= k,
            k <= count || k == 0,
            out@.len() == k,
            forall|m: int| 0 <= m < out@.len() ==> (#[trigger] out@[m]).0 < n && out@[m].1 < n,
        decreases count - k,
    {
        let id1 = random_below(n);
        let id2 = random_below(n);
        out.push((id1, id2));
        k = k + 1;
    }
    out
}

/// The best of `count` reversals drawn at random.
pub fn pick_reversal(graph: &Vec<Vec<(usize, i32)>>, order: &Vec<usize>, count: i32) -> (r: (
    i64,
    usize,
    usize,
))
    requires
        in_graph(graph@, order@),
        order@.len() > 0,
    ensures
        exists|candidates: Seq<(usize, usize)>|
            {
                &&& candidates.len() == if count > 0 {
                    count as int
                } else {
                    0
                }
                &&& forall|k: int|
                    0 <= k < candidates.len() ==> (#[trigger] candidates[k]).0 < order@.len()
                        && candidates[k].1 < order@.len()
                &&& (r.0 as int, r.1 as int, r.2 as int) == best_upto(
                    graph@,
                    order@,
                    candidates,
                    candidates.len() as int,
                )
            },
{
    let candidates = draw_candidates(order.len(), count);
    best_reversal(graph, order, &candidates)
}

/// Puts the photos from place `i` to place `j` in reverse order.
pub fn apply_reversal(order: &mut Vec<usize>, i: usize, j: usize)
    requires
        i <= j < old(order)@.len(),
    ensures
        final(order)@ == reversed(old(order)@, i as int, j as int),
{
    let ghost before = order@;
    let mut a = i;
    let mut b = j;
    while a < b
        invariant
            i <= a,
            b <= j < before.len(),
            a + b == i + j,
            a <= b + 1,
            order@.len() == before.len(),
            forall|k: int|
                0 <= k < before.len() ==> #[trigger] order@[k] == if (i <= k < a) || (b < k <= j) {
                    before[i + j - k]
                } else {
                    before[k]
                },
        decreases j - a,
    {
        let x = order[a];
        let y = order[b];
        order.set(a, y);
        order.set(b, x);
        a = a + 1;
        b = b - 1;
    }
    assert(order@ =~= reversed(before, i as int, j as int));
}

/// Takes or leaves the reversal of the photos from place `i` to place
/// `j`, which changes the interest by `delta`. Returns the interest of
/// the show afterwards.
pub fn apply_move(
    order: &mut Vec<usize>,
    total: i64,
    delta: i64,
    i: usize,
    j: usize,
    take: bool,
) -> (r: i64)
    requires
        i <= j < old(order)@.len(),
        i64::MIN <= total + delta <= i64::MAX,
    ensures
        final(order)@ == if take {
            reversed(old(order)@, i as int, j as int)
        } else {
            old(order)@
        },
        r == if take {
            total + delta
        } else {
            total as int
        },
{
    if take {
        apply_reversal(order, i, j);
        total + delta
    } else {
        total
    }
}

/// The photos `0..n` in their order.
pub open spec fn in_order(n: nat) -> Seq<usize> {
    Seq::new(n, |k: int| k as usize)
}

/// The photos `0..n` in a random order.
pub fn random_order(n: usize) -> (r: Vec<usize>)
    ensures
        r@.to_multiset() == in_order(n as nat).to_multiset(),
        r@.len() == n,
        forall|k: int| 0 <= k < r@.len() ==> (#[trigger] r@[k]) < n,
{
    let mut order: Vec<usize> = Vec::new();
    let mut k: usize = 0;
    while k < n
        invariant
            k <= n,
            order@.len() == k,
            forall|m: int| 0 <= m < k ==> #[trigger] order@[m] == m,
        decreases n - k,
    {
        order.push(k);
        k = k + 1;
    }
    assert(order@ =~= in_order(n as nat));
    let ghost before = order@;
    shuffle(&mut order);
    proof {
        before.to_multiset_ensures();
        order@.to_multiset_ensures();
        assert forall|m: int| 0 <= m < order@.len() implies (#[trigger] order@[m]) < n by {
            let x = order@[m];
            assert(order@.contains(x));
            assert(order@.to_multiset().count(x) > 0);
            assert(before.to_multiset().count(x) > 0);
            assert(before.contains(x));
            let w = choose|w: int| 0 <= w < before.len() && before[w] == x;
            assert(before[w] == w);
        }
    }
    order
}

} // verus!
