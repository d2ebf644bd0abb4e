//! Tag lists: what two have in common, both together, and the interest of
//! showing one after the other.

use vstd::prelude::*;

verus! {

/// How many matches a walk through both lists finds from positions `i`
/// and `j` on, stepping over the smaller head and counting equal heads.
pub open spec fn common_from(a: Seq<u32>, b: Seq<u32>, i: int, j: int) -> nat
    decreases a.len() - i + b.len() - j,
{
    if i < 0 || j < 0 || i >= a.len() || j >= b.len() {
        0
    } else if a[i] < b[j] {
        common_from(a, b, i + 1, j)
    } else if a[i] == b[j] {
        1 + common_from(a, b, i + 1, j + 1)
    } else {
        common_from(a, b, i, j + 1)
    }
}

/// The number of tags that two sorted lists share.
pub open spec fn common(a: Seq<u32>, b: Seq<u32>) -> nat {
    common_from(a, b, 0, 0)
}

/// What a walk through both lists collects from positions `i` and `j` on,
/// taking the smaller head each time and equal heads once.
pub open spec fn merge_from(a: Seq<u32>, b: Seq<u32>, i: int, j: int) -> Seq<u32>
    decreases a.len() - i + b.len() - j,
{
    if i < 0 || j < 0 || i > a.len() || j > b.len() || (i == a.len() && j == b.len()) {
        Seq::empty()
    } else if i == a.len() {
        seq![b[j]] + merge_from(a, b, i, j + 1)
    } else if j == b.len() {
        seq![a[i]] + merge_from(a, b, i + 1, j)
    } else if a[i] < b[j] {
        seq![a[i]] + merge_from(a, b, i + 1, j)
    } else if a[i] == b[j] {
        seq![a[i]] + merge_from(a, b, i + 1, j + 1)
    } else {
        seq![b[j]] + merge_from(a, b, i, j + 1)
    }
}

/// The tags of two sorted lists together, sorted, each once.
pub open spec fn merged(a: Seq<u32>, b: Seq<u32>) -> Seq<u32> {
    merge_from(a, b, 0, 0)
}

/// The smaller of two numbers.
pub open spec fn least(x: int, y: int) -> int {
    if x <= y {
        x
    } else {
        y
    }
}

/// The interest of showing tags `b` after tags `a`: the least of the
/// number of tags they share, the number only `a` has and the number only
/// `b` has.
pub open spec fn interest(a: Seq<u32>, b: Seq<u32>) -> int {
    let shared = common(a, b) as int;
    least(shared, least(a.len() - shared, b.len() - shared))
}

/// The lists are in strictly ascending order.
pub open spec fn ascending(a: Seq<u32>) -> bool {
    forall|i: int, j: int| 0 <= i < j < a.len() ==> a[i] < a[j]
}

/// No more matches are found than either list has left.
pub proof fn lemma_common_bound(a: Seq<u32>, b: Seq<u32>, i: int, j: int)
    requires
        0 <= i <= a.len(),
        0 <= j <= b.len(),
    ensures
        common_from(a, b, i, j) <= a.len() - i,
        common_from(a, b, i, j) <= b.len() - j,
    decreases a.len() - i + b.len() - j,
{
    if i < a.len() && j < b.len() {
        if a[i] < b[j] {
            lemma_common_bound(a, b, i + 1, j);
        } else if a[i] == b[j] {
            lemma_common_bound(a, b, i + 1, j + 1);
        } else {
            lemma_common_bound(a, b, i, j + 1);
        }
    }
}

/// The tags of `a` from place `i` on, as a set.
pub open spec fn tail_set(a: Seq<u32>, i: int) -> Set<usize> {
    Set::new(|x: usize| exists|k: int| i <= k < a.len() && #[trigger] a[k] == x)
}

/// The tags of `a` as a set.
pub open spec fn tag_set(a: Seq<u32>) -> Set<usize> {
    tail_set(a, 0)
}

/// The interest of showing the tags `b` after the tags `a`, both held as
/// sets: the least of the number of tags they share, the number only `a`
/// has and the number only `b` has.
pub open spec fn set_interest(a: Set<usize>, b: Set<usize>) -> int {
    let shared = a.intersect(b).len() as int;
    least(shared, least(a.len() - shared, b.len() - shared))
}

/// The tags from a place on are the tag at that place and those behind
/// it, and they are finitely many.
pub proof fn lemma_tail_set(a: Seq<u32>, i: int)
    requires
        0 <= i <= a.len(),
    ensures
        tail_set(a, i).finite(),
        i < a.len() ==> tail_set(a, i) == tail_set(a, i + 1).insert(a[i] as usize),
        i == a.len() ==> tail_set(a, i) == Set::<usize>::empty(),
    decreases a.len() - i,
{
    if i < a.len() {
        lemma_tail_set(a, i + 1);
        assert forall|x: usize| tail_set(a, i).contains(x) implies tail_set(a, i + 1).insert(
            a[i] as usize,
        ).contains(x) by {
            let k = choose|k: int| i <= k < a.len() && #[trigger] a[k] == x;
            if k > i {
                assert(a[k] == x);
            }
        }
        assert forall|x: usize| tail_set(a, i + 1).insert(a[i] as usize).contains(x) implies tail_set(
            a,
            i,
        ).contains(x) by {
            if x == a[i] {
                assert(a[i] == x);
            } else {
                let k = choose|k: int| i + 1 <= k < a.len() && #[trigger] a[k] == x;
                assert(a[k] == x);
            }
        }
        assert(tail_set(a, i) =~= tail_set(a, i + 1).insert(a[i] as usize));
    } else {
        assert(tail_set(a, i) =~= Set::<usize>::empty());
    }
}

/// In an ascending list every tag from a place on is at least the tag at
/// that place, and the tag at that place does not come again.
pub proof fn lemma_tail_ascending(a: Seq<u32>, i: int)
    requires
        ascending(a),
        0 <= i < a.len(),
    ensures
        forall|x: usize| tail_set(a, i).contains(x) ==> a[i] <= x,
        !tail_set(a, i + 1).contains(a[i] as usize),
{
    assert forall|x: usize| tail_set(a, i).contains(x) implies a[i] <= x by {
        let k = choose|k: int| i <= k < a.len() && #[trigger] a[k] == x;
        if k > i {
            assert(a[i] < a[k]);
        }
    }
    if tail_set(a, i + 1).contains(a[i] as usize) {
        let k = choose|k: int| i + 1 <= k < a.len() && #[trigger] a[k] == a[i];
        assert(a[i] < a[k]);
    }
}

/// Walking two ascending lists finds the tags that both hold.
pub proof fn lemma_common_from(a: Seq<u32>, b: Seq<u32>, i: int, j: int)
    requires
        ascending(a),
        ascending(b),
        0 <= i <= a.len(),
        0 <= j <= b.len(),
    ensures
        common_from(a, b, i, j) == tail_set(a, i).intersect(tail_set(b, j)).len(),
    decreases a.len() - i + b.len() - j,
{
    broadcast use vstd::set::group_set_axioms;

    lemma_tail_set(a, i);
    lemma_tail_set(b, j);
    let both = tail_set(a, i).intersect(tail_set(b, j));
    if i >= a.len() || j >= b.len() {
        assert(both =~= Set::<usize>::empty());
    } else {
        lemma_tail_ascending(a, i);
        lemma_tail_ascending(b, j);
        lemma_tail_set(a, i + 1);
        lemma_tail_set(b, j + 1);
        if a[i] < b[j] {
            lemma_common_from(a, b, i + 1, j);
            assert(both =~= tail_set(a, i + 1).intersect(tail_set(b, j)));
        } else if a[i] == b[j] {
            lemma_common_from(a, b, i + 1, j + 1);
            let rest = tail_set(a, i + 1).intersect(tail_set(b, j + 1));
            assert(both =~= rest.insert(a[i] as usize));
            assert(!rest.contains(a[i] as usize));
        } else {
            lemma_common_from(a, b, i, j + 1);
            assert(both =~= tail_set(a, i).intersect(tail_set(b, j + 1)));
        }
    }
}

/// An ascending list holds as many tags as it is long.
pub proof fn lemma_tail_len(a: Seq<u32>, i: int)
    requires
        ascending(a),
        0 <= i <= a.len(),
    ensures
        tail_set(a, i).len() == a.len() - i,
    decreases a.len() - i,
{
    broadcast use vstd::set::group_set_axioms;

    lemma_tail_set(a, i);
    if i < a.len() {
        lemma_tail_len(a, i + 1);
        lemma_tail_set(a, i + 1);
        lemma_tail_ascending(a, i);
    }
}

/// For ascending lists, the interest of one list of tags after another is
/// the interest of their sets: the tags counted as shared are the tags
/// that both lists hold, and each list holds as many tags as it is long.
pub proof fn lemma_interest_of_sets(a: Seq<u32>, b: Seq<u32>)
    requires
        ascending(a),
        ascending(b),
    ensures
        common(a, b) == tag_set(a).intersect(tag_set(b)).len(),
        a.len() == tag_set(a).len(),
        b.len() == tag_set(b).len(),
        interest(a, b) == set_interest(tag_set(a), tag_set(b)),
{
    lemma_common_from(a, b, 0, 0);
    lemma_tail_len(a, 0);
    lemma_tail_len(b, 0);
}

/// Joining two ascending lists gives an ascending list of the tags that
/// either holds.
pub proof fn lemma_merge_from(a: Seq<u32>, b: Seq<u32>, i: int, j: int)
    requires
        ascending(a),
        ascending(b),
        0 <= i <= a.len(),
        0 <= j <= b.len(),
    ensures
        ascending(merge_from(a, b, i, j)),
        forall|x: u32|
            merge_from(a, b, i, j).contains(x) <==> tail_set(a, i).contains(x as usize)
                || tail_set(b, j).contains(x as usize),
    decreases a.len() - i + b.len() - j,
{
    let m = merge_from(a, b, i, j);
    lemma_tail_set(a, i);
    lemma_tail_set(b, j);
    if i == a.len() && j == b.len() {
    } else {
        let take_a = j == b.len() || (i < a.len() && a[i] <= b[j]);
        let take_b = i == a.len() || (j < b.len() && b[j] <= a[i]);
        let head = if take_a { a[i] } else { b[j] };
        let i2 = if take_a { i + 1 } else { i };
        let j2 = if take_b { j + 1 } else { j };
        let rest = merge_from(a, b, i2, j2);
        lemma_merge_from(a, b, i2, j2);
        lemma_tail_set(a, i2);
        lemma_tail_set(b, j2);
        assert(m == seq![head] + rest);
        if i < a.len() {
            lemma_tail_ascending(a, i);
        }
        if j < b.len() {
            lemma_tail_ascending(b, j);
        }
        assert forall|x: u32| rest.contains(x) implies head < x by {
            if tail_set(a, i2).contains(x as usize) {
                let k = choose|k: int| i2 <= k < a.len() && #[trigger] a[k] == x;
                if take_a {
                    assert(a[i] < a[k]);
                } else {
                    assert(a[i] <= a[k]) by {
                        if k > i {
                            assert(a[i] < a[k]);
                        }
                    }
                }
            } else {
                let k = choose|k: int| j2 <= k < b.len() && #[trigger] b[k] == x;
                if take_b {
                    assert(b[j] < b[k]);
                } else {
                    assert(b[j] <= b[k]) by {
                        if k > j {
                            assert(b[j] < b[k]);
                        }
                    }
                }
            }
        }
        assert forall|p: int, q: int| 0 <= p < q < m.len() implies m[p] < m[q] by {
            assert(rest.contains(rest[q - 1]));
            if p > 0 {
                assert(m[p] == rest[p - 1]);
                assert(m[q] == rest[q - 1]);
            }
        }
        assert forall|x: u32|
            m.contains(x) <==> tail_set(a, i).contains(x as usize) || tail_set(b, j).contains(
                x as usize,
            ) by {
            if m.contains(x) {
                let p = choose|p: int| 0 <= p < m.len() && m[p] == x;
                if p > 0 {
                    assert(rest[p - 1] == x);
                    assert(rest.contains(x));
                }
            }
            if x == head {
                assert(m[0] == x);
            }
            if rest.contains(x) {
                let p = choose|p: int| 0 <= p < rest.len() && rest[p] == x;
                assert(m[p + 1] == x);
            }
        }
    }
}

/// Joining two ascending lists gives an ascending list, whose tags are
/// those that either list holds.
pub proof fn lemma_merged_is_union(a: Seq<u32>, b: Seq<u32>)
    requires
        ascending(a),
        ascending(b),
    ensures
        ascending(merged(a, b)),
        tag_set(merged(a, b)) == tag_set(a).union(tag_set(b)),
{
    lemma_merge_from(a, b, 0, 0);
    let m = merged(a, b);
    assert forall|x: usize| tag_set(m).contains(x) <==> tag_set(a).union(tag_set(b)).contains(
        x,
    ) by {
        if tag_set(m).contains(x) {
            let k = choose|k: int| 0 <= k < m.len() && #[trigger] m[k] == x;
            assert(m.contains(m[k]));
        }
        if x <= u32::MAX && m.contains(x as u32) {
            let k = choose|k: int| 0 <= k < m.len() && m[k] == x as u32;
            assert(m[k] == x);
        }
        if tag_set(a).contains(x) {
            let k = choose|k: int| 0 <= k < a.len() && #[trigger] a[k] == x;
            assert(x == a[k] as usize);
        }
        if tag_set(b).contains(x) {
            let k = choose|k: int| 0 <= k < b.len() && #[trigger] b[k] == x;
            assert(x == b[k] as usize);
        }
    }
    assert(tag_set(m) =~= tag_set(a).union(tag_set(b)));
}

/// The number of tags that two sorted lists share.
pub fn intersection_size(a: &[u32], b: &[u32]) -> (r: usize)
    ensures
        r == common(a@, b@),
        r <= a@.len(),
        r <= b@.len(),
{
    let mut r: usize = 0;
    let mut i: usize = 0;
    let mut j: usize = 0;
    while i < a.len() && j < b.len()
        invariant
            i <= a@.len(),
            j <= b@.len(),
            r <= i,
            r <= j,
            r + common_from(a@, b@, i as int, j as int) == common(a@, b@),
        decreases a@.len() - i + b@.len() - j,
    {
        if a[i] < b[j] {
            i += 1;
        } else if a[i] == b[j] {
            i += 1;
            j += 1;
            r += 1;
        } else {
            j += 1;
        }
    }
    r
}

/// The interest of showing tags `b` after tags `a`.
pub fn get_score(a: &[u32], b: &[u32]) -> (r: usize)
    ensures
        r == interest(a@, b@),
{
    let common = intersection_size(a, b);
    let only_a = a.len() - common;
    let only_b = b.len() - common;
    let not_common = if only_a <= only_b { only_a } else { only_b };
    if common <= not_common {
        common
    } else {
        not_common
    }
}

/// The tags of two sorted lists together, sorted, each once.
pub fn outer_join(a: &[u32], b: &[u32]) -> (result: Vec<u32>)
    ensures
        result@ == merged(a@, b@),
{
    let mut result: Vec<u32> = Vec::new();
    let mut i: usize = 0;
    let mut j: usize = 0;
    assert(result@ + merged(a@, b@) =~= merged(a@, b@));
    while i < a.len() || j < b.len()
        invariant
            i <= a@.len(),
            j <= b@.len(),
            result@ + merge_from(a@, b@, i as int, j as int) == merged(a@, b@),
        decreases a@.len() - i + b@.len() - j,
    {
        let ghost before = result@;
        let ghost rest = merge_from(a@, b@, i as int, j as int);
        if i == a.len() {
            result.push(b[j]);
            j += 1;
        } else if j == b.len() {
            result.push(a[i]);
            i += 1;
        } else if a[i] < b[j] {
            result.push(a[i]);
            i += 1;
        } else if a[i] == b[j] {
            result.push(a[i]);
            i += 1;
            j += 1;
        } else {
            result.push(b[j]);
            j += 1;
        }
        assert(rest == seq![result@.last()] + merge_from(a@, b@, i as int, j as int));
        assert(before + (seq![result@.last()] + merge_from(a@, b@, i as int, j as int))
            =~= result@ + merge_from(a@, b@, i as int, j as int));
    }
    assert(result@ + Seq::<u32>::empty() =~= result@);
    result
}

} // verus!
