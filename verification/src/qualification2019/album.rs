//! The greedy slide show over any album of photos.

use vstd::prelude::*;
use crate::helpers::flags::{lemma_unused_bound, lemma_unused_update, unused};
use crate::qualification2019::slideshow::{pair_le, Deck, NON_EXISTENT_IMG};

verus! {

/// Photos with tags, held in some way that can tell the interest of
/// showing one slide after another.
pub trait Album {
    /// The tags of a slide.
    type Tags;

    /// The tags of a slide as a mathematical value.
    type TagsView;

    /// The album as the greedy rule sees it.
    spec fn deck(&self) -> Deck<Self::TagsView>;

    /// The mathematical value of some tags.
    spec fn tags_view(tags: &Self::Tags) -> Self::TagsView;

    /// The album is consistent.
    spec fn inv(&self) -> bool;

    /// The tags are such as the album hands out.
    spec fn tags_inv(tags: &Self::Tags) -> bool;

    /// The number of photos.
    fn len(&self) -> (n: usize)
        requires
            self.inv(),
        ensures
            n == self.deck().len(),
            self.deck().wf(),
    ;

    /// Whether photo `j` is vertical.
    fn is_vertical(&self, j: usize) -> (r: bool)
        requires
            self.inv(),
            j < self.deck().len(),
        ensures
            r == self.deck().vert[j as int],
    ;

    /// The tags of photo `j`.
    fn tags_of(&self, j: usize) -> (tags: Self::Tags)
        requires
            self.inv(),
            j < self.deck().len(),
        ensures
            Self::tags_inv(&tags),
            Self::tags_view(&tags) == self.deck().tags[j as int],
    ;

    /// The tags of photos `j` and `k` together.
    fn joined(&self, j: usize, k: usize) -> (tags: Self::Tags)
        requires
            self.inv(),
            j < self.deck().len(),
            k < self.deck().len(),
        ensures
            Self::tags_inv(&tags),
            Self::tags_view(&tags) == (self.deck().join)(
                self.deck().tags[j as int],
                self.deck().tags[k as int],
            ),
    ;

    /// The interest of showing photo `j` alone after `prev`.
    fn score_single(&self, prev: &Self::Tags, j: usize) -> (r: usize)
        requires
            self.inv(),
            Self::tags_inv(prev),
            j < self.deck().len(),
        ensures
            r == self.deck().single_score(Self::tags_view(prev), j as int),
    ;

    /// The interest of showing photos `first` and `j` together after
    /// `prev`.
    fn score_pair(&self, prev: &Self::Tags, first: usize, j: usize) -> (r: usize)
        requires
            self.inv(),
            Self::tags_inv(prev),
            first < self.deck().len(),
            j < self.deck().len(),
        ensures
            r == self.deck().pair_score(Self::tags_view(prev), first as int, j as int),
    ;
}

/// The photo to show next after `prev`, with the interest of showing it.
pub fn best_single<A: Album>(album: &A, used: &Vec<bool>, prev: &A::Tags) -> (r: Option<
    (usize, usize),
>)
    requires
        album.inv(),
        A::tags_inv(prev),
        used@.len() == album.deck().len(),
    ensures
        match r {
            Some((score, j)) => album.deck().is_pick(used@, A::tags_view(prev), j as int) && score
                == album.deck().single_score(A::tags_view(prev), j as int),
            None => !album.deck().has_pick(used@, A::tags_view(prev)),
        },
{
    let n = album.len();
    let ghost deck = album.deck();
    let ghost p = A::tags_view(prev);
    let mut best: Option<(usize, usize)> = None;
    let mut j: usize = 0;
    while j < n
        invariant
            album.inv(),
            A::tags_inv(prev),
            deck == album.deck(),
            p == A::tags_view(prev),
            n == deck.len(),
            used@.len() == n,
            j <= n,
            match best {
                Some((score, b)) => {
                    &&& b < j
                    &&& !used@[b as int]
                    &&& score == deck.single_score(p, b as int)
                    &&& score >= 1
                    &&& forall|k: int|
                        0 <= k < j && !used@[k] ==> pair_le(
                            (#[trigger] deck.single_score(p, k), k),
                            (score as int, b as int),
                        )
                },
                None => forall|k: int|
                    0 <= k < j && !used@[k] ==> #[trigger] deck.single_score(p, k) < 1,
            },
        decreases n - j,
    {
        if !used[j] {
            let score = album.score_single(prev, j);
            let better = match best {
                Some((s, _)) => score >= s,
                None => score >= 1,
            };
            if better {
                best = Some((score, j));
            }
        }
        j = j + 1;
    }
    proof {
        if best is None && deck.has_pick(used@, p) {
            let c = deck.pick(used@, p);
            assert(deck.is_pick(used@, p, c));
        }
    }
    best
}

/// The photo to share a slide with `first` after `prev`, with the
/// interest of showing both.
pub fn best_companion<A: Album>(album: &A, used: &Vec<bool>, prev: &A::Tags, first: usize) -> (r:
    Option<(usize, usize)>)
    requires
        album.inv(),
        A::tags_inv(prev),
        used@.len() == album.deck().len(),
        first < album.deck().len(),
    ensures
        match r {
            Some((score, j)) => album.deck().is_companion(
                used@,
                A::tags_view(prev),
                first as int,
                j as int,
            ) && score == album.deck().pair_score(A::tags_view(prev), first as int, j as int),
            None => !album.deck().has_companion(used@, A::tags_view(prev), first as int),
        },
{
    let n = album.len();
    let ghost deck = album.deck();
    let ghost p = A::tags_view(prev);
    let mut best: Option<(usize, usize)> = None;
    let mut j: usize = 0;
    while j < n
        invariant
            album.inv(),
            A::tags_inv(prev),
            deck == album.deck(),
            p == A::tags_view(prev),
            n == deck.len(),
            used@.len() == n,
            first < n,
            j <= n,
            match best {
                Some((score, b)) => {
                    &&& b < j
                    &&& !used@[b as int]
                    &&& b != first
                    &&& score == deck.pair_score(p, first as int, b as int)
                    &&& score >= 1
                    &&& forall|k: int|
                        0 <= k < j && !used@[k] && k != first ==> pair_le(
                            (#[trigger] deck.pair_score(p, first as int, k), k),
                            (score as int, b as int),
                        )
                },
                None => forall|k: int|
                    0 <= k < j && !used@[k] && k != first ==> #[trigger] deck.pair_score(
                        p,
                        first as int,
                        k,
                    ) < 1,
            },
        decreases n - j,
    {
        if !used[j] && j != first {
            let score = album.score_pair(prev, first, j);
            let better = match best {
                Some((s, _)) => score >= s,
                None => score >= 1,
            };
            if better {
                best = Some((score, j));
            }
        }
        j = j + 1;
    }
    proof {
        if best is None && deck.has_companion(used@, p, first as int) {
            let c = deck.companion(used@, p, first as int);
            assert(deck.is_companion(used@, p, first as int, c));
        }
    }
    best
}

/// The tags that a slide shows.
pub fn tags_of_slide<A: Album>(album: &A, slide: (u32, u32)) -> (tags: A::Tags)
    requires
        album.inv(),
        album.deck().valid_slide(slide),
    ensures
        A::tags_inv(&tags),
        A::tags_view(&tags) == album.deck().slide_tags(slide),
{
    if slide.1 == NON_EXISTENT_IMG {
        album.tags_of(slide.0 as usize)
    } else {
        album.joined(slide.0 as usize, slide.1 as usize)
    }
}

/// The greedy show that starts with the slide `first`, and its interest.
pub fn solve_from<A: Album>(album: &A, first: (u32, u32)) -> (r: (Vec<(u32, u32)>, u128))
    requires
        album.inv(),
        album.deck().valid_slide(first),
    ensures
        r.0@ == album.deck().show(first),
        r.1 == album.deck().show_total(first),
{
    let n = album.len();
    let ghost deck = album.deck();
    let mut used: Vec<bool> = Vec::new();
    let mut j: usize = 0;
    while j < n
        invariant
            j <= n <= NON_EXISTENT_IMG,
            used@.len() == j,
            forall|k: int| 0 <= k < j ==> #[trigger] used@[k] == (k == first.0 || k == first.1),
        decreases n - j,
    {
        used.push(j == first.0 as usize || (first.1 != NON_EXISTENT_IMG && j == first.1 as usize));
        j = j + 1;
    }
    assert(used@ =~= deck.used_by(first));
    let mut solution: Vec<(u32, u32)> = Vec::new();
    solution.push(first);
    let mut total: u128 = 0;
    let mut last = first;
    proof {
        lemma_unused_bound(used@);
        assert(solution@ + deck.rest(used@, last) =~= deck.show(first));
    }
    loop
        invariant_except_break
            album.inv(),
            deck == album.deck(),
            deck.wf(),
            n == deck.len(),
            used@.len() == n,
            deck.valid_slide(last),
            solution@ + deck.rest(used@, last) == deck.show(first),
            total + deck.rest_total(used@, last) == deck.show_total(first),
            total <= (n - unused(used@)) * 0x1_0000_0000_0000_0000,
            unused(used@) <= n,
        ensures
            solution@ == deck.show(first),
            total == deck.show_total(first),
        decreases unused(used@),
    {
        let prev = tags_of_slide(album, last);
        let ghost p = A::tags_view(&prev);
        let ghost used0 = used@;
        match best_single(album, &used, &prev) {
            None => {
                assert(solution@ + Seq::<(u32, u32)>::empty() =~= solution@);
                break;
            },
            Some((score, j)) => {
                proof {
                    deck.lemma_pick_unique(used0, p, j as int);
                    lemma_unused_update(used0, j as int);
                }
                if !album.is_vertical(j) {
                    let slide = (j as u32, NON_EXISTENT_IMG);
                    let ghost tail = deck.rest(used0.update(j as int, true), slide);
                    assert(deck.rest(used0, last) == seq![slide] + tail);
                    assert(solution@ + (seq![slide] + tail) =~= solution@.push(slide) + tail);
                    solution.push(slide);
                    used.set(j, true);
                    total = total + score as u128;
                    last = slide;
                } else {
                    match best_companion(album, &used, &prev, j) {
                        None => {
                            assert(solution@ + Seq::<(u32, u32)>::empty() =~= solution@);
                            break;
                        },
                        Some((score, k)) => {
                            proof {
                                deck.lemma_companion_unique(used0, p, j as int, k as int);
                                lemma_unused_update(used0.update(j as int, true), k as int);
                            }
                            let slide = (j as u32, k as u32);
                            let ghost tail = deck.rest(
                                used0.update(j as int, true).update(k as int, true),
                                slide,
                            );
                            assert(deck.rest(used0, last) == seq![slide] + tail);
                            assert(solution@ + (seq![slide] + tail) =~= solution@.push(slide)
                                + tail);
                            solution.push(slide);
                            used.set(j, true);
                            used.set(k, true);
                            total = total + score as u128;
                            last = slide;
                        },
                    }
                }
            },
        }
    }
    (solution, total)
}

} // verus!
