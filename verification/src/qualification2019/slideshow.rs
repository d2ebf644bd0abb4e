//! The greedy slide show, described for any way of holding tags.

use vstd::prelude::*;
use crate::helpers::flags::{lemma_unused_update, unused};

verus! {

/// Stands in the second place of a slide that shows one photo only.
pub const NON_EXISTENT_IMG: u32 = u32::MAX;

/// The photos as the greedy rule sees them: which are vertical, the tags
/// of each, the interest of showing one set of tags after another, and
/// the tags of two photos on one slide.
#[verifier::reject_recursive_types(T)]
pub struct Deck<T> {
    pub vert: Seq<bool>,
    pub tags: Seq<T>,
    pub score: spec_fn(T, T) -> int,
    pub join: spec_fn(T, T) -> T,
}

/// Order on (score, photo): by score, then by photo.
pub open spec fn pair_le(a: (int, int), b: (int, int)) -> bool {
    a.0 < b.0 || (a.0 == b.0 && a.1 <= b.1)
}

impl<T> Deck<T> {
    /// The number of photos.
    pub open spec fn len(self) -> int {
        self.tags.len() as int
    }

    /// The deck knows of each photo whether it is vertical, and photos
    /// can be numbered in a slide.
    pub open spec fn wf(self) -> bool {
        self.vert.len() == self.tags.len() && self.tags.len() <= NON_EXISTENT_IMG
    }

    /// The slide names photos of the deck, and two different ones where
    /// it names two.
    pub open spec fn valid_slide(self, slide: (u32, u32)) -> bool {
        &&& slide.0 < self.len()
        &&& slide.1 != NON_EXISTENT_IMG ==> slide.1 < self.len() && slide.1 != slide.0
    }

    /// The tags that a slide shows.
    pub open spec fn slide_tags(self, slide: (u32, u32)) -> T {
        if slide.1 == NON_EXISTENT_IMG {
            self.tags[slide.0 as int]
        } else {
            (self.join)(self.tags[slide.0 as int], self.tags[slide.1 as int])
        }
    }

    /// The interest of showing photo `j` alone after tags `prev`.
    pub open spec fn single_score(self, prev: T, j: int) -> int {
        (self.score)(prev, self.tags[j])
    }

    /// The interest of showing photos `first` and `j` together after tags
    /// `prev`.
    pub open spec fn pair_score(self, prev: T, first: int, j: int) -> int {
        (self.score)(prev, (self.join)(self.tags[first], self.tags[j]))
    }

    /// Photo `j` is the one to show next: it is unused, showing it has
    /// some interest, and no unused photo has more, or as much and a
    /// higher number.
    pub open spec fn is_pick(self, used: Seq<bool>, prev: T, j: int) -> bool {
        &&& 0 <= j < self.len()
        &&& !used[j]
        &&& self.single_score(prev, j) >= 1
        &&& forall|k: int|
            0 <= k < self.len() && !used[k] ==> pair_le(
                (#[trigger] self.single_score(prev, k), k),
                (self.single_score(prev, j), j),
            )
    }

    /// Some photo can be shown next.
    pub open spec fn has_pick(self, used: Seq<bool>, prev: T) -> bool {
        exists|j: int| self.is_pick(used, prev, j)
    }

    /// The photo to show next.
    pub open spec fn pick(self, used: Seq<bool>, prev: T) -> int {
        choose|j: int| self.is_pick(used, prev, j)
    }

    /// Photo `j` is the one to share a slide with `first`: it is another
    /// unused photo, showing both has some interest, and no other unused
    /// photo gives more, or as much and has a higher number.
    pub open spec fn is_companion(self, used: Seq<bool>, prev: T, first: int, j: int) -> bool {
        &&& 0 <= j < self.len()
        &&& !used[j]
        &&& j != first
        &&& self.pair_score(prev, first, j) >= 1
        &&& forall|k: int|
            0 <= k < self.len() && !used[k] && k != first ==> pair_le(
                (#[trigger] self.pair_score(prev, first, k), k),
                (self.pair_score(prev, first, j), j),
            )
    }

    /// Some photo can share a slide with `first`.
    pub open spec fn has_companion(self, used: Seq<bool>, prev: T, first: int) -> bool {
        exists|j: int| self.is_companion(used, prev, first, j)
    }

    /// The photo to share a slide with `first`.
    pub open spec fn companion(self, used: Seq<bool>, prev: T, first: int) -> int {
        choose|j: int| self.is_companion(used, prev, first, j)
    }

    /// The slides that follow the slide `last`, when the photos marked in
    /// `used` are taken. The photo to show next is picked as if it stood
    /// alone. A horizontal one makes a slide; a vertical one takes the
    /// best companion, of either kind, and the show ends where there is
    /// none, or no photo to pick.
    pub open spec fn rest(self, used: Seq<bool>, last: (u32, u32)) -> Seq<(u32, u32)>
        decreases unused(used),
        when self.wf() && used.len() == self.len()
        via Self::rest_decreases
    {
        let prev = self.slide_tags(last);
        if !self.has_pick(used, prev) {
            Seq::empty()
        } else {
            let j = self.pick(used, prev);
            if !self.vert[j] {
                seq![(j as u32, NON_EXISTENT_IMG)] + self.rest(
                    used.update(j, true),
                    (j as u32, NON_EXISTENT_IMG),
                )
            } else if !self.has_companion(used, prev, j) {
                Seq::empty()
            } else {
                let k = self.companion(used, prev, j);
                seq![(j as u32, k as u32)] + self.rest(
                    used.update(j, true).update(k, true),
                    (j as u32, k as u32),
                )
            }
        }
    }

    #[via_fn]
    proof fn rest_decreases(self, used: Seq<bool>, last: (u32, u32)) {
        let prev = self.slide_tags(last);
        if self.has_pick(used, prev) {
            let j = self.pick(used, prev);
            assert(self.is_pick(used, prev, j));
            lemma_unused_update(used, j);
            if self.vert[j] && self.has_companion(used, prev, j) {
                let k = self.companion(used, prev, j);
                assert(self.is_companion(used, prev, j, k));
                lemma_unused_update(used.update(j, true), k);
            }
        }
    }

    /// The interest of the slides that follow the slide `last`, added up.
    pub open spec fn rest_total(self, used: Seq<bool>, last: (u32, u32)) -> int
        decreases unused(used),
        when self.wf() && used.len() == self.len()
        via Self::rest_total_decreases
    {
        let prev = self.slide_tags(last);
        if !self.has_pick(used, prev) {
            0
        } else {
            let j = self.pick(used, prev);
            if !self.vert[j] {
                self.single_score(prev, j) + self.rest_total(
                    used.update(j, true),
                    (j as u32, NON_EXISTENT_IMG),
                )
            } else if !self.has_companion(used, prev, j) {
                0
            } else {
                let k = self.companion(used, prev, j);
                self.pair_score(prev, j, k) + self.rest_total(
                    used.update(j, true).update(k, true),
                    (j as u32, k as u32),
                )
            }
        }
    }

    #[via_fn]
    proof fn rest_total_decreases(self, used: Seq<bool>, last: (u32, u32)) {
        let prev = self.slide_tags(last);
        if self.has_pick(used, prev) {
            let j = self.pick(used, prev);
            assert(self.is_pick(used, prev, j));
            lemma_unused_update(used, j);
            if self.vert[j] && self.has_companion(used, prev, j) {
                let k = self.companion(used, prev, j);
                assert(self.is_companion(used, prev, j, k));
                lemma_unused_update(used.update(j, true), k);
            }
        }
    }

    /// Which photos are used once the first slide is.
    pub open spec fn used_by(self, first: (u32, u32)) -> Seq<bool> {
        Seq::new(self.tags.len(), |j: int| j == first.0 || j == first.1)
    }

    /// The whole show that starts with the slide `first`.
    pub open spec fn show(self, first: (u32, u32)) -> Seq<(u32, u32)> {
        seq![first] + self.rest(self.used_by(first), first)
    }

    /// The interest of the whole show that starts with the slide `first`.
    pub open spec fn show_total(self, first: (u32, u32)) -> int {
        self.rest_total(self.used_by(first), first)
    }

    /// At most one photo is the one to show next.
    pub proof fn lemma_pick_unique(self, used: Seq<bool>, prev: T, j: int)
        requires
            self.is_pick(used, prev, j),
        ensures
            self.has_pick(used, prev),
            self.pick(used, prev) == j,
    {
        let c = self.pick(used, prev);
        assert(self.is_pick(used, prev, c));
        assert(pair_le((self.single_score(prev, c), c), (self.single_score(prev, j), j)));
        assert(pair_le((self.single_score(prev, j), j), (self.single_score(prev, c), c)));
    }

    /// At most one photo is the one to share a slide with `first`.
    pub proof fn lemma_companion_unique(self, used: Seq<bool>, prev: T, first: int, j: int)
        requires
            self.is_companion(used, prev, first, j),
        ensures
            self.has_companion(used, prev, first),
            self.companion(used, prev, first) == j,
    {
        let c = self.companion(used, prev, first);
        assert(self.is_companion(used, prev, first, c));
        assert(pair_le(
            (self.pair_score(prev, first, c), c),
            (self.pair_score(prev, first, j), j),
        ));
        assert(pair_le(
            (self.pair_score(prev, first, j), j),
            (self.pair_score(prev, first, c), c),
        ));
    }
}

} // verus!
