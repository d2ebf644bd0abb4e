//! The greedy slide show over sorted lists of tags.

use vstd::prelude::*;
use vstd::slice::slice_to_vec;
use crate::qualification2019::album::{solve_from, Album};
use crate::qualification2019::random::random_below;
use crate::qualification2019::slideshow::{Deck, NON_EXISTENT_IMG};
use crate::qualification2019::tags::{get_score, interest, merged, outer_join};

verus! {

/// A photo.
#[derive(Debug, Clone)]
pub struct Img {
    /// The number of the photo: its place in the list of photos.
    pub id: u32,
    /// Whether the photo is on a slide already.
    pub used: bool,
    /// Whether the photo is vertical.
    pub vert: bool,
    /// The numbers of the photo's tags, sorted.
    pub tags: Vec<u32>,
}

/// Why there is no show.
#[derive(Clone, Copy, Debug, PartialEq, Eq, Structural)]
pub enum ShowError {
    /// There are more tags than the bit sets are meant for.
    TooManyTags,
    /// No photo is horizontal, and there are not two to share the first
    /// slide.
    TooFewPhotos,
}

/// The photos as the greedy rule sees them.
pub open spec fn vector_deck(images: Seq<Img>) -> Deck<Seq<u32>> {
    Deck {
        vert: images.map_values(|i: Img| i.vert),
        tags: images.map_values(|i: Img| i.tags@),
        score: |a: Seq<u32>, b: Seq<u32>| interest(a, b),
        join: |a: Seq<u32>, b: Seq<u32>| merged(a, b),
    }
}

impl Album for Vec<Img> {
    type Tags = Vec<u32>;

    type TagsView = Seq<u32>;

    open spec fn deck(&self) -> Deck<Seq<u32>> {
        vector_deck(self@)
    }

    open spec fn tags_view(tags: &Vec<u32>) -> Seq<u32> {
        tags@
    }

    open spec fn inv(&self) -> bool {
        self@.len() <= NON_EXISTENT_IMG
    }

    open spec fn tags_inv(tags: &Vec<u32>) -> bool {
        true
    }

    fn len(&self) -> (n: usize) {
        self.len()
    }

    fn is_vertical(&self, j: usize) -> (r: bool) {
        self[j].vert
    }

    fn tags_of(&self, j: usize) -> (tags: Vec<u32>) {
        slice_to_vec(self[j].tags.as_slice())
    }

    fn joined(&self, j: usize, k: usize) -> (tags: Vec<u32>) {
        outer_join(self[j].tags.as_slice(), self[k].tags.as_slice())
    }

    fn score_single(&self, prev: &Vec<u32>, j: usize) -> (r: usize) {
        get_score(prev.as_slice(), self[j].tags.as_slice())
    }

    fn score_pair(&self, prev: &Vec<u32>, first: usize, j: usize) -> (r: usize) {
        let both = outer_join(self[first].tags.as_slice(), self[j].tags.as_slice());
        get_score(prev.as_slice(), both.as_slice())
    }
}

/// The number of horizontal photos among the first `k`.
pub open spec fn horizontal_upto(vert: Seq<bool>, k: int) -> nat
    decreases k,
{
    if k <= 0 {
        0
    } else {
        horizontal_upto(vert, k - 1) + if vert[k - 1] {
            0nat
        } else {
            1nat
        }
    }
}

/// Where there are horizontal photos, the last of them starts the show.
/// Where there is none, two different photos share the first slide.
pub open spec fn random_start(vert: Seq<bool>, first: (u32, u32)) -> bool {
    if horizontal_upto(vert, vert.len() as int) > 0 {
        &&& first.1 == NON_EXISTENT_IMG
        &&& first.0 < vert.len()
        &&& !vert[first.0 as int]
        &&& forall|j: int| first.0 < j < vert.len() ==> vert[j]
    } else {
        first.0 < vert.len() && first.1 < vert.len() && first.0 != first.1
    }
}

/// A first slide can be chosen.
pub open spec fn can_start(vert: Seq<bool>) -> bool {
    horizontal_upto(vert, vert.len() as int) > 0 || vert.len() >= 2
}

/// Without horizontal photos all are vertical.
pub proof fn lemma_horizontal_upto(vert: Seq<bool>, k: int)
    requires
        0 <= k <= vert.len(),
    ensures
        horizontal_upto(vert, k) <= k,
        horizontal_upto(vert, k) == 0 <==> forall|j: int| 0 <= j < k ==> vert[j],
    decreases k,
{
    if k > 0 {
        lemma_horizontal_upto(vert, k - 1);
    }
}

/// Chooses the first slide at random: see [`random_start`]. A number is
/// drawn among the horizontal photos too, but the last of them is taken
/// whatever is drawn.
pub fn first_slide_random(images: &Vec<Img>) -> (r: Result<(u32, u32), ShowError>)
    requires
        images@.len() <= NON_EXISTENT_IMG,
    ensures
        match r {
            Ok(first) => random_start(vector_deck(images@).vert, first) && vector_deck(
                images@,
            ).valid_slide(first),
            Err(e) => e == ShowError::TooFewPhotos && !can_start(vector_deck(images@).vert),
        },
{
    let ghost vert = vector_deck(images@).vert;
    let n = images.len();
    let mut count: usize = 0;
    let mut last: usize = 0;
    let mut j: usize = 0;
    while j < n
        invariant
            j <= n == images@.len(),
            vert == vector_deck(images@).vert,
            count == horizontal_upto(vert, j as int),
            count <= j,
            count > 0 ==> last < j && !vert[last as int] && forall|k: int| last < k < j ==> vert[k],
        decreases n - j,
    {
        if !images[j].vert {
            count = count + 1;
            last = j;
        }
        j = j + 1;
    }
    if count > 0 {
        let _ = random_below(count);
        Ok((last as u32, NON_EXISTENT_IMG))
    } else if n >= 2 {
        let id1 = random_below(n);
        let other = random_below(n - 1);
        let id2 = if other >= id1 { other + 1 } else { other };
        Ok((id1 as u32, id2 as u32))
    } else {
        Err(ShowError::TooFewPhotos)
    }
}

/// Builds a show greedily over sorted tag lists, from a first slide
/// chosen at random. Returns the slides and their interest added up.
pub fn try_solve_vector_sets(images: &Vec<Img>) -> (r: Result<(Vec<(u32, u32)>, u128), ShowError>)
    requires
        images@.len() <= NON_EXISTENT_IMG,
    ensures
        match r {
            Ok((slides, total)) => {
                &&& slides@.len() > 0
                &&& random_start(vector_deck(images@).vert, slides@[0])
                &&& slides@ == vector_deck(images@).show(slides@[0])
                &&& total == vector_deck(images@).show_total(slides@[0])
            },
            Err(e) => e == ShowError::TooFewPhotos && !can_start(vector_deck(images@).vert),
        },
{
    match first_slide_random(images) {
        Ok(first) => Ok(solve_from(images, first)),
        Err(e) => Err(e),
    }
}

/// Builds a show greedily over sorted tag lists, from a first slide
/// chosen at random, where one can be chosen: see [`can_start`]. Returns
/// the slides and their interest added up.
pub fn solve_vector_sets(images: &Vec<Img>) -> (r: (Vec<(u32, u32)>, u128))
    requires
        images@.len() <= NON_EXISTENT_IMG,
        can_start(vector_deck(images@).vert),
    ensures
        r.0@.len() > 0,
        random_start(vector_deck(images@).vert, r.0@[0]),
        r.0@ == vector_deck(images@).show(r.0@[0]),
        r.1 == vector_deck(images@).show_total(r.0@[0]),
{
    match try_solve_vector_sets(images) {
        Ok(show) => show,
        Err(_) => vstd::pervasive::unreached(),
    }
}

} // verus!
