//! The greedy slide show over bit sets of tags.

use bit_set::BitSet;
use vstd::prelude::*;
use vstd::set_lib::lemma_len_intersect;
use crate::qualification2019::album::{solve_from, Album};
use crate::qualification2019::slideshow::{Deck, NON_EXISTENT_IMG};
use crate::qualification2019::tags::{set_interest, tag_set};
use crate::qualification2019::vector::{Img, ShowError};

verus! {

/// The bit sets are used where there are no more tags than this.
pub const MAX_BIT_TAGS: usize = 500;

/// The type `bit_set::BitSet`. Nothing is known of what is inside a value
/// of it but what the functions below say.
#[verifier::external_type_specification]
#[verifier::external_body]
#[verifier::reject_recursive_types(B)]
pub struct ExBitSet<B>(BitSet<B>);

/// The numbers that a `bit_set::BitSet` holds: those that were inserted
/// into it and not removed.
pub uninterp spec fn bits_of(s: BitSet) -> Set<usize>;

/// `BitSet::with_capacity`: a set with no numbers in it.
#[verifier::external_body]
pub(crate) fn bits_with_capacity(nbits: usize) -> (r: BitSet)
    ensures
        bits_of(r) == Set::<usize>::empty(),
{
    BitSet::with_capacity(nbits)
}

/// `BitSet::insert`: puts `value` into the set and tells whether it was
/// missing. It grows the set by `value + 1` bits at most, so `value` must
/// leave room for one more.
#[verifier::external_body]
pub(crate) fn bits_insert(s: &mut BitSet, value: usize) -> (r: bool)
    requires
        value < usize::MAX,
    ensures
        bits_of(*final(s)) == bits_of(*old(s)).insert(value),
        r == !bits_of(*old(s)).contains(value),
{
    s.insert(value)
}

/// `BitSet::clone`: a set that holds the same numbers.
#[verifier::external_body]
pub(crate) fn bits_clone(s: &BitSet) -> (r: BitSet)
    ensures
        bits_of(r) == bits_of(*s),
{
    s.clone()
}

/// `BitSet::union_with`: adds the numbers of `other` to the set.
#[verifier::external_body]
pub(crate) fn bits_union_with(s: &mut BitSet, other: &BitSet)
    ensures
        bits_of(*final(s)) == bits_of(*old(s)).union(bits_of(*other)),
{
    s.union_with(other);
}

/// `BitSet::len`: how many numbers the set holds.
#[verifier::external_body]
pub(crate) fn bits_len(s: &BitSet) -> (r: usize)
    ensures
        r == bits_of(*s).len(),
{
    s.len()
}

/// `BitSet::intersection`, counted: how many numbers both sets hold.
#[verifier::external_body]
pub(crate) fn bits_common(a: &BitSet, b: &BitSet) -> (r: usize)
    ensures
        r == bits_of(*a).intersect(bits_of(*b)).len(),
{
    a.intersection(b).count()
}

/// The interest of showing tags `b` after tags `a`.
pub fn get_score_bits(a: &BitSet, b: &BitSet) -> (r: usize)
    requires
        bits_of(*a).finite(),
        bits_of(*b).finite(),
    ensures
        r == set_interest(bits_of(*a), bits_of(*b)),
{
    let common = bits_common(a, b);
    let len_a = bits_len(a);
    let len_b = bits_len(b);
    proof {
        lemma_len_intersect(bits_of(*a), bits_of(*b));
        lemma_len_intersect(bits_of(*b), bits_of(*a));
        assert(bits_of(*a).intersect(bits_of(*b)) =~= bits_of(*b).intersect(bits_of(*a)));
    }
    let only_a = len_a - common;
    let only_b = len_b - common;
    let not_common = if only_a <= only_b { only_a } else { only_b };
    if common <= not_common {
        common
    } else {
        not_common
    }
}

/// Every tag of every photo is a number below `n_tags`.
pub open spec fn tags_below(images: Seq<Img>, n_tags: usize) -> bool {
    forall|j: int, i: int|
        0 <= j < images.len() && 0 <= i < images[j].tags@.len() ==> (#[trigger] images[j].tags@[i])
            < n_tags
}

/// The photos with their tags as bit sets.
pub struct BitAlbum {
    pub vert: Vec<bool>,
    pub bits: Vec<BitSet>,
}

/// The photos as the greedy rule sees them when tags are held as sets.
pub open spec fn set_deck(vert: Seq<bool>, tags: Seq<Set<usize>>) -> Deck<Set<usize>> {
    Deck {
        vert,
        tags,
        score: |a: Set<usize>, b: Set<usize>| set_interest(a, b),
        join: |a: Set<usize>, b: Set<usize>| a.union(b),
    }
}

/// The photos as the greedy rule sees them when their tags are held as
/// sets.
pub open spec fn deck_of_sets(images: Seq<Img>) -> Deck<Set<usize>> {
    set_deck(images.map_values(|i: Img| i.vert), images.map_values(|i: Img| tag_set(i.tags@)))
}

impl BitAlbum {
    /// The tags of each photo as a set.
    pub open spec fn sets(&self) -> Seq<Set<usize>> {
        self.bits@.map_values(|b: BitSet| bits_of(b))
    }

    /// The album of `images`.
    pub fn new(images: &Vec<Img>, n_tags: usize) -> (r: BitAlbum)
        requires
            images@.len() <= NON_EXISTENT_IMG,
            tags_below(images@, n_tags),
        ensures
            r.inv(),
            r.vert@ == images@.map_values(|i: Img| i.vert),
            r.sets() == images@.map_values(|i: Img| tag_set(i.tags@)),
    {
        let mut vert: Vec<bool> = Vec::new();
        let mut bits: Vec<BitSet> = Vec::new();
        let mut j: usize = 0;
        while j < images.len()
            invariant
                j <= images@.len(),
                tags_below(images@, n_tags),
                vert@.len() == j,
                bits@.len() == j,
                forall|k: int| 0 <= k < j ==> #[trigger] vert@[k] == images@[k].vert,
                forall|k: int| 0 <= k < j ==> bits_of(#[trigger] bits@[k]) == tag_set(
                    images@[k].tags@,
                ) && bits_of(bits@[k]).finite(),
            decreases images@.len() - j,
        {
            let tags = &images[j].tags;
            let mut set = bits_with_capacity(n_tags);
            let mut i: usize = 0;
            while i < tags.len()
                invariant
                    i <= tags@.len(),
                    forall|k: int| 0 <= k < tags@.len() ==> #[trigger] tags@[k] < n_tags,
                    bits_of(set).finite(),
                    bits_of(set) == tag_set(tags@.take(i as int)),
                decreases tags@.len() - i,
            {
                let ghost before = bits_of(set);
                bits_insert(&mut set, tags[i] as usize);
                proof {
                    let shorter = tags@.take(i as int);
                    let longer = tags@.take(i + 1);
                    let added = tags@[i as int] as usize;
                    assert forall|t: usize| tag_set(longer).contains(t) implies before.insert(
                        added,
                    ).contains(t) by {
                        let w = choose|w: int| 0 <= w < longer.len() && #[trigger] longer[w] == t;
                        if w < i {
                            assert(shorter[w] == t);
                        }
                    }
                    assert forall|t: usize| before.insert(added).contains(t) implies tag_set(
                        longer,
                    ).contains(t) by {
                        if t == added {
                            assert(longer[i as int] == t);
                        } else {
                            let w = choose|w: int|
                                0 <= w < shorter.len() && #[trigger] shorter[w] == t;
                            assert(longer[w] == t);
                        }
                    }
                    assert(bits_of(set) =~= tag_set(longer));
                }
                i = i + 1;
            }
            assert(tags@.take(tags@.len() as int) =~= tags@);
            vert.push(images[j].vert);
            bits.push(set);
            j = j + 1;
        }
        let r = BitAlbum { vert, bits };
        assert(r.vert@ =~= images@.map_values(|i: Img| i.vert));
        assert(r.sets() =~= images@.map_values(|i: Img| tag_set(i.tags@)));
        r
    }
}

impl Album for BitAlbum {
    type Tags = BitSet;

    type TagsView = Set<usize>;

    open spec fn deck(&self) -> Deck<Set<usize>> {
        set_deck(self.vert@, self.sets())
    }

    open spec fn tags_view(tags: &BitSet) -> Set<usize> {
        bits_of(*tags)
    }

    open spec fn inv(&self) -> bool {
        &&& self.vert@.len() == self.bits@.len()
        &&& self.bits@.len() <= NON_EXISTENT_IMG
        &&& forall|j: int| 0 <= j < self.bits@.len() ==> bits_of(#[trigger] self.bits@[j]).finite()
    }

    open spec fn tags_inv(tags: &BitSet) -> bool {
        bits_of(*tags).finite()
    }

    fn len(&self) -> (n: usize) {
        self.bits.len()
    }

    fn is_vertical(&self, j: usize) -> (r: bool) {
        self.vert[j]
    }

    fn tags_of(&self, j: usize) -> (tags: BitSet) {
        bits_clone(&self.bits[j])
    }

    fn joined(&self, j: usize, k: usize) -> (tags: BitSet) {
        let mut both = bits_clone(&self.bits[j]);
        bits_union_with(&mut both, &self.bits[k]);
        both
    }

    fn score_single(&self, prev: &BitSet, j: usize) -> (r: usize) {
        get_score_bits(prev, &self.bits[j])
    }

    fn score_pair(&self, prev: &BitSet, first: usize, j: usize) -> (r: usize) {
        let mut both = bits_clone(&self.bits[first]);
        bits_union_with(&mut both, &self.bits[j]);
        get_score_bits(prev, &both)
    }
}

/// The first horizontal photo starts the show. Where there is none, the
/// first two photos share the first slide.
pub open spec fn fixed_start(vert: Seq<bool>, first: (u32, u32)) -> bool {
    if exists|j: int| 0 <= j < vert.len() && !vert[j] {
        &&& first.1 == NON_EXISTENT_IMG
        &&& first.0 < vert.len()
        &&& !vert[first.0 as int]
        &&& forall|j: int| 0 <= j < first.0 ==> vert[j]
    } else {
        first == (0u32, 1u32)
    }
}

/// Builds a show greedily over bit sets of tags, where there are no more
/// than [`MAX_BIT_TAGS`] tags, from the first slide described by
/// [`fixed_start`]. Returns the slides and their interest added up.
pub fn try_solve_bitsets(images: &Vec<Img>, n_tags: usize) -> (r: Result<
    (Vec<(u32, u32)>, u128),
    ShowError,
>)
    requires
        images@.len() <= NON_EXISTENT_IMG,
        tags_below(images@, n_tags),
    ensures
        match r {
            Ok((slides, total)) => {
                let deck = deck_of_sets(images@);
                &&& n_tags <= MAX_BIT_TAGS
                &&& slides@.len() > 0
                &&& fixed_start(deck.vert, slides@[0])
                &&& slides@ == deck.show(slides@[0])
                &&& total == deck.show_total(slides@[0])
            },
            Err(ShowError::TooManyTags) => n_tags > MAX_BIT_TAGS,
            Err(ShowError::TooFewPhotos) => n_tags <= MAX_BIT_TAGS && images@.len() < 2 && forall|
                j: int,
            | 0 <= j < images@.len() ==> images@[j].vert,
        },
{
    if n_tags > MAX_BIT_TAGS {
        return Err(ShowError::TooManyTags);
    }
    let album = BitAlbum::new(images, n_tags);
    let n = images.len();
    let mut j: usize = 0;
    while j < n && images[j].vert
        invariant
            j <= n == images@.len(),
            forall|k: int| 0 <= k < j ==> images@[k].vert,
        decreases n - j,
    {
        j = j + 1;
    }
    let first = if j < n {
        (j as u32, NON_EXISTENT_IMG)
    } else if n >= 2 {
        (0u32, 1u32)
    } else {
        return Err(ShowError::TooFewPhotos);
    };
    let ghost deck = album.deck();
    let (slides, total) = solve_from(&album, first);
    proof {
        assert(slides@[0] == first);
        if j < n {
            assert(!deck.vert[j as int]);
        }
        assert(fixed_start(deck.vert, first));
    }
    Ok((slides, total))
}

/// A horizontal photo or two photos can start the show.
pub open spec fn can_start_fixed(images: Seq<Img>) -> bool {
    images.len() >= 2 || exists|j: int| 0 <= j < images.len() && !(#[trigger] images[j]).vert
}

/// Builds a show greedily over bit sets of tags, from the first slide
/// described by [`fixed_start`]. Returns the slides and their interest
/// added up, and nothing where there are more than [`MAX_BIT_TAGS`] tags.
pub fn solve_bitsets(images: &Vec<Img>, n_tags: usize) -> (r: Option<(Vec<(u32, u32)>, u128)>)
    requires
        images@.len() <= NON_EXISTENT_IMG,
        tags_below(images@, n_tags),
        n_tags <= MAX_BIT_TAGS ==> can_start_fixed(images@),
    ensures
        match r {
            Some((slides, total)) => {
                let deck = deck_of_sets(images@);
                &&& n_tags <= MAX_BIT_TAGS
                &&& slides@.len() > 0
                &&& fixed_start(deck.vert, slides@[0])
                &&& slides@ == deck.show(slides@[0])
                &&& total == deck.show_total(slides@[0])
            },
            None => n_tags > MAX_BIT_TAGS,
        },
{
    match try_solve_bitsets(images, n_tags) {
        Ok(show) => Some(show),
        Err(ShowError::TooManyTags) => None,
        Err(ShowError::TooFewPhotos) => {
            proof {
                if exists|j: int| 0 <= j < images@.len() && !(#[trigger] images@[j]).vert {
                    let j = choose|j: int| 0 <= j < images@.len() && !(#[trigger] images@[j]).vert;
                    assert(images@[j].vert);
                }
            }
            vstd::pervasive::unreached()
        },
    }
}

} // verus!
