//! Lists and bit sets give the same show.

use vstd::prelude::*;
use crate::helpers::flags::{lemma_unused_update, unused};
use crate::qualification2019::bits::deck_of_sets;
use crate::qualification2019::slideshow::{pair_le, NON_EXISTENT_IMG};
use crate::qualification2019::tags::{
    ascending, lemma_interest_of_sets, lemma_merged_is_union, merged, tag_set,
};
use crate::qualification2019::vector::{vector_deck, Img};

verus! {

/// The tags of every photo are in ascending order.
pub open spec fn all_ascending(images: Seq<Img>) -> bool {
    forall|j: int| 0 <= j < images.len() ==> ascending((#[trigger] images[j]).tags@)
}

/// The tags of a slide are in ascending order, and as a set they are the
/// tags that the slide has when tags are held as sets.
proof fn lemma_slide_tags(images: Seq<Img>, slide: (u32, u32))
    requires
        all_ascending(images),
        vector_deck(images).valid_slide(slide),
    ensures
        ascending(vector_deck(images).slide_tags(slide)),
        deck_of_sets(images).slide_tags(slide) == tag_set(vector_deck(images).slide_tags(slide)),
{
    if slide.1 != NON_EXISTENT_IMG {
        lemma_merged_is_union(images[slide.0 as int].tags@, images[slide.1 as int].tags@);
    }
}

/// After the same slide, every photo and every pair of photos has the
/// same interest whether tags are held as lists or as sets.
proof fn lemma_scores_agree(images: Seq<Img>, last: (u32, u32))
    requires
        all_ascending(images),
        vector_deck(images).valid_slide(last),
    ensures
        forall|j: int|
            0 <= j < images.len() ==> #[trigger] vector_deck(images).single_score(
                vector_deck(images).slide_tags(last),
                j,
            ) == deck_of_sets(images).single_score(deck_of_sets(images).slide_tags(last), j),
        forall|f: int, j: int|
            0 <= f < images.len() && 0 <= j < images.len() ==> #[trigger] vector_deck(
                images,
            ).pair_score(vector_deck(images).slide_tags(last), f, j) == deck_of_sets(
                images,
            ).pair_score(deck_of_sets(images).slide_tags(last), f, j),
{
    let lists = vector_deck(images);
    let sets = deck_of_sets(images);
    let prev = lists.slide_tags(last);
    lemma_slide_tags(images, last);
    assert forall|j: int| 0 <= j < images.len() implies #[trigger] lists.single_score(prev, j)
        == sets.single_score(sets.slide_tags(last), j) by {
        lemma_interest_of_sets(prev, images[j].tags@);
    }
    assert forall|f: int, j: int|
        0 <= f < images.len() && 0 <= j < images.len() implies #[trigger] lists.pair_score(
        prev,
        f,
        j,
    ) == sets.pair_score(sets.slide_tags(last), f, j) by {
        lemma_merged_is_union(images[f].tags@, images[j].tags@);
        lemma_interest_of_sets(prev, merged(images[f].tags@, images[j].tags@));
    }
}

/// Where the tags of every photo are in ascending order, the greedy rule
/// continues a show in the same way, and with the same interest, whether
/// tags are held as lists or as sets.
pub proof fn lemma_rest_agrees(images: Seq<Img>, used: Seq<bool>, last: (u32, u32))
    requires
        all_ascending(images),
        images.len() <= NON_EXISTENT_IMG,
        used.len() == images.len(),
        vector_deck(images).valid_slide(last),
    ensures
        vector_deck(images).rest(used, last) == deck_of_sets(images).rest(used, last),
        vector_deck(images).rest_total(used, last) == deck_of_sets(images).rest_total(used, last),
    decreases unused(used),
{
    let lists = vector_deck(images);
    let sets = deck_of_sets(images);
    let prev = lists.slide_tags(last);
    let prev_set = sets.slide_tags(last);
    lemma_scores_agree(images, last);
    assert forall|j: int| lists.is_pick(used, prev, j) == sets.is_pick(used, prev_set, j) by {
        if lists.is_pick(used, prev, j) {
            assert forall|k: int| 0 <= k < sets.len() && !used[k] implies
                pair_le(
                (#[trigger] sets.single_score(prev_set, k), k),
                (sets.single_score(prev_set, j), j),
            ) by {
                assert(lists.single_score(prev, k) == sets.single_score(prev_set, k));
            }
        }
        if sets.is_pick(used, prev_set, j) {
            assert forall|k: int| 0 <= k < lists.len() && !used[k] implies
                pair_le(
                (#[trigger] lists.single_score(prev, k), k),
                (lists.single_score(prev, j), j),
            ) by {
                assert(lists.single_score(prev, k) == sets.single_score(prev_set, k));
            }
        }
    }
    if lists.has_pick(used, prev) {
        let j = lists.pick(used, prev);
        assert(lists.is_pick(used, prev, j));
        assert(sets.is_pick(used, prev_set, j));
        sets.lemma_pick_unique(used, prev_set, j);
        lemma_unused_update(used, j);
        if !lists.vert[j] {
            lemma_rest_agrees(images, used.update(j, true), (j as u32, NON_EXISTENT_IMG));
        } else {
            assert forall|k: int|
                lists.is_companion(used, prev, j, k) == sets.is_companion(
                    used,
                    prev_set,
                    j,
                    k,
                ) by {
                if lists.is_companion(used, prev, j, k) {
                    assert forall|m: int| 0 <= m < sets.len() && !used[m] && m != j implies
                        pair_le(
                        (#[trigger] sets.pair_score(prev_set, j, m), m),
                        (sets.pair_score(prev_set, j, k), k),
                    ) by {
                        assert(lists.pair_score(prev, j, m) == sets.pair_score(prev_set, j, m));
                    }
                }
                if sets.is_companion(used, prev_set, j, k) {
                    assert forall|m: int| 0 <= m < lists.len() && !used[m] && m != j implies
                        pair_le(
                        (#[trigger] lists.pair_score(prev, j, m), m),
                        (lists.pair_score(prev, j, k), k),
                    ) by {
                        assert(lists.pair_score(prev, j, m) == sets.pair_score(prev_set, j, m));
                    }
                }
            }
            if lists.has_companion(used, prev, j) {
                let k = lists.companion(used, prev, j);
                assert(lists.is_companion(used, prev, j, k));
                assert(sets.is_companion(used, prev_set, j, k));
                sets.lemma_companion_unique(used, prev_set, j, k);
                lemma_unused_update(used.update(j, true), k);
                lemma_rest_agrees(
                    images,
                    used.update(j, true).update(k, true),
                    (j as u32, k as u32),
                );
            } else {
                if sets.has_companion(used, prev_set, j) {
                    let k = sets.companion(used, prev_set, j);
                    assert(sets.is_companion(used, prev_set, j, k));
                    assert(lists.is_companion(used, prev, j, k));
                }
            }
        }
    } else {
        if sets.has_pick(used, prev_set) {
            let j = sets.pick(used, prev_set);
            assert(sets.is_pick(used, prev_set, j));
            assert(lists.is_pick(used, prev, j));
        }
    }
}

/// Where the tags of every photo are in ascending order, the greedy show
/// from a first slide is the same, and has the same interest, whether
/// tags are held as lists or as sets.
pub proof fn lemma_show_agrees(images: Seq<Img>, first: (u32, u32))
    requires
        all_ascending(images),
        images.len() <= NON_EXISTENT_IMG,
        vector_deck(images).valid_slide(first),
    ensures
        vector_deck(images).show(first) == deck_of_sets(images).show(first),
        vector_deck(images).show_total(first) == deck_of_sets(images).show_total(first),
{
    assert(vector_deck(images).used_by(first) =~= deck_of_sets(images).used_by(first));
    lemma_rest_agrees(images, vector_deck(images).used_by(first), first);
}

} // verus!
