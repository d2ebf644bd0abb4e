//! Scoring a slide show that was written down.

use vstd::prelude::*;
use crate::helpers::red::{after_token, value_at, Red};
use crate::helpers::flags::{lemma_unused_bound, lemma_unused_update, unused};
use crate::qualification2019::tags::{get_score, interest, merged, outer_join};
use crate::qualification2019::vector::Img;

verus! {

/// Why a slide show has no score.
#[derive(Clone, Copy, Debug, PartialEq, Eq, Structural)]
pub enum CheckError {
    /// A number is missing or is not a number.
    Malformed,
    /// A slide shows a photo that does not exist.
    UnknownPhoto,
    /// A slide shows a photo that an earlier slide shows.
    PhotoReused,
}

/// The photo whose number stands at `pos`, if it can be shown.
pub open spec fn photo_at(images: Seq<Img>, used: Seq<bool>, s: Seq<u8>, pos: int) -> Result<
    int,
    CheckError,
> {
    match value_at::<usize>(s, pos) {
        None => Err(CheckError::Malformed),
        Some((id, p)) => if id >= images.len() {
            Err(CheckError::UnknownPhoto)
        } else if used[id as int] {
            Err(CheckError::PhotoReused)
        } else {
            Ok(id as int)
        },
    }
}

/// The score of the `k` slides that stand from `pos` on, added to
/// `total`, when the photos marked in `used` are taken and the slide
/// before showed the tags `prev`. A slide is the number of a photo, and
/// one more where the first is vertical.
pub open spec fn score_slides(
    images: Seq<Img>,
    s: Seq<u8>,
    pos: int,
    used: Seq<bool>,
    prev: Seq<u32>,
    total: int,
    k: nat,
) -> Result<int, CheckError>
    decreases k,
{
    if k == 0 {
        Ok(total)
    } else {
        match photo_at(images, used, s, pos) {
            Err(e) => Err(e),
            Ok(a) => {
                let p1 = after_token(s, pos);
                if !images[a].vert {
                    let tags = images[a].tags@;
                    score_slides(
                        images,
                        s,
                        p1,
                        used.update(a, true),
                        tags,
                        total + interest(prev, tags),
                        (k - 1) as nat,
                    )
                } else {
                    match photo_at(images, used, s, p1) {
                        Err(e) => Err(e),
                        Ok(b) => {
                            let tags = merged(images[a].tags@, images[b].tags@);
                            score_slides(
                                images,
                                s,
                                after_token(s, p1),
                                used.update(a, true).update(b, true),
                                tags,
                                total + interest(prev, tags),
                                (k - 1) as nat,
                            )
                        },
                    }
                }
            },
        }
    }
}

/// The score of the slide show that the text `s` writes down: the number
/// of slides, then the slides. Photos that are marked as used in `images`
/// cannot be shown.
pub open spec fn score_of(images: Seq<Img>, s: Seq<u8>) -> Result<int, CheckError> {
    match value_at::<usize>(s, 0) {
        None => Err(CheckError::Malformed),
        Some((n, p)) => score_slides(
            images,
            s,
            p,
            images.map_values(|i: Img| i.used),
            Seq::empty(),
            0,
            n as nat,
        ),
    }
}

/// Reads the number of a photo that can be shown.
fn read_photo(images: &Vec<Img>, used: &Vec<bool>, red: &mut Red) -> (r: Result<usize, CheckError>)
    requires
        used@.len() == images@.len(),
    ensures
        final(red).bytes() == old(red).bytes(),
        final(red).pos() == after_token(old(red).bytes(), old(red).pos()),
        match r {
            Ok(id) => photo_at(images@, used@, old(red).bytes(), old(red).pos()) == Ok::<
                int,
                CheckError,
            >(id as int) && id < images@.len() && !used@[id as int],
            Err(e) => photo_at(images@, used@, old(red).bytes(), old(red).pos()) == Err::<
                int,
                CheckError,
            >(e),
        },
{
    match red.value::<usize>() {
        None => Err(CheckError::Malformed),
        Some(id) => {
            if id >= images.len() {
                Err(CheckError::UnknownPhoto)
            } else if used[id] {
                Err(CheckError::PhotoReused)
            } else {
                Ok(id)
            }
        },
    }
}

/// Scores the slide show that `solution` writes down for `images`: the
/// interest of each slide after the one before, added up. The show is
/// refused where it shows a photo twice or one that does not exist.
pub fn try_check(images: &Vec<Img>, solution: Vec<u8>) -> (r: Result<u128, CheckError>)
    requires
        images@.len() <= u32::MAX,
    ensures
        match r {
            Ok(total) => score_of(images@, solution@) == Ok::<int, CheckError>(total as int),
            Err(e) => score_of(images@, solution@) == Err::<int, CheckError>(e),
        },
{
    let ghost s = solution@;
    let n_images = images.len();
    let mut red = Red::new(solution);
    let n_slides = match red.value::<usize>() {
        Some(n) => n,
        None => {
            return Err(CheckError::Malformed);
        },
    };
    let mut used: Vec<bool> = Vec::new();
    let mut j: usize = 0;
    while j < n_images
        invariant
            j <= n_images == images@.len(),
            used@.len() == j,
            forall|k: int| 0 <= k < j ==> #[trigger] used@[k] == images@[k].used,
        decreases n_images - j,
    {
        used.push(images[j].used);
        j = j + 1;
    }
    assert(used@ =~= images@.map_values(|i: Img| i.used));
    let mut prev: Vec<u32> = Vec::new();
    let mut total: u128 = 0;
    let mut k: usize = 0;
    proof {
        lemma_unused_bound(used@);
    }
    while k < n_slides
        invariant
            k <= n_slides,
            n_images == images@.len(),
            n_images <= u32::MAX,
            red.bytes() == s,
            s == solution@,
            used@.len() == n_images,
            score_of(images@, s) == score_slides(
                images@,
                s,
                red.pos(),
                used@,
                prev@,
                total as int,
                (n_slides - k) as nat,
            ),
            unused(used@) <= n_images,
            total <= (n_images - unused(used@) + 1) * 0x1_0000_0000_0000_0000,
        decreases n_slides - k,
    {
        let ghost used0 = used@;
        let a = match read_photo(images, &used, &mut red) {
            Ok(a) => a,
            Err(e) => {
                return Err(e);
            },
        };
        proof {
            lemma_unused_update(used0, a as int);
        }
        let tags = if !images[a].vert {
            used.set(a, true);
            vstd::slice::slice_to_vec(images[a].tags.as_slice())
        } else {
            let b = match read_photo(images, &used, &mut red) {
                Ok(b) => b,
                Err(e) => {
                    return Err(e);
                },
            };
            used.set(a, true);
            used.set(b, true);
            proof {
                if a != b {
                    lemma_unused_update(used0.update(a as int, true), b as int);
                } else {
                    assert(used0.update(a as int, true).update(b as int, true) =~= used0.update(
                        a as int,
                        true,
                    ));
                }
            }
            outer_join(images[a].tags.as_slice(), images[b].tags.as_slice())
        };
        let score = get_score(prev.as_slice(), tags.as_slice());
        total = total + score as u128;
        prev = tags;
        k = k + 1;
    }
    Ok(total)
}

/// Scores a slide show that can be scored: see [`score_of`].
pub fn check(images: &Vec<Img>, solution: Vec<u8>) -> (total: u128)
    requires
        images@.len() <= u32::MAX,
        score_of(images@, solution@) is Ok,
    ensures
        score_of(images@, solution@) == Ok::<int, CheckError>(total as int),
{
    match try_check(images, solution) {
        Ok(total) => total,
        Err(_) => vstd::pervasive::unreached(),
    }
}

} // verus!
