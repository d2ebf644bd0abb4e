//! Reading the photos from their text and numbering their tags.

use vstd::prelude::*;
use crate::helpers::names::{find_last, NameTable};
use crate::helpers::red::{lemma_repeat_stops, repeat, value_at, Red};
use crate::helpers::sort::{sort_u32, u32_leq};
use crate::qualification2019::vector::Img;

verus! {

/// The photos and the names of all their tags.
#[derive(Debug)]
pub struct Input {
    pub n_images: u32,
    pub images: Vec<Img>,
    /// The tags in the order in which they first occur. The place of a
    /// tag in this list is its number.
    pub all_tags: NameTable,
}

/// How many characters the UTF-8 text `token` has: as many as it has
/// bytes that do not continue a character.
pub open spec fn char_count(token: Seq<u8>) -> nat
    decreases token.len(),
{
    if token.len() == 0 {
        0
    } else {
        char_count(token.drop_last()) + if 0x80 <= token.last() <= 0xBF {
            0nat
        } else {
            1nat
        }
    }
}

/// Whether a photo is vertical, by its orientation mark: a single
/// character, which is `V` for a vertical photo.
pub open spec fn orientation(token: Seq<u8>) -> Option<bool> {
    if char_count(token) == 1 {
        Some(token == seq![86u8])
    } else {
        None
    }
}

/// One photo: its orientation mark, the number of its tags, and the tags.
pub open spec fn photo_at(s: Seq<u8>, pos: int) -> Option<((bool, Seq<Seq<u8>>), int)> {
    match value_at::<Vec<u8>>(s, pos) {
        Some((mark, p1)) => match orientation(mark) {
            Some(vert) => match value_at::<usize>(s, p1) {
                Some((n, p2)) => match repeat(
                    s,
                    p2,
                    n as nat,
                    |s: Seq<u8>, p: int| value_at::<Vec<u8>>(s, p),
                ) {
                    Some((tags, p3)) => Some(((vert, tags), p3)),
                    None => None,
                },
                None => None,
            },
            None => None,
        },
        None => None,
    }
}

/// What the text `s` says: the number of photos, then the photos, each
/// with its orientation and the names of its tags. `None` where a token
/// is missing or is not what is expected. A tag that is missing at the
/// end of the text reads as the empty name. What follows the last photo
/// is not read.
pub open spec fn photos_of(s: Seq<u8>) -> Option<Seq<(bool, Seq<Seq<u8>>)>> {
    match value_at::<u32>(s, 0) {
        Some((n, p1)) => match repeat(s, p1, n as nat, |s: Seq<u8>, p: int| photo_at(s, p)) {
            Some((photos, p2)) => Some(photos),
            None => None,
        },
        None => None,
    }
}

/// The list of tags after the first `k` of `names` were looked up in
/// `table` and added where they were missing.
pub open spec fn interned(table: Seq<Seq<u8>>, names: Seq<Seq<u8>>, k: int) -> Seq<Seq<u8>>
    decreases k,
{
    if k <= 0 {
        table
    } else {
        let t = interned(table, names, k - 1);
        if find_last(t, names[k - 1], t.len() as int) is Some {
            t
        } else {
            t.push(names[k - 1])
        }
    }
}

/// The numbers of the first `k` of `names`, each looked up in the list as
/// it stood when the name was read.
pub open spec fn numbered(table: Seq<Seq<u8>>, names: Seq<Seq<u8>>, k: int) -> Seq<u32>
    decreases k,
{
    if k <= 0 {
        Seq::empty()
    } else {
        let t = interned(table, names, k - 1);
        numbered(table, names, k - 1).push(
            match find_last(t, names[k - 1], t.len() as int) {
                Some(i) => i as u32,
                None => t.len() as u32,
            },
        )
    }
}

/// The list of tags after the first `j` photos were read.
pub open spec fn tags_after(photos: Seq<(bool, Seq<Seq<u8>>)>, j: int) -> Seq<Seq<u8>>
    decreases j,
{
    if j <= 0 {
        Seq::empty()
    } else {
        interned(tags_after(photos, j - 1), photos[j - 1].1, photos[j - 1].1.len() as int)
    }
}

/// The list of tags only grows.
pub proof fn lemma_interned_grows(table: Seq<Seq<u8>>, names: Seq<Seq<u8>>, k: int, n: int)
    requires
        0 <= k <= n,
    ensures
        interned(table, names, k).len() <= interned(table, names, n).len(),
        table.len() <= interned(table, names, k).len(),
    decreases n,
{
    if n > k {
        lemma_interned_grows(table, names, k, n - 1);
    } else if n > 0 {
        lemma_interned_grows(table, names, k - 1, n - 1);
    }
}

/// The list of tags only grows.
pub proof fn lemma_tags_after_grows(photos: Seq<(bool, Seq<Seq<u8>>)>, j: int, n: int)
    requires
        0 <= j <= n,
    ensures
        tags_after(photos, j).len() <= tags_after(photos, n).len(),
    decreases n,
{
    if n > j {
        lemma_tags_after_grows(photos, j, n - 1);
        lemma_interned_grows(
            tags_after(photos, n - 1),
            photos[n - 1].1,
            0,
            photos[n - 1].1.len() as int,
        );
    }
}

/// `input` holds the photos that the text describes: each with its place
/// as its number, unused, and with the numbers of its tags in ascending
/// order.
pub open spec fn describes(input: &Input, photos: Seq<(bool, Seq<Seq<u8>>)>) -> bool {
    &&& input.n_images == photos.len()
    &&& input.images@.len() == photos.len()
    &&& input.all_tags.wf()
    &&& input.all_tags@ == tags_after(photos, photos.len() as int)
    &&& input.all_tags@.len() <= u32::MAX
    &&& forall|j: int|
        0 <= j < photos.len() ==> {
            let img = #[trigger] input.images@[j];
            &&& img.id == j
            &&& !img.used
            &&& img.vert == photos[j].0
            &&& img.tags@ == numbered(
                tags_after(photos, j),
                photos[j].1,
                photos[j].1.len() as int,
            ).sort_by(u32_leq())
            &&& forall|i: int| 0 <= i < img.tags@.len() ==> (#[trigger] img.tags@[i])
                < input.all_tags@.len()
        }
}

/// Counts the characters of `token`.
fn count_chars(token: &Vec<u8>) -> (n: usize)
    ensures
        n == char_count(token@),
{
    let mut n: usize = 0;
    let mut i: usize = 0;
    assert(token@.take(0) =~= Seq::<u8>::empty());
    while i < token.len()
        invariant
            i <= token@.len(),
            n <= i,
            n == char_count(token@.take(i as int)),
        decreases token@.len() - i,
    {
        assert(token@.take(i + 1).drop_last() =~= token@.take(i as int));
        if !(0x80 <= token[i] && token[i] <= 0xBF) {
            n = n + 1;
        }
        i = i + 1;
    }
    assert(token@.take(token@.len() as int) =~= token@);
    n
}

/// The numbers in a sorted list were in the list before.
proof fn lemma_sorted_members(before: Seq<u32>, bound: int)
    requires
        forall|i: int| 0 <= i < before.len() ==> (#[trigger] before[i]) < bound,
    ensures
        forall|i: int|
            0 <= i < before.sort_by(u32_leq()).len() ==> (#[trigger] before.sort_by(u32_leq())[i])
                < bound,
{
    let after = before.sort_by(u32_leq());
    assert(vstd::relations::total_ordering(u32_leq()));
    before.lemma_sort_by_ensures(u32_leq());
    assert forall|i: int| 0 <= i < after.len() implies (#[trigger] after[i]) < bound by {
        let x = after[i];
        assert(after.contains(x));
        if !before.contains(x) {
            assert(!after.contains(x));
        }
        let w = choose|w: int| 0 <= w < before.len() && before[w] == x;
        assert(before[w] < bound);
    }
}

/// Reads one photo, which gets the number `id`, and numbers its tags.
fn read_photo(red: &mut Red, table: &mut NameTable, id: u32) -> (r: Option<Img>)
    requires
        old(table).wf(),
        old(table)@.len() <= u32::MAX,
    ensures
        final(red).bytes() == old(red).bytes(),
        final(table).wf(),
        match r {
            Some(img) => {
                &&& photo_at(old(red).bytes(), old(red).pos()) matches Some((photo, p))
                &&& p == final(red).pos()
                &&& img.id == id
                &&& !img.used
                &&& img.vert == photo.0
                &&& final(table)@ == interned(old(table)@, photo.1, photo.1.len() as int)
                &&& final(table)@.len() <= u32::MAX
                &&& img.tags@ == numbered(old(table)@, photo.1, photo.1.len() as int).sort_by(
                    u32_leq(),
                )
                &&& forall|i: int| 0 <= i < img.tags@.len() ==> (#[trigger] img.tags@[i])
                    < final(table)@.len()
            },
            None => match photo_at(old(red).bytes(), old(red).pos()) {
                Some((photo, p)) => interned(old(table)@, photo.1, photo.1.len() as int).len()
                    > u32::MAX,
                None => true,
            },
        },
{
    let ghost s = red.bytes();
    let ghost t0 = table@;
    let mark = match red.value::<Vec<u8>>() {
        Some(v) => v,
        None => {
            return None;
        },
    };
    if count_chars(&mark) != 1 {
        return None;
    }
    let vert = mark.len() == 1 && mark[0] == 86;
    assert(vert == (mark@ == seq![86u8])) by {
        if mark@.len() == 1 && mark@[0] == 86 {
            assert(mark@ =~= seq![86u8]);
        }
    }
    let n = match red.value::<usize>() {
        Some(v) => v,
        None => {
            return None;
        },
    };
    let ghost p2 = red.pos();
    let ghost one = |s: Seq<u8>, p: int| value_at::<Vec<u8>>(s, p);
    let ghost mut names: Seq<Seq<u8>> = Seq::empty();
    let mut tags: Vec<u32> = Vec::new();
    let mut i: usize = 0;
    while i < n
        invariant
            i <= n,
            red.bytes() == s,
            s == old(red).bytes(),
            t0 == old(table)@,
            one == |s: Seq<u8>, p: int| value_at::<Vec<u8>>(s, p),
            repeat(s, p2, i as nat, one) == Some((names, red.pos())),
            names.len() == i,
            photo_at(s, old(red).pos()) == match repeat(s, p2, n as nat, one) {
                Some((all, p3)) => Some(((vert, all), p3)),
                None => None,
            },
            table.wf(),
            table@ == interned(t0, names, i as int),
            table@.len() <= u32::MAX,
            tags@ == numbered(t0, names, i as int),
            forall|k: int| 0 <= k < tags@.len() ==> (#[trigger] tags@[k]) < table@.len(),
        decreases n - i,
    {
        let name = match red.value::<Vec<u8>>() {
            Some(v) => v,
            None => {
                proof {
                    lemma_repeat_stops(s, p2, (i + 1) as nat, n as nat, one);
                }
                return None;
            },
        };
        let ghost before = names;
        proof {
            names = names.push(name@);
            lemma_same_prefix(t0, before, names, i as int);
            crate::helpers::names::lemma_find_last(table@, name@, table@.len() as int);
        }
        let number = table.intern(name);
        if number > u32::MAX as usize || table.len() > u32::MAX as usize {
            proof {
                // the list of tags has outgrown the numbers
                assert(table@ == interned(t0, names, i + 1));
                lemma_rest_grows(s, p2, i + 1, n as int, one, t0, names);
            }
            return None;
        }
        tags.push(number as u32);
        i = i + 1;
    }
    sort_u32(&mut tags);
    proof {
        lemma_sorted_members(numbered(t0, names, n as int), table@.len() as int);
    }
    Some(Img { id, used: false, vert, tags })
}

/// Numbering the first names does not depend on the names that follow.
pub proof fn lemma_same_prefix(table: Seq<Seq<u8>>, a: Seq<Seq<u8>>, b: Seq<Seq<u8>>, k: int)
    requires
        0 <= k <= a.len(),
        k <= b.len(),
        forall|i: int| 0 <= i < k ==> a[i] == b[i],
    ensures
        interned(table, a, k) == interned(table, b, k),
        numbered(table, a, k) == numbered(table, b, k),
    decreases k,
{
    if k > 0 {
        lemma_same_prefix(table, a, b, k - 1);
    }
}

/// Where reading goes on, the names read so far begin the names read in
/// the end, and the list of tags is no shorter then.
proof fn lemma_rest_grows(
    s: Seq<u8>,
    pos: int,
    k: int,
    n: int,
    one: spec_fn(Seq<u8>, int) -> Option<(Seq<u8>, int)>,
    table: Seq<Seq<u8>>,
    names: Seq<Seq<u8>>,
)
    requires
        0 <= k <= n,
        repeat(s, pos, k as nat, one) is Some,
        run_items(s, pos, k, one) == names,
        names.len() == k,
    ensures
        repeat(s, pos, n as nat, one) matches Some((all, p)) ==> all.len() == n && interned(
            table,
            all,
            n,
        ).len() >= interned(table, names, k).len(),
{
    if repeat(s, pos, n as nat, one) is Some {
        let all = run_items(s, pos, n, one);
        lemma_repeat_prefix(s, pos, k, n, one);
        lemma_same_prefix(table, names, all, k);
        lemma_interned_grows(table, all, k, n);
    }
}

/// The records of a run that can be read.
pub open spec fn run_items<V>(
    s: Seq<u8>,
    pos: int,
    n: int,
    one: spec_fn(Seq<u8>, int) -> Option<(V, int)>,
) -> Seq<V> {
    (repeat(s, pos, n as nat, one)->0).0
}

/// A run of records begins with every shorter run.
pub proof fn lemma_repeat_prefix<V>(
    s: Seq<u8>,
    pos: int,
    k: int,
    n: int,
    one: spec_fn(Seq<u8>, int) -> Option<(V, int)>,
)
    requires
        0 <= k <= n,
        repeat(s, pos, n as nat, one) is Some,
    ensures
        repeat(s, pos, k as nat, one) is Some,
        run_items(s, pos, n, one).len() == n,
        run_items(s, pos, k, one).len() == k,
        forall|i: int|
            0 <= i < k ==> #[trigger] run_items(s, pos, k, one)[i] == run_items(s, pos, n, one)[i],
    decreases n,
{
    if n > k {
        lemma_repeat_prefix(s, pos, k, n - 1, one);
        lemma_repeat_prefix(s, pos, n - 1, n - 1, one);
    } else if n > 0 {
        lemma_repeat_prefix(s, pos, k - 1, n - 1, one);
    }
}

/// Reads the photos from their text. The tags are numbered in the order
/// in which they first occur, and each photo gets the numbers of its tags
/// in ascending order.
pub fn try_read_problem(bytes: Vec<u8>) -> (r: Option<Input>)
    ensures
        match r {
            Some(input) => photos_of(bytes@) is Some && describes(&input, photos_of(bytes@)->0),
            None => match photos_of(bytes@) {
                Some(photos) => tags_after(photos, photos.len() as int).len() > u32::MAX,
                None => true,
            },
        },
{
    let ghost s = bytes@;
    let mut red = Red::new(bytes);
    let n = match red.value::<u32>() {
        Some(v) => v,
        None => {
            return None;
        },
    };
    let ghost p1 = red.pos();
    let ghost one = |s: Seq<u8>, p: int| photo_at(s, p);
    let ghost mut photos: Seq<(bool, Seq<Seq<u8>>)> = Seq::empty();
    let mut table = NameTable::new();
    let mut images: Vec<Img> = Vec::new();
    let mut j: u32 = 0;
    while j < n
        invariant
            j <= n,
            red.bytes() == s,
            s == bytes@,
            one == |s: Seq<u8>, p: int| photo_at(s, p),
            repeat(s, p1, j as nat, one) == Some((photos, red.pos())),
            photos.len() == j,
            photos_of(s) == match repeat(s, p1, n as nat, one) {
                Some((all, p2)) => Some(all),
                None => None,
            },
            table.wf(),
            table@ == tags_after(photos, j as int),
            table@.len() <= u32::MAX,
            images@.len() == j,
            forall|k: int|
                0 <= k < j ==> {
                    let img = #[trigger] images@[k];
                    &&& img.id == k
                    &&& !img.used
                    &&& img.vert == photos[k].0
                    &&& img.tags@ == numbered(
                        tags_after(photos, k),
                        photos[k].1,
                        photos[k].1.len() as int,
                    ).sort_by(u32_leq())
                    &&& forall|i: int| 0 <= i < img.tags@.len() ==> (#[trigger] img.tags@[i])
                        < table@.len()
                },
        decreases n - j,
    {
        let ghost before = photos;
        let ghost table0 = table@;
        let ghost at = red.pos();
        match read_photo(&mut red, &mut table, j) {
            Some(img) => {
                proof {
                    let photo = (photo_at(s, at)->0).0;
                    photos = photos.push(photo);
                    lemma_tags_prefix(before, photos, j as int);
                    lemma_interned_grows(table0, photo.1, 0, photo.1.len() as int);
                    assert forall|k: int| 0 <= k < j implies tags_after(photos, k) == tags_after(
                        before,
                        k,
                    ) by {
                        lemma_tags_prefix(before, photos, k);
                    }
                }
                images.push(img);
            },
            None => {
                proof {
                    if photo_at(s, at) is None {
                        lemma_repeat_stops(s, p1, (j + 1) as nat, n as nat, one);
                    } else {
                        let photo = (photo_at(s, at)->0).0;
                        let longer = before.push(photo);
                        lemma_tags_prefix(before, longer, j as int);
                        if repeat(s, p1, n as nat, one) is Some {
                            let all = run_items(s, p1, n as int, one);
                            lemma_repeat_prefix(s, p1, j + 1, n as int, one);
                            assert forall|k: int| 0 <= k < j + 1 implies longer[k] == all[k] by {}
                            lemma_tags_prefix(longer, all, j + 1);
                            lemma_tags_after_grows(all, j + 1, n as int);
                        }
                    }
                }
                return None;
            },
        }
        j = j + 1;
    }
    Some(Input { n_images: n, images, all_tags: table })
}

/// The list of tags after the first photos does not depend on the photos
/// that follow.
pub proof fn lemma_tags_prefix(
    a: Seq<(bool, Seq<Seq<u8>>)>,
    b: Seq<(bool, Seq<Seq<u8>>)>,
    j: int,
)
    requires
        0 <= j <= a.len(),
        j <= b.len(),
        forall|i: int| 0 <= i < j ==> a[i] == b[i],
    ensures
        tags_after(a, j) == tags_after(b, j),
    decreases j,
{
    if j > 0 {
        lemma_tags_prefix(a, b, j - 1);
    }
}

/// Reads the photos from a text that describes them, with no more tags
/// than can be numbered: see [`photos_of`] and [`describes`].
pub fn read_problem(bytes: Vec<u8>) -> (input: Input)
    requires
        photos_of(bytes@) is Some,
        tags_after(photos_of(bytes@)->0, photos_of(bytes@)->0.len() as int).len() <= u32::MAX,
    ensures
        describes(&input, photos_of(bytes@)->0),
{
    match try_read_problem(bytes) {
        Some(input) => input,
        None => vstd::pervasive::unreached(),
    }
}

} // verus!
