use bit_set::BitSet;
use hashcode::qualification2019::album::{best_companion, best_single, solve_from, Album};
use hashcode::qualification2019::annealing::{
    apply_move, apply_reversal, best_reversal, delta_score, draw_candidates, get_score_ids,
    pick_reversal, random_order, total_score,
};
use hashcode::qualification2019::bits::{get_score_bits, solve_bitsets, try_solve_bitsets, BitAlbum};
use hashcode::qualification2019::check::{check, try_check, CheckError};
use hashcode::qualification2019::input::{read_problem, try_read_problem, Input};
use hashcode::qualification2019::slideshow::NON_EXISTENT_IMG;
use hashcode::qualification2019::tags::{get_score, intersection_size, outer_join};
use hashcode::qualification2019::vector::{
    first_slide_random, solve_vector_sets, try_solve_vector_sets, Img, ShowError,
};

const EXAMPLE: &str = "4\nH 3 cat beach sun\nV 2 selfie smile\nV 2 garden selfie\nH 2 garden cat\n";
const NONE: u32 = NON_EXISTENT_IMG;

fn example() -> Input {
    try_read_problem(EXAMPLE.as_bytes().to_vec()).unwrap()
}

fn img(id: u32, vert: bool, tags: Vec<u32>) -> Img {
    Img { id, used: false, vert, tags }
}

fn bits(items: &[usize]) -> BitSet {
    let mut s = BitSet::new();
    for &i in items {
        s.insert(i);
    }
    s
}

#[test]
fn sorted_lists_share_what_both_hold() {
    assert_eq!(intersection_size(&[1, 3, 5, 7], &[3, 4, 5, 8]), 2);
    assert_eq!(intersection_size(&[], &[3, 4]), 0);
    assert_eq!(intersection_size(&[3, 4], &[]), 0);
    assert_eq!(intersection_size(&[1, 2, 3], &[1, 2, 3]), 3);
    assert_eq!(intersection_size(&[1, 2], &[3, 4]), 0);
    assert_eq!(intersection_size(&[0, u32::MAX], &[u32::MAX]), 1);
}

#[test]
fn lists_that_are_not_sorted_are_walked_all_the_same() {
    assert_eq!(intersection_size(&[5, 1], &[1, 5]), 1);
    assert_eq!(intersection_size(&[2, 2], &[2, 2, 2]), 2);
    assert_eq!(outer_join(&[5, 1], &[1, 5]), vec![1, 5, 1]);
    assert_eq!(outer_join(&[2, 2], &[2]), vec![2, 2]);
}

#[test]
fn the_interest_is_the_least_of_three_counts() {
    assert_eq!(get_score(&[0, 1, 2], &[0, 5]), 1);
    assert_eq!(get_score(&[0, 5], &[3, 4, 5]), 1);
    assert_eq!(get_score(&[1, 2, 3, 4], &[3, 4, 5, 6]), 2);
    assert_eq!(get_score(&[1, 2, 3], &[1, 2, 3]), 0);
    assert_eq!(get_score(&[1, 2, 3], &[4, 5, 6]), 0);
    assert_eq!(get_score(&[], &[1]), 0);
    assert_eq!(get_score(&[1, 2, 3, 4, 5], &[4, 5, 6]), 1);
}

#[test]
fn two_sorted_lists_are_joined_into_one() {
    assert_eq!(outer_join(&[3, 5], &[3, 4]), vec![3, 4, 5]);
    assert_eq!(outer_join(&[], &[]), Vec::<u32>::new());
    assert_eq!(outer_join(&[1], &[]), vec![1]);
    assert_eq!(outer_join(&[], &[2, 9]), vec![2, 9]);
    assert_eq!(outer_join(&[1, 4, 9], &[2, 4, 10, 11]), vec![1, 2, 4, 9, 10, 11]);
}

#[test]
fn the_interest_of_bit_sets_is_that_of_lists() {
    assert_eq!(get_score_bits(&bits(&[0, 1, 2]), &bits(&[0, 5])), 1);
    assert_eq!(get_score_bits(&bits(&[1, 2, 3, 4]), &bits(&[3, 4, 5, 6])), 2);
    assert_eq!(get_score_bits(&bits(&[1, 2, 3]), &bits(&[1, 2, 3])), 0);
    assert_eq!(get_score_bits(&bits(&[]), &bits(&[400])), 0);
    assert_eq!(get_score_bits(&bits(&[1, 2, 3, 4, 5, 300]), &bits(&[4, 5, 300, 6, 7, 8, 9])), 3);
}

#[test]
fn the_example_of_2019_is_read() {
    let input = example();
    assert_eq!(input.n_images, 4);
    assert_eq!(input.images.len(), 4);
    assert_eq!(input.all_tags.len(), 6);
    assert_eq!(input.all_tags.find(b"cat"), Some(0));
    assert_eq!(input.all_tags.find(b"beach"), Some(1));
    assert_eq!(input.all_tags.find(b"sun"), Some(2));
    assert_eq!(input.all_tags.find(b"selfie"), Some(3));
    assert_eq!(input.all_tags.find(b"smile"), Some(4));
    assert_eq!(input.all_tags.find(b"garden"), Some(5));
    let seen: Vec<(u32, bool, bool, Vec<u32>)> =
        input.images.iter().map(|i| (i.id, i.used, i.vert, i.tags.clone())).collect();
    assert_eq!(
        seen,
        vec![
            (0, false, false, vec![0, 1, 2]),
            (1, false, true, vec![3, 4]),
            (2, false, true, vec![3, 5]),
            (3, false, false, vec![0, 5]),
        ]
    );
}

#[test]
fn a_tag_that_is_listed_twice_stays_twice() {
    let input = try_read_problem(b"1 H 3 b a b".to_vec()).unwrap();
    assert_eq!(input.images[0].tags, vec![0, 0, 1]);
}

#[test]
fn the_orientation_is_one_character() {
    assert!(try_read_problem(b"1 HV 1 a".to_vec()).is_none());
    assert!(try_read_problem(b"1".to_vec()).is_none());
    assert!(!try_read_problem(b"1 v 1 a".to_vec()).unwrap().images[0].vert);
    assert!(try_read_problem(b"1 V 1 a".to_vec()).unwrap().images[0].vert);
    assert!(!try_read_problem("1 é 1 a".as_bytes().to_vec()).unwrap().images[0].vert);
    assert!(try_read_problem("1 éé 1 a".as_bytes().to_vec()).is_none());
}

#[test]
fn photos_that_are_cut_short_are_refused() {
    assert!(try_read_problem(b"".to_vec()).is_none());
    assert!(try_read_problem(b"2 H 1 a".to_vec()).is_none());
    assert!(try_read_problem(b"1 H x a".to_vec()).is_none());
    assert!(try_read_problem(b"1 H 1 abcdefghijklmnopqrstu".to_vec()).is_none());
    assert_eq!(try_read_problem(b"1 H 1 abcdefghijklmnopqrst".to_vec()).unwrap().all_tags.len(), 1);
    // a tag that is missing at the end is the empty tag
    let input = try_read_problem(b"1 H 2 a".to_vec()).unwrap();
    assert_eq!(input.images[0].tags, vec![0, 1]);
    assert_eq!(input.all_tags.find(b""), Some(1));
    assert_eq!(try_read_problem(b"0".to_vec()).unwrap().images.len(), 0);
}

#[test]
fn the_photo_to_show_next() {
    let images = example().images;
    let prev = vec![0, 1, 2];
    assert_eq!(best_single(&images, &vec![true, false, false, false], &prev), Some((1, 3)));
    assert_eq!(best_single(&images, &vec![true, false, false, true], &prev), None);
    // among equals the higher number
    assert_eq!(best_single(&images, &vec![false, false, false, true], &vec![0, 5]), Some((1, 2)));
    assert_eq!(best_companion(&images, &vec![true, false, false, true], &vec![0, 5], 2), Some((1, 1)));
    assert_eq!(best_companion(&images, &vec![false, true, false, true], &vec![0, 5], 2), None);
}

#[test]
fn an_album_of_lists_answers_for_its_photos() {
    let images = example().images;
    assert_eq!(Album::len(&images), 4);
    assert!(!images.is_vertical(0));
    assert!(images.is_vertical(1));
    assert_eq!(images.tags_of(2), vec![3, 5]);
    assert_eq!(images.joined(1, 2), vec![3, 4, 5]);
    assert_eq!(images.score_single(&vec![0, 5], 0), 1);
    assert_eq!(images.score_pair(&vec![0, 5], 2, 1), 1);
    assert_eq!(images.score_pair(&vec![0, 5], 2, 0), 0);
}

#[test]
fn an_album_of_bit_sets_answers_for_its_photos() {
    let images = example().images;
    let album = BitAlbum::new(&images, 6);
    assert_eq!(album.len(), 4);
    assert_eq!(album.vert, vec![false, true, true, false]);
    assert_eq!(album.bits[2], bits(&[3, 5]));
    assert!(album.is_vertical(2));
    assert_eq!(album.tags_of(3), bits(&[0, 5]));
    assert_eq!(album.joined(1, 2), bits(&[3, 4, 5]));
    assert_eq!(album.score_single(&bits(&[0, 5]), 0), 1);
    assert_eq!(album.score_pair(&bits(&[0, 5]), 2, 1), 1);
    assert_eq!(album.score_pair(&bits(&[0, 5]), 2, 0), 0);
}

#[test]
fn the_show_of_the_example_from_its_first_photo() {
    let images = example().images;
    assert_eq!(solve_from(&images, (0, NONE)), (vec![(0, NONE), (3, NONE), (2, 1)], 2));
    assert_eq!(solve_from(&images, (1, 2)), (vec![(1, 2), (3, NONE), (0, NONE)], 2));
    let album = BitAlbum::new(&images, 6);
    assert_eq!(solve_from(&album, (0, NONE)), (vec![(0, NONE), (3, NONE), (2, 1)], 2));
}

#[test]
fn the_show_over_bit_sets_starts_with_the_first_horizontal_photo() {
    let input = example();
    assert_eq!(
        try_solve_bitsets(&input.images, input.all_tags.len()),
        Ok((vec![(0, NONE), (3, NONE), (2, 1)], 2))
    );
}

#[test]
fn the_show_over_bit_sets_of_vertical_photos_starts_with_the_first_two() {
    let images = vec![img(0, true, vec![0, 1]), img(1, true, vec![2, 3]), img(2, true, vec![1, 2, 4, 5])];
    assert_eq!(try_solve_bitsets(&images, 6), Ok((vec![(0, 1)], 0)));
    let more = vec![
        img(0, true, vec![0, 1]),
        img(1, true, vec![2, 3]),
        img(2, true, vec![1, 2, 4, 5]),
        img(3, true, vec![6]),
    ];
    assert_eq!(try_solve_bitsets(&more, 7), Ok((vec![(0, 1), (2, 3)], 2)));
}

#[test]
fn bit_sets_are_for_few_tags() {
    let input = example();
    assert_eq!(try_solve_bitsets(&input.images, 501), Err(ShowError::TooManyTags));
    assert!(try_solve_bitsets(&input.images, 500).is_ok());
    assert_eq!(try_solve_bitsets(&vec![], 0), Err(ShowError::TooFewPhotos));
    assert_eq!(try_solve_bitsets(&vec![img(0, true, vec![])], 0), Err(ShowError::TooFewPhotos));
    assert_eq!(try_solve_bitsets(&vec![img(0, false, vec![])], 0), Ok((vec![(0, NONE)], 0)));
}

#[test]
fn the_show_over_lists_starts_with_the_last_horizontal_photo() {
    let input = example();
    for _ in 0..20 {
        assert_eq!(first_slide_random(&input.images), Ok((3, NONE)));
        assert_eq!(try_solve_vector_sets(&input.images), Ok((vec![(3, NONE), (2, 1)], 1)));
    }
}

#[test]
fn the_show_over_lists_of_vertical_photos_starts_with_two_of_them() {
    let images = vec![img(0, true, vec![0]), img(1, true, vec![1]), img(2, true, vec![2])];
    let mut seen = std::collections::HashSet::new();
    for _ in 0..300 {
        let (a, b) = first_slide_random(&images).unwrap();
        assert!(a < 3 && b < 3 && a != b);
        seen.insert((a, b));
        let (slides, total) = try_solve_vector_sets(&images).unwrap();
        assert_eq!(slides.len(), 1);
        assert_eq!(total, 0);
    }
    assert_eq!(seen.len(), 6);
    assert_eq!(try_solve_vector_sets(&vec![img(0, true, vec![0])]), Err(ShowError::TooFewPhotos));
    assert_eq!(try_solve_vector_sets(&vec![]), Err(ShowError::TooFewPhotos));
}

#[test]
fn the_score_of_the_show_in_the_problem_statement() {
    let images = example().images;
    assert_eq!(try_check(&images, b"3\n0\n3\n1 2\n".to_vec()), Ok(2));
    assert_eq!(try_check(&images, b"3\n0\n3\n2 1\n".to_vec()), Ok(2));
    assert_eq!(try_check(&images, b"2\n3\n2 1\n".to_vec()), Ok(1));
    assert_eq!(try_check(&images, b"0\n".to_vec()), Ok(0));
    assert_eq!(try_check(&images, b"1\n0 3\n".to_vec()), Ok(0));
}

#[test]
fn shows_that_cannot_be_scored() {
    let images = example().images;
    assert_eq!(try_check(&images, b"".to_vec()), Err(CheckError::Malformed));
    assert_eq!(try_check(&images, b"2\n0\n".to_vec()), Err(CheckError::Malformed));
    assert_eq!(try_check(&images, b"1\n1\n".to_vec()), Err(CheckError::Malformed));
    assert_eq!(try_check(&images, b"1\n4\n".to_vec()), Err(CheckError::UnknownPhoto));
    assert_eq!(try_check(&images, b"1\n1 4\n".to_vec()), Err(CheckError::UnknownPhoto));
    assert_eq!(try_check(&images, b"2\n0\n0\n".to_vec()), Err(CheckError::PhotoReused));
    assert_eq!(try_check(&images, b"2\n1 2\n2 1\n".to_vec()), Err(CheckError::PhotoReused));
    assert_eq!(try_check(&images, b"2\n3\n1 3\n".to_vec()), Err(CheckError::PhotoReused));
    let mut taken = example().images;
    taken[0].used = true;
    assert_eq!(try_check(&taken, b"1\n0\n".to_vec()), Err(CheckError::PhotoReused));
}

#[test]
fn a_vertical_photo_may_share_a_slide_with_itself() {
    let images = example().images;
    assert_eq!(try_check(&images, b"2\n3\n2 2\n".to_vec()), Ok(1));
}

fn graph() -> Vec<Vec<(usize, i32)>> {
    vec![vec![(1, 2), (2, 1)], vec![(0, 2), (2, 3)], vec![(0, 1), (1, 3), (1, 100)]]
}

#[test]
fn the_interest_of_two_photos_is_the_first_that_is_listed() {
    let g = graph();
    assert_eq!(get_score_ids(&g, 0, 1), 2);
    assert_eq!(get_score_ids(&g, 2, 1), 3);
    assert_eq!(get_score_ids(&g, 1, 1), 0);
    assert_eq!(get_score_ids(&g, 0, 7), 0);
}

#[test]
fn the_interest_of_a_show_adds_up_its_steps() {
    let g = graph();
    assert_eq!(total_score(&g, &vec![0, 1, 2]), 5);
    assert_eq!(total_score(&g, &vec![1, 0, 2]), 3);
    assert_eq!(total_score(&g, &vec![2]), 0);
    assert_eq!(total_score(&g, &vec![]), 0);
    assert_eq!(total_score(&g, &vec![0, 0]), 0);
}

#[test]
fn reversing_a_stretch_changes_the_interest_at_its_ends() {
    let g = graph();
    let order = vec![0, 1, 2];
    for i in 0..3 {
        for j in i..3 {
            let mut after = order.clone();
            apply_reversal(&mut after, i, j);
            let mut expected = order.clone();
            expected[i..=j].reverse();
            assert_eq!(after, expected);
            assert_eq!(
                total_score(&g, &after),
                total_score(&g, &order) + delta_score(&g, &order, i, j)
            );
        }
    }
    assert_eq!(delta_score(&g, &order, 0, 1), -2);
    assert_eq!(delta_score(&g, &order, 1, 2), -1);
    assert_eq!(delta_score(&g, &order, 0, 2), 0);
}

#[test]
fn a_longer_stretch_is_reversed_in_place() {
    let mut order = vec![10, 11, 12, 13, 14, 15, 16];
    apply_reversal(&mut order, 1, 5);
    assert_eq!(order, vec![10, 15, 14, 13, 12, 11, 16]);
    apply_reversal(&mut order, 2, 5);
    assert_eq!(order, vec![10, 15, 11, 12, 13, 14, 16]);
    apply_reversal(&mut order, 3, 3);
    assert_eq!(order, vec![10, 15, 11, 12, 13, 14, 16]);
}

#[test]
fn the_best_reversal_changes_most_and_has_the_higher_places() {
    let g = graph();
    let order = vec![0, 1, 2];
    assert_eq!(best_reversal(&g, &order, &vec![]), (i32::MIN as i64, 0, 0));
    assert_eq!(best_reversal(&g, &order, &vec![(1, 0)]), (-2, 0, 1));
    assert_eq!(best_reversal(&g, &order, &vec![(1, 0), (2, 2), (0, 2)]), (0, 2, 2));
    assert_eq!(best_reversal(&g, &order, &vec![(0, 2), (1, 0), (0, 0)]), (0, 0, 2));
    assert_eq!(best_reversal(&g, &vec![1, 0, 2], &vec![(0, 1), (1, 2)]), (2, 0, 1));
}

#[test]
fn reversals_are_drawn_among_the_places_of_the_show() {
    assert_eq!(draw_candidates(5, 0), vec![]);
    assert_eq!(draw_candidates(5, -3), vec![]);
    let drawn = draw_candidates(5, 200);
    assert_eq!(drawn.len(), 200);
    assert!(drawn.iter().all(|&(a, b)| a < 5 && b < 5));
    assert!(drawn.iter().any(|&(a, b)| a > b));
    assert_eq!(draw_candidates(1, 3), vec![(0, 0), (0, 0), (0, 0)]);
}

#[test]
fn the_reversal_that_is_picked_is_one_of_the_show() {
    let g = graph();
    let order = vec![0, 1, 2];
    assert_eq!(pick_reversal(&g, &order, 0), (i32::MIN as i64, 0, 0));
    for _ in 0..50 {
        let (delta, i, j) = pick_reversal(&g, &order, 3);
        assert!(i <= j && j < 3);
        assert_eq!(delta, delta_score(&g, &order, i, j));
    }
    // with many draws the best of all is found
    assert_eq!(pick_reversal(&g, &order, 500), (0, 2, 2));
}

#[test]
fn a_reversal_is_taken_or_left() {
    let mut order = vec![0, 1, 2];
    assert_eq!(apply_move(&mut order, 5, -2, 0, 1, false), 5);
    assert_eq!(order, vec![0, 1, 2]);
    assert_eq!(apply_move(&mut order, 5, -2, 0, 1, true), 3);
    assert_eq!(order, vec![1, 0, 2]);
}

#[test]
fn a_random_order_holds_every_photo_once() {
    assert_eq!(random_order(0), Vec::<usize>::new());
    assert_eq!(random_order(1), vec![0]);
    let mut orders = std::collections::HashSet::new();
    for _ in 0..200 {
        let order = random_order(4);
        let mut sorted = order.clone();
        sorted.sort();
        assert_eq!(sorted, vec![0, 1, 2, 3]);
        orders.insert(order);
    }
    assert!(orders.len() > 1);
}

#[test]
fn a_text_that_describes_photos_is_read_outright() {
    let input = read_problem(EXAMPLE.as_bytes().to_vec());
    assert_eq!(input.images.len(), 4);
    assert_eq!(input.images[3].tags, vec![0, 5]);
    assert_eq!(check(&input.images, b"3\n0\n3\n1 2\n".to_vec()), 2);
    assert_eq!(check(&input.images, b"1\n3\n".to_vec()), 0);
}

#[test]
fn photos_that_can_start_a_show_are_shown_outright() {
    let input = example();
    assert_eq!(solve_vector_sets(&input.images), (vec![(3, NONE), (2, 1)], 1));
    assert_eq!(
        solve_bitsets(&input.images, input.all_tags.len()),
        Some((vec![(0, NONE), (3, NONE), (2, 1)], 2))
    );
    assert_eq!(solve_bitsets(&input.images, 501), None);
    assert_eq!(solve_bitsets(&vec![], 501), None);
}
