use star_index::index::StarIndex;
use star_index::load::load_stars;
use star_index::ranking::Neighbor;
use star_index::star::{are_in_range, is_coord, Star, COORD_MAX};

fn star(obj_id: u64, ra: i64, dec: i64) -> Star {
    Star { obj_id, ra, dec, u: None, g: None, r: None, i: None, z: None }
}

fn fixed(degrees: f64) -> i64 {
    (degrees * 1e6).round() as i64
}

fn square_degrees(dist_sq: u64) -> f64 {
    dist_sq as f64 / 1e12
}

fn ids(found: &[Neighbor]) -> Vec<u64> {
    found.iter().map(|n| n.star.obj_id).collect()
}

fn grid(side: i64) -> Vec<Star> {
    let mut stars = Vec::new();
    for x in 0..side {
        for y in 0..side {
            stars.push(star((x * side + y) as u64, x * 1_000, y * 1_000 - 7));
        }
    }
    stars
}

fn brute_force(stars: &[Star], qx: i64, qy: i64) -> Vec<u64> {
    let mut distances: Vec<u64> = stars
        .iter()
        .map(|s| ((s.ra - qx) * (s.ra - qx) + (s.dec - qy) * (s.dec - qy)) as u64)
        .collect();
    distances.sort();
    distances
}

#[test]
fn three_stars_two_nearest() {
    let data = b"#Table1\nobj_id,ra,dec\n1,150.0,2.0\n2,150.1,2.1\n3,150.2,2.2\n";
    let index = StarIndex::build(load_stars(data).unwrap());
    let found = index.nearest(fixed(150.0), fixed(2.0), 2);
    assert_eq!(found.len(), 2);
    assert_eq!(found[0].star.obj_id, 1);
    assert_eq!(found[0].dist_sq, 0);
    assert_eq!(found[1].star.obj_id, 2);
    assert_eq!(found[1].dist_sq, 20_000_000_000);
    assert_eq!(square_degrees(found[0].dist_sq), 0.0);
    assert_eq!(square_degrees(found[1].dist_sq), 0.02);
    assert_eq!(found[1].star, star(2, 150_100_000, 2_100_000));
}

#[test]
fn header_only_file_answers_nothing() {
    let stars = load_stars(b"#Table1\nobj_id,ra,dec,u,g,r,i,z\n").unwrap();
    assert!(stars.is_empty());
    let index = StarIndex::build(stars);
    assert!(index.is_empty());
    assert_eq!(index.nearest(0, 0, 5), Vec::new());
}

#[test]
fn empty_index_answers_nothing() {
    let index = StarIndex::build(Vec::new());
    assert_eq!(index.len(), 0);
    for k in [0usize, 1, 5, usize::MAX] {
        assert_eq!(index.nearest(0, 0, k), Vec::new());
        assert_eq!(index.nearest(-COORD_MAX, COORD_MAX, k), Vec::new());
    }
    let mut found = index.neighbors(3, 4);
    assert_eq!(found.next(), None);
    assert_eq!(found.next(), None);
}

#[test]
fn single_star_is_found_from_anywhere() {
    let only = star(9, 5, -5);
    let index = StarIndex::build(vec![only]);
    assert_eq!(index.nearest(5, -5, 1), vec![Neighbor { star: only, dist_sq: 0 }]);
    assert_eq!(index.nearest(8, -1, 3), vec![Neighbor { star: only, dist_sq: 25 }]);
    assert_eq!(index.nearest(8, -1, 0), Vec::new());
}

#[test]
fn distances_never_decrease() {
    let stars = grid(12);
    let index = StarIndex::build(stars.clone());
    for (qx, qy) in [(0, 0), (5_500, 5_500), (-40_000, 3), (11_000, 11_000), (4_000, -7)] {
        let found = index.nearest(qx, qy, stars.len());
        for pair in found.windows(2) {
            assert!(pair[0].dist_sq <= pair[1].dist_sq);
        }
        for n in &found {
            assert_eq!(n.dist_sq, n.star.distance_2(qx, qy));
        }
        let distances: Vec<u64> = found.iter().map(|n| n.dist_sq).collect();
        assert_eq!(distances, brute_force(&stars, qx, qy));
    }
}

#[test]
fn asking_for_all_returns_each_star_once() {
    let stars = grid(9);
    let index = StarIndex::build(stars.clone());
    let found = index.nearest(3_333, 4_444, stars.len());
    assert_eq!(found.len(), stars.len());
    let mut seen = ids(&found);
    seen.sort();
    assert_eq!(seen, (0..stars.len() as u64).collect::<Vec<u64>>());
    for n in &found {
        assert_eq!(n.star, stars[n.star.obj_id as usize]);
    }
}

#[test]
fn asking_for_more_than_all_returns_all() {
    let stars = grid(3);
    let index = StarIndex::build(stars.clone());
    let all = index.nearest(0, 0, stars.len());
    assert_eq!(index.nearest(0, 0, stars.len() + 1), all);
    assert_eq!(index.nearest(0, 0, usize::MAX), all);
    assert_eq!(all.len(), 9);
}

#[test]
fn asking_for_none_returns_none() {
    let index = StarIndex::build(grid(4));
    assert_eq!(index.nearest(1, 1, 0), Vec::new());
}

#[test]
fn shorter_answer_is_prefix_of_longer() {
    let stars = grid(8);
    let index = StarIndex::build(stars.clone());
    for (qx, qy) in [(0, 0), (3_500, 3_500), (7_000, -7)] {
        for k in 0..stars.len() + 2 {
            let shorter = index.nearest(qx, qy, k);
            let mut longer = index.nearest(qx, qy, k + 1);
            if longer.len() == k + 1 {
                longer.pop();
            }
            assert_eq!(shorter, longer);
        }
    }
}

#[test]
fn query_at_a_star_finds_it_first() {
    let stars = grid(10);
    let index = StarIndex::build(stars.clone());
    for s in &stars {
        let found = index.nearest(s.ra, s.dec, 1);
        assert_eq!(found, vec![Neighbor { star: *s, dist_sq: 0 }]);
    }
}

#[test]
fn stars_at_one_place_come_together() {
    let stars = vec![
        star(1, 10, 10),
        star(2, 0, 0),
        star(3, 10, 10),
        star(4, 3, 4),
        star(5, 10, 10),
        star(6, -3, -4),
    ];
    let index = StarIndex::build(stars);
    let found = index.nearest(0, 0, 6);
    assert_eq!(found[0].star.obj_id, 2);
    let mut at_25 = ids(&found[1..3]);
    at_25.sort();
    assert_eq!(at_25, vec![4, 6]);
    let mut at_200 = ids(&found[3..6]);
    at_200.sort();
    assert_eq!(at_200, vec![1, 3, 5]);
    let distances: Vec<u64> = found.iter().map(|n| n.dist_sq).collect();
    assert_eq!(distances, vec![0, 25, 25, 200, 200, 200]);
    // The same query gives the same answer.
    assert_eq!(index.nearest(0, 0, 6), found);
    let first = index.nearest(10, 10, 1);
    assert_eq!(first[0].dist_sq, 0);
    assert_eq!((first[0].star.ra, first[0].star.dec), (10, 10));
}

#[test]
fn neighbors_come_one_at_a_time() {
    let stars = grid(5);
    let index = StarIndex::build(stars.clone());
    let all = index.nearest(2_100, 1_900, stars.len());
    let mut found = index.neighbors(2_100, 1_900);
    for expected in &all {
        assert_eq!(found.next(), Some(*expected));
    }
    assert_eq!(found.next(), None);
    assert_eq!(found.next(), None);
    // A second query on the index starts over.
    let mut again = index.neighbors(2_100, 1_900);
    assert_eq!(again.next(), Some(all[0]));
}

#[test]
fn index_keeps_the_stars_in_their_order() {
    let stars = grid(4);
    let index = StarIndex::build(stars.clone());
    assert_eq!(index.len(), 16);
    assert!(!index.is_empty());
    assert_eq!(index.stars(), &stars);
}

#[test]
fn distances_fit_at_the_edge_of_the_range() {
    let stars = vec![
        star(1, COORD_MAX, COORD_MAX),
        star(2, -COORD_MAX, -COORD_MAX),
        star(3, COORD_MAX, -COORD_MAX),
        star(4, 0, 0),
    ];
    let index = StarIndex::build(stars);
    let found = index.nearest(-COORD_MAX, -COORD_MAX, 4);
    assert_eq!(ids(&found), vec![2, 4, 3, 1]);
    assert_eq!(
        found.iter().map(|n| n.dist_sq).collect::<Vec<u64>>(),
        vec![0, 2_000_000_000_000_000_000, 4_000_000_000_000_000_000, 8_000_000_000_000_000_000]
    );
}

#[test]
fn distance_2_is_the_sum_of_squares() {
    let s = star(1, 150_100_000, 2_100_000);
    assert_eq!(s.distance_2(150_000_000, 2_000_000), 20_000_000_000);
    assert_eq!(s.distance_2(150_100_000, 2_100_000), 0);
    assert_eq!(star(1, -3, 4).distance_2(0, 0), 25);
    assert_eq!(star(1, -3, 4).distance_2(3, -4), 100);
}

#[test]
fn coordinates_are_bounded() {
    assert!(is_coord(0));
    assert!(is_coord(COORD_MAX));
    assert!(is_coord(-COORD_MAX));
    assert!(!is_coord(COORD_MAX + 1));
    assert!(!is_coord(-COORD_MAX - 1));
    assert!(!is_coord(i64::MIN));
    assert!(star(1, COORD_MAX, -COORD_MAX).is_in_range());
    assert!(!star(1, COORD_MAX + 1, 0).is_in_range());
    assert!(!star(1, 0, -COORD_MAX - 1).is_in_range());
}

#[test]
fn many_stars_are_ranked_like_a_full_sort() {
    let mut stars = Vec::new();
    let mut seed: u64 = 0x2545_f491_4f6c_dd1d;
    for id in 0..2_000u64 {
        seed ^= seed << 13;
        seed ^= seed >> 7;
        seed ^= seed << 17;
        let ra = (seed % 360_000_000) as i64;
        let dec = ((seed >> 32) % 180_000_000) as i64 - 90_000_000;
        stars.push(star(id, ra, dec));
    }
    let index = StarIndex::build(stars.clone());
    let found = index.nearest(180_000_000, 0, 25);
    let distances: Vec<u64> = found.iter().map(|n| n.dist_sq).collect();
    assert_eq!(distances, brute_force(&stars, 180_000_000, 0)[..25].to_vec());
}

fn shared_between_threads<T: Send + Sync>() {}

#[test]
fn index_can_be_read_from_many_threads() {
    shared_between_threads::<StarIndex>();
    shared_between_threads::<Star>();
    shared_between_threads::<Neighbor>();
}

#[test]
fn queries_on_one_index_do_not_disturb_each_other() {
    let stars = grid(6);
    let index = StarIndex::build(stars.clone());
    let mut here = index.neighbors(0, 0);
    let mut there = index.neighbors(5_000, 5_000);
    let first_here = here.next().unwrap();
    let first_there = there.next().unwrap();
    assert_eq!(first_here.star.obj_id, 0);
    assert_eq!(first_there.star.obj_id, 35);
    let all_here = index.nearest(0, 0, stars.len());
    let all_there = index.nearest(5_000, 5_000, stars.len());
    assert_eq!(here.next(), Some(all_here[1]));
    assert_eq!(there.next(), Some(all_there[1]));
}

#[test]
fn try_build_refuses_a_star_out_of_range() {
    assert!(StarIndex::try_build(vec![star(1, 0, 0), star(2, COORD_MAX + 1, 0)]).is_none());
    assert!(StarIndex::try_build(vec![star(1, 0, i64::MIN)]).is_none());
    let index = StarIndex::try_build(vec![star(1, 0, 0), star(2, COORD_MAX, 0)]).unwrap();
    assert_eq!(index.len(), 2);
    assert!(StarIndex::try_build(Vec::new()).unwrap().is_empty());
}

#[test]
fn try_nearest_refuses_a_point_out_of_range() {
    let index = StarIndex::build(grid(3));
    assert_eq!(index.try_nearest(COORD_MAX + 1, 0, 1), None);
    assert_eq!(index.try_nearest(0, -COORD_MAX - 1, 1), None);
    assert_eq!(index.try_nearest(i64::MAX, i64::MIN, 0), None);
    let corner = index.nearest(COORD_MAX, -COORD_MAX, 2);
    assert_eq!(index.try_nearest(COORD_MAX, -COORD_MAX, 2), Some(corner));
    assert_eq!(index.try_nearest(1, 1, 0), Some(Vec::new()));
}

#[test]
fn are_in_range_checks_every_star() {
    assert!(are_in_range(&Vec::new()));
    assert!(are_in_range(&vec![star(1, 1, 1), star(2, -COORD_MAX, COORD_MAX)]));
    assert!(!are_in_range(&vec![star(1, 1, 1), star(2, -COORD_MAX - 1, COORD_MAX)]));
    assert!(!are_in_range(&vec![star(1, 1, COORD_MAX + 1), star(2, 0, 0)]));
}
