use quadtree::basic_implementation::Quadtree;
use quadtree::geometry::{Point, Rectangle};
use quadtree::query_optimization::{QuadtreeBuffer, QuadtreeRayon};
use quadtree::smallvec_implementation::QuadtreeSmallVec;
use quadtree::unsafe_implementation::QuadtreeUnsafe;
use quadtree::CAPACITY;

fn rect(x: i64, y: i64, width: i64, height: i64) -> Rectangle {
    Rectangle { x, y, width, height }
}

fn pt(x: i64, y: i64) -> Point {
    Point { x, y }
}

fn world() -> Rectangle {
    rect(0, 0, 200, 200)
}

fn first_four() -> Vec<Point> {
    vec![pt(50, 50), pt(150, 150), pt(75, 75), pt(125, 125)]
}

fn sorted(mut points: Vec<Point>) -> Vec<Point> {
    points.sort_by_key(|p| (p.x, p.y));
    points
}

/// Points spread over the region by a fixed rule, some of them twice and some
/// on the lines along which the region is divided.
fn scattered(count: i64, side: i64) -> Vec<Point> {
    let mut points = Vec::new();
    let mut i = 0;
    while i < count {
        points.push(pt((i * 37 + 11) % (side + 1), (i * 91 + 5) % (side + 1)));
        if i % 7 == 0 {
            points.push(pt(side / 2, (i * 13) % (side + 1)));
        }
        if i % 11 == 0 {
            points.push(pt((i * 37 + 11) % (side + 1), (i * 91 + 5) % (side + 1)));
        }
        i += 1;
    }
    points
}

fn answer_plain(capacity: usize, boundary: Rectangle, points: &[Point], range: &Rectangle) -> Vec<Point> {
    let mut tree = Quadtree::new(boundary, capacity);
    for p in points {
        tree.insert(*p);
    }
    let mut found = Vec::new();
    tree.query(range, &mut found);
    found
}

fn answer_growable(boundary: Rectangle, points: &[Point], range: &Rectangle) -> Vec<Point> {
    let mut tree = QuadtreeSmallVec::new(boundary);
    for p in points {
        tree.insert(*p);
    }
    let mut found = Vec::new();
    tree.query(range, &mut found);
    found
}

fn answer_bounded(boundary: Rectangle, points: &[Point], range: &Rectangle) -> Vec<Point> {
    let mut tree = QuadtreeUnsafe::new(boundary);
    for p in points {
        tree.insert(*p);
    }
    let mut found = Vec::new();
    tree.query(range, &mut found);
    found
}

fn answer_parallel(boundary: Rectangle, points: &[Point], range: &Rectangle) -> Vec<Point> {
    let mut tree = QuadtreeRayon::new(boundary);
    for p in points {
        tree.insert(*p);
    }
    tree.query(range)
}

fn answer_buffered(boundary: Rectangle, points: &[Point], range: &Rectangle) -> Vec<Point> {
    let mut tree = QuadtreeBuffer::new(boundary);
    for p in points {
        tree.insert(*p);
    }
    let mut buffer = Vec::with_capacity(points.len());
    assert!(tree.query_checked(range, &mut buffer));
    buffer
}

#[test]
fn capacity_is_four() {
    assert_eq!(CAPACITY, 4);
}

#[test]
fn four_points_stay_in_the_root_growable() {
    let mut tree = QuadtreeSmallVec::new(world());
    for p in first_four() {
        assert!(tree.insert(p));
    }
    assert!(!tree.is_divided());
    let mut found = Vec::new();
    tree.query(&rect(40, 40, 50, 50), &mut found);
    assert_eq!(found, vec![pt(50, 50), pt(75, 75)]);
}

#[test]
fn four_points_stay_in_the_root_bounded() {
    let mut tree = QuadtreeUnsafe::new(world());
    for p in first_four() {
        assert!(tree.insert(p));
    }
    assert!(!tree.is_divided());
    let mut found = Vec::new();
    tree.query(&rect(40, 40, 50, 50), &mut found);
    assert_eq!(found, vec![pt(50, 50), pt(75, 75)]);
}

#[test]
fn four_points_stay_in_the_root_parallel() {
    let mut tree = QuadtreeRayon::new(world());
    for p in first_four() {
        assert!(tree.insert(p));
    }
    assert!(!tree.is_divided());
    assert_eq!(tree.query(&rect(40, 40, 50, 50)), vec![pt(50, 50), pt(75, 75)]);
}

#[test]
fn four_points_stay_in_the_root_plain() {
    let mut tree = Quadtree::new(world(), 4);
    for p in first_four() {
        assert!(tree.insert(p));
    }
    assert!(!tree.is_divided());
    let mut found = Vec::new();
    tree.query(&rect(40, 40, 50, 50), &mut found);
    assert_eq!(found, vec![pt(50, 50), pt(75, 75)]);
}

#[test]
fn fifth_point_divides_the_root_growable() {
    let mut tree = QuadtreeSmallVec::new(world());
    for p in first_four() {
        assert!(tree.insert(p));
    }
    assert!(tree.insert(pt(10, 10)));
    assert!(tree.is_divided());
    let mut found = Vec::new();
    tree.query(&world(), &mut found);
    assert_eq!(found, vec![pt(50, 50), pt(150, 150), pt(75, 75), pt(125, 125), pt(10, 10)]);
}

#[test]
fn fifth_point_divides_the_root_bounded() {
    let mut tree = QuadtreeUnsafe::new(world());
    for p in first_four() {
        assert!(tree.insert(p));
    }
    assert!(tree.insert(pt(10, 10)));
    assert!(tree.is_divided());
    let mut found = Vec::new();
    tree.query(&world(), &mut found);
    assert_eq!(found, vec![pt(50, 50), pt(150, 150), pt(75, 75), pt(125, 125), pt(10, 10)]);
}

#[test]
fn fifth_point_divides_the_root_parallel() {
    let mut tree = QuadtreeRayon::new(world());
    for p in first_four() {
        assert!(tree.insert(p));
    }
    assert!(tree.insert(pt(10, 10)));
    assert!(tree.is_divided());
    assert_eq!(
        tree.query(&world()),
        vec![pt(50, 50), pt(150, 150), pt(75, 75), pt(125, 125), pt(10, 10)]
    );
}

#[test]
fn fifth_point_divides_the_root_plain() {
    let mut tree = Quadtree::new(world(), 4);
    for p in first_four() {
        assert!(tree.insert(p));
    }
    assert!(tree.insert(pt(10, 10)));
    assert!(tree.is_divided());
    let mut found = Vec::new();
    tree.query(&world(), &mut found);
    assert_eq!(found, vec![pt(50, 50), pt(150, 150), pt(75, 75), pt(125, 125), pt(10, 10)]);
}

#[test]
fn the_fifth_point_is_found_in_its_quadrant() {
    let mut points = first_four();
    points.push(pt(10, 10));
    let corner = rect(0, 0, 20, 20);
    assert_eq!(answer_growable(world(), &points, &corner), vec![pt(10, 10)]);
    assert_eq!(answer_bounded(world(), &points, &corner), vec![pt(10, 10)]);
    assert_eq!(answer_parallel(world(), &points, &corner), vec![pt(10, 10)]);
    assert_eq!(answer_buffered(world(), &points, &corner), vec![pt(10, 10)]);
    assert_eq!(answer_plain(4, world(), &points, &corner), vec![pt(10, 10)]);
}

#[test]
fn answers_come_in_the_order_of_the_quadrants() {
    // One point for each quadrant after the root is full, given in the
    // reverse of the order in which the quadrants are asked.
    let mut points = first_four();
    points.extend([pt(10, 190), pt(190, 190), pt(10, 10), pt(190, 10)]);
    let expected = vec![
        pt(50, 50),
        pt(150, 150),
        pt(75, 75),
        pt(125, 125),
        pt(190, 10),
        pt(10, 10),
        pt(190, 190),
        pt(10, 190),
    ];
    assert_eq!(answer_growable(world(), &points, &world()), expected);
    assert_eq!(answer_bounded(world(), &points, &world()), expected);
    assert_eq!(answer_parallel(world(), &points, &world()), expected);
    assert_eq!(answer_buffered(world(), &points, &world()), expected);
    assert_eq!(answer_plain(4, world(), &points, &world()), expected);
}

#[test]
fn a_point_on_the_dividing_lines_goes_to_the_first_quadrant_only() {
    let mut tree = QuadtreeSmallVec::new(world());
    for p in first_four() {
        tree.insert(p);
    }
    assert!(tree.insert(pt(100, 100)));
    let mut found = Vec::new();
    tree.query(&world(), &mut found);
    assert_eq!(found.iter().filter(|p| **p == pt(100, 100)).count(), 1);
    // The north-east quadrant has it: a range that overlaps that quadrant
    // finds it, and one that contains the point but overlaps the south-west
    // quadrant alone does not.
    let mut north_east = Vec::new();
    tree.query(&rect(100, 50, 50, 50), &mut north_east);
    assert_eq!(north_east, vec![pt(100, 100)]);
    let south_west_only = rect(50, 100, 50, 50);
    assert!(south_west_only.contains(&pt(100, 100)));
    let mut south_west = Vec::new();
    tree.query(&south_west_only, &mut south_west);
    assert_eq!(south_west, Vec::<Point>::new());
}

#[test]
fn a_quadrant_that_only_touches_the_range_is_not_asked() {
    let mut tree = QuadtreeSmallVec::new(world());
    for p in first_four() {
        tree.insert(p);
    }
    // (100, 50) lies on the west edge of the north-east quadrant, which
    // takes it. The range below ends on that edge.
    assert!(tree.insert(pt(100, 50)));
    let range = rect(0, 0, 100, 100);
    assert!(range.contains(&pt(100, 50)));
    let mut found = Vec::new();
    tree.query(&range, &mut found);
    assert_eq!(found, vec![pt(50, 50), pt(75, 75)]);
    let mut wider = Vec::new();
    tree.query(&rect(0, 0, 101, 100), &mut wider);
    assert_eq!(wider, vec![pt(50, 50), pt(75, 75), pt(100, 50)]);
}

#[test]
fn every_inserted_point_is_found_by_a_query_for_the_boundary() {
    let points = scattered(300, 200);
    let expected = sorted(points.clone());
    assert_eq!(sorted(answer_growable(world(), &points, &world())), expected);
    assert_eq!(sorted(answer_bounded(world(), &points, &world())), expected);
    assert_eq!(sorted(answer_parallel(world(), &points, &world())), expected);
    assert_eq!(sorted(answer_buffered(world(), &points, &world())), expected);
    assert_eq!(sorted(answer_plain(4, world(), &points, &world())), expected);
}

#[test]
fn every_inserted_point_is_found_in_a_region_of_odd_extent() {
    let boundary = rect(-7, 3, 13, 9);
    let mut points = Vec::new();
    for x in -7..=6 {
        for y in 3..=12 {
            points.push(pt(x, y));
        }
    }
    let expected = sorted(points.clone());
    assert_eq!(sorted(answer_growable(boundary, &points, &boundary)), expected);
    assert_eq!(sorted(answer_bounded(boundary, &points, &boundary)), expected);
    assert_eq!(sorted(answer_parallel(boundary, &points, &boundary)), expected);
    assert_eq!(sorted(answer_buffered(boundary, &points, &boundary)), expected);
    assert_eq!(sorted(answer_plain(3, boundary, &points, &boundary)), expected);
}

#[test]
fn insert_accepts_every_point_within_the_boundary() {
    let boundary = rect(0, 0, 9, 9);
    let mut tree = QuadtreeUnsafe::new(boundary);
    for round in 0..3 {
        for x in 0..=9 {
            for y in 0..=9 {
                assert!(tree.insert(pt(x, y)), "round {} point {} {}", round, x, y);
            }
        }
    }
    let mut found = Vec::new();
    tree.query(&boundary, &mut found);
    assert_eq!(found.len(), 300);
}

#[test]
fn many_copies_of_one_point_are_all_kept() {
    let boundary = rect(0, 0, 1, 1);
    let points = vec![pt(0, 0); 200];
    assert_eq!(answer_growable(boundary, &points, &boundary), points);
    assert_eq!(answer_bounded(boundary, &points, &boundary), points);
    assert_eq!(answer_parallel(boundary, &points, &boundary), points);
    assert_eq!(answer_buffered(boundary, &points, &boundary), points);
    assert_eq!(answer_plain(1, boundary, &points, &boundary), points);
}

#[test]
fn many_copies_of_the_far_corner_are_all_kept() {
    let boundary = rect(0, 0, 6, 6);
    let points = vec![pt(6, 6); 60];
    assert_eq!(answer_growable(boundary, &points, &boundary), points);
    assert_eq!(answer_bounded(boundary, &points, &boundary), points);
    assert_eq!(answer_parallel(boundary, &points, &boundary), points);
}

#[test]
fn a_boundary_of_zero_extent_keeps_its_points_but_is_not_found_by_itself() {
    let boundary = rect(5, 5, 0, 0);
    let mut tree = QuadtreeSmallVec::new(boundary);
    for _ in 0..6 {
        assert!(tree.insert(pt(5, 5)));
    }
    assert!(tree.is_divided());
    let mut by_itself = Vec::new();
    tree.query(&boundary, &mut by_itself);
    assert_eq!(by_itself, Vec::<Point>::new());
    let mut around = Vec::new();
    tree.query(&rect(0, 0, 10, 10), &mut around);
    assert_eq!(around, vec![pt(5, 5); 6]);
}

#[test]
fn a_range_apart_from_the_boundary_finds_nothing() {
    let points = scattered(100, 200);
    let apart = rect(300, 300, 50, 50);
    let touching = rect(200, 0, 50, 200);
    for range in [apart, touching] {
        assert_eq!(answer_growable(world(), &points, &range), Vec::<Point>::new());
        assert_eq!(answer_bounded(world(), &points, &range), Vec::<Point>::new());
        assert_eq!(answer_parallel(world(), &points, &range), Vec::<Point>::new());
        assert_eq!(answer_buffered(world(), &points, &range), Vec::<Point>::new());
        assert_eq!(answer_plain(4, world(), &points, &range), Vec::<Point>::new());
    }
}

#[test]
fn a_query_of_an_empty_tree_finds_nothing() {
    assert_eq!(answer_growable(world(), &[], &world()), Vec::<Point>::new());
    assert_eq!(answer_bounded(world(), &[], &world()), Vec::<Point>::new());
    assert_eq!(answer_parallel(world(), &[], &world()), Vec::<Point>::new());
    assert_eq!(answer_buffered(world(), &[], &world()), Vec::<Point>::new());
    assert_eq!(answer_plain(4, world(), &[], &world()), Vec::<Point>::new());
}

#[test]
fn a_point_outside_the_boundary_is_rejected_growable() {
    let mut tree = QuadtreeSmallVec::new(world());
    for p in scattered(40, 200) {
        tree.insert(p);
    }
    let ranges = [world(), rect(190, 190, 100, 100), rect(-50, -50, 400, 400)];
    let mut before = Vec::new();
    for range in &ranges {
        tree.query(range, &mut before);
    }
    for p in [pt(201, 100), pt(100, 201), pt(-1, 100), pt(100, -1), pt(500, 500)] {
        assert!(!tree.insert(p));
    }
    let mut after = Vec::new();
    for range in &ranges {
        tree.query(range, &mut after);
    }
    assert_eq!(before, after);
}

#[test]
fn a_point_outside_the_boundary_is_rejected_bounded() {
    let mut tree = QuadtreeUnsafe::new(world());
    for p in scattered(40, 200) {
        tree.insert(p);
    }
    let mut before = Vec::new();
    tree.query(&rect(-50, -50, 400, 400), &mut before);
    for p in [pt(201, 100), pt(100, 201), pt(-1, 100), pt(100, -1)] {
        assert!(!tree.insert(p));
    }
    let mut after = Vec::new();
    tree.query(&rect(-50, -50, 400, 400), &mut after);
    assert_eq!(before, after);
}

#[test]
fn a_point_outside_the_boundary_is_rejected_parallel() {
    let mut tree = QuadtreeRayon::new(world());
    for p in scattered(40, 200) {
        tree.insert(p);
    }
    let before = tree.query(&rect(-50, -50, 400, 400));
    for p in [pt(201, 100), pt(100, 201), pt(-1, 100), pt(100, -1)] {
        assert!(!tree.insert(p));
    }
    assert_eq!(tree.query(&rect(-50, -50, 400, 400)), before);
}

#[test]
fn a_point_outside_the_boundary_is_rejected_plain() {
    let mut tree = Quadtree::new(world(), 2);
    for p in scattered(40, 200) {
        tree.insert(p);
    }
    let mut before = Vec::new();
    tree.query(&rect(-50, -50, 400, 400), &mut before);
    for p in [pt(201, 100), pt(100, 201), pt(-1, 100), pt(100, -1)] {
        assert!(!tree.insert(p));
    }
    let mut after = Vec::new();
    tree.query(&rect(-50, -50, 400, 400), &mut after);
    assert_eq!(before, after);
}

#[test]
fn a_rejected_point_does_not_divide_a_full_root() {
    let mut tree = QuadtreeSmallVec::new(world());
    for p in first_four() {
        tree.insert(p);
    }
    assert!(!tree.insert(pt(300, 300)));
    assert!(!tree.is_divided());
}

#[test]
fn the_strategies_give_the_same_answers() {
    let points = scattered(500, 200);
    let ranges = [
        world(),
        rect(40, 40, 50, 50),
        rect(0, 0, 100, 100),
        rect(100, 100, 100, 100),
        rect(99, 99, 2, 2),
        rect(150, 0, 10, 200),
        rect(-20, -20, 30, 30),
        rect(37, 91, 0, 0),
    ];
    for range in &ranges {
        let expected = answer_growable(world(), &points, range);
        assert_eq!(answer_bounded(world(), &points, range), expected);
        assert_eq!(answer_parallel(world(), &points, range), expected);
        assert_eq!(answer_buffered(world(), &points, range), expected);
        assert_eq!(answer_plain(CAPACITY, world(), &points, range), expected);
    }
}

#[test]
fn a_query_finds_only_stored_points_within_the_range() {
    let points = scattered(400, 200);
    let range = rect(30, 60, 90, 70);
    let found = answer_growable(world(), &points, &range);
    assert!(!found.is_empty());
    let mut rest = points.clone();
    for p in &found {
        assert!(range.contains(p));
        let at = rest.iter().position(|q| q == p);
        assert!(at.is_some());
        rest.swap_remove(at.unwrap());
    }
}

#[test]
fn a_query_appends_to_what_the_list_holds() {
    let mut tree = QuadtreeSmallVec::new(world());
    for p in first_four() {
        tree.insert(p);
    }
    let mut found = vec![pt(-1, -1)];
    tree.query(&rect(40, 40, 50, 50), &mut found);
    assert_eq!(found, vec![pt(-1, -1), pt(50, 50), pt(75, 75)]);
    let mut bounded = QuadtreeUnsafe::new(world());
    bounded.insert(pt(1, 1));
    bounded.query(&world(), &mut found);
    assert_eq!(found, vec![pt(-1, -1), pt(50, 50), pt(75, 75), pt(1, 1)]);
}

#[test]
fn a_capacity_of_one_divides_at_the_second_point() {
    let mut tree = Quadtree::new(world(), 1);
    assert!(tree.insert(pt(10, 10)));
    assert!(!tree.is_divided());
    assert!(tree.insert(pt(20, 20)));
    assert!(tree.is_divided());
    assert!(tree.insert(pt(30, 30)));
    let mut found = Vec::new();
    tree.query(&world(), &mut found);
    assert_eq!(found, vec![pt(10, 10), pt(20, 20), pt(30, 30)]);
}

#[test]
fn a_larger_capacity_keeps_more_points_in_the_root() {
    let mut tree = Quadtree::new(world(), 6);
    for p in scattered(6, 200).into_iter().take(6) {
        assert!(tree.insert(p));
    }
    assert!(!tree.is_divided());
    assert!(tree.insert(pt(1, 1)));
    assert!(tree.is_divided());
}

#[test]
fn a_tree_at_the_far_end_of_the_grid() {
    let boundary = rect(i64::MAX - 8, i64::MAX - 8, 8, 8);
    let mut points = Vec::new();
    for dx in 0..=8 {
        for dy in 0..=8 {
            points.push(pt(i64::MAX - dx, i64::MAX - dy));
        }
    }
    let expected = sorted(points.clone());
    assert_eq!(sorted(answer_growable(boundary, &points, &boundary)), expected);
    assert_eq!(sorted(answer_parallel(boundary, &points, &boundary)), expected);
}

#[test]
fn a_point_inside_the_range_is_found_as_often_as_it_is_stored() {
    let mut points = scattered(300, 200);
    points.extend(vec![pt(100, 100); 9]);
    points.extend(vec![pt(50, 100); 3]);
    let range = rect(20, 30, 120, 110);
    for found in [
        answer_growable(world(), &points, &range),
        answer_bounded(world(), &points, &range),
        answer_parallel(world(), &points, &range),
        answer_buffered(world(), &points, &range),
    ] {
        for p in &points {
            let inside = range.x < p.x
                && p.x < range.x + range.width
                && range.y < p.y
                && p.y < range.y + range.height;
            if inside {
                let stored = points.iter().filter(|q| *q == p).count();
                assert_eq!(found.iter().filter(|q| *q == p).count(), stored);
            }
        }
        assert!(found.iter().filter(|q| **q == pt(100, 100)).count() >= 9);
    }
}

#[test]
fn a_narrower_range_finds_no_more_than_a_wider_one() {
    let points = scattered(300, 200);
    let wide = rect(20, 30, 120, 110);
    let in_wide = answer_growable(world(), &points, &wide);
    for narrow in [rect(20, 30, 60, 50), rect(100, 100, 40, 40), rect(50, 50, 0, 0), wide] {
        let in_narrow = answer_growable(world(), &points, &narrow);
        let mut rest = in_wide.clone();
        for p in &in_narrow {
            let at = rest.iter().position(|q| q == p);
            assert!(at.is_some());
            rest.swap_remove(at.unwrap());
        }
    }
}

