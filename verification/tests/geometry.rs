use quadtree::geometry::{Point, Rectangle};

fn rect(x: i64, y: i64, width: i64, height: i64) -> Rectangle {
    Rectangle { x, y, width, height }
}

fn pt(x: i64, y: i64) -> Point {
    Point { x, y }
}

#[test]
fn contains_includes_all_four_edges() {
    let r = rect(10, 20, 30, 40);
    assert!(r.contains(&pt(10, 20)));
    assert!(r.contains(&pt(40, 20)));
    assert!(r.contains(&pt(10, 60)));
    assert!(r.contains(&pt(40, 60)));
    assert!(r.contains(&pt(25, 20)));
    assert!(r.contains(&pt(40, 35)));
    assert!(r.contains(&pt(25, 35)));
}

#[test]
fn contains_rejects_points_one_step_outside() {
    let r = rect(10, 20, 30, 40);
    assert!(!r.contains(&pt(9, 20)));
    assert!(!r.contains(&pt(41, 20)));
    assert!(!r.contains(&pt(10, 19)));
    assert!(!r.contains(&pt(10, 61)));
    assert!(!r.contains(&pt(41, 61)));
}

#[test]
fn contains_with_negative_coordinates() {
    let r = rect(-10, -10, 20, 20);
    assert!(r.contains(&pt(-10, -10)));
    assert!(r.contains(&pt(10, 10)));
    assert!(r.contains(&pt(0, 0)));
    assert!(!r.contains(&pt(-11, 0)));
    assert!(!r.contains(&pt(0, 11)));
}

#[test]
fn contains_of_a_region_of_zero_extent_is_its_corner() {
    let r = rect(5, 5, 0, 0);
    assert!(r.contains(&pt(5, 5)));
    assert!(!r.contains(&pt(5, 6)));
    assert!(!r.contains(&pt(4, 5)));
}

#[test]
fn contains_near_the_ends_of_the_grid() {
    let r = rect(i64::MAX - 1, i64::MIN, 1, 1);
    assert!(r.contains(&pt(i64::MAX, i64::MIN)));
    assert!(r.contains(&pt(i64::MAX - 1, i64::MIN + 1)));
    assert!(!r.contains(&pt(i64::MAX - 2, i64::MIN)));
    let beyond = rect(i64::MAX, 0, i64::MAX, 0);
    assert!(beyond.contains(&pt(i64::MAX, 0)));
    assert!(!beyond.contains(&pt(i64::MAX - 1, 0)));
}

#[test]
fn intersects_overlapping_rectangles() {
    let a = rect(0, 0, 10, 10);
    let b = rect(5, 5, 10, 10);
    assert!(a.intersects(&b));
    assert!(b.intersects(&a));
    assert!(a.intersects(&a));
    let inner = rect(2, 2, 1, 1);
    assert!(a.intersects(&inner));
    assert!(inner.intersects(&a));
}

#[test]
fn intersects_is_false_for_rectangles_sharing_an_edge() {
    let a = rect(0, 0, 10, 10);
    let right = rect(10, 0, 10, 10);
    let below = rect(0, 10, 10, 10);
    let left = rect(-10, 0, 10, 10);
    let above = rect(0, -10, 10, 10);
    for other in [right, below, left, above] {
        assert!(!a.intersects(&other));
        assert!(!other.intersects(&a));
    }
}

#[test]
fn intersects_is_false_for_rectangles_sharing_a_corner() {
    let a = rect(0, 0, 10, 10);
    let b = rect(10, 10, 10, 10);
    assert!(!a.intersects(&b));
    assert!(!b.intersects(&a));
}

#[test]
fn intersects_is_false_for_rectangles_apart() {
    let a = rect(0, 0, 10, 10);
    let b = rect(11, 0, 10, 10);
    let c = rect(0, 50, 10, 10);
    assert!(!a.intersects(&b));
    assert!(!a.intersects(&c));
}

#[test]
fn intersects_one_step_of_overlap() {
    let a = rect(0, 0, 10, 10);
    let b = rect(9, 9, 10, 10);
    assert!(a.intersects(&b));
    assert!(b.intersects(&a));
}

#[test]
fn a_region_of_zero_extent_does_not_intersect_itself() {
    let line = rect(0, 0, 0, 10);
    assert!(!line.intersects(&line));
    let around = rect(-5, -5, 10, 20);
    assert!(around.intersects(&line));
    assert!(line.intersects(&around));
    let beside = rect(0, 0, 10, 10);
    assert!(!beside.intersects(&line));
}

#[test]
fn is_valid_accepts_regions_on_the_grid() {
    assert!(rect(0, 0, 200, 200).is_valid());
    assert!(rect(-5, -5, 0, 0).is_valid());
    assert!(rect(i64::MIN, i64::MIN, i64::MAX, i64::MAX).is_valid());
    assert!(rect(i64::MAX, 0, 0, 0).is_valid());
    assert!(rect(1, 1, i64::MAX - 1, i64::MAX - 1).is_valid());
}

#[test]
fn is_valid_rejects_negative_extent_and_far_corner_off_the_grid() {
    assert!(!rect(0, 0, -1, 10).is_valid());
    assert!(!rect(0, 0, 10, -1).is_valid());
    assert!(!rect(1, 0, i64::MAX, 10).is_valid());
    assert!(!rect(0, 1, 10, i64::MAX).is_valid());
    assert!(!rect(i64::MAX, i64::MAX, 1, 1).is_valid());
}

#[test]
fn quadrants_of_even_extents_are_halves() {
    let r = rect(0, 0, 200, 200);
    assert_eq!(r.north_east(), rect(100, 0, 100, 100));
    assert_eq!(r.north_west(), rect(0, 0, 100, 100));
    assert_eq!(r.south_east(), rect(100, 100, 100, 100));
    assert_eq!(r.south_west(), rect(0, 100, 100, 100));
}

#[test]
fn quadrants_with_origin_away_from_zero() {
    let r = rect(-10, 30, 20, 40);
    assert_eq!(r.north_east(), rect(0, 30, 10, 20));
    assert_eq!(r.north_west(), rect(-10, 30, 10, 20));
    assert_eq!(r.south_east(), rect(0, 50, 10, 20));
    assert_eq!(r.south_west(), rect(-10, 50, 10, 20));
}

#[test]
fn quadrants_of_odd_extents_give_the_spare_unit_east_and_north() {
    let r = rect(0, 0, 5, 3);
    assert_eq!(r.north_east(), rect(2, 0, 3, 2));
    assert_eq!(r.north_west(), rect(0, 0, 2, 2));
    assert_eq!(r.south_east(), rect(2, 2, 3, 1));
    assert_eq!(r.south_west(), rect(0, 2, 2, 1));
}

#[test]
fn quadrants_of_a_unit_square() {
    let r = rect(7, 7, 1, 1);
    assert_eq!(r.north_east(), rect(7, 7, 1, 1));
    assert_eq!(r.north_west(), rect(7, 7, 0, 1));
    assert_eq!(r.south_east(), rect(7, 8, 1, 0));
    assert_eq!(r.south_west(), rect(7, 8, 0, 0));
}

#[test]
fn quadrants_of_a_region_of_zero_extent() {
    let r = rect(3, 4, 0, 0);
    assert_eq!(r.north_east(), r);
    assert_eq!(r.north_west(), r);
    assert_eq!(r.south_east(), r);
    assert_eq!(r.south_west(), r);
}

#[test]
fn quadrants_tile_the_region() {
    let r = rect(-3, 2, 7, 5);
    let quadrants = [r.north_east(), r.north_west(), r.south_east(), r.south_west()];
    for x in -5..=6 {
        for y in 0..=9 {
            let p = pt(x, y);
            let in_some = quadrants.iter().any(|q| q.contains(&p));
            assert_eq!(r.contains(&p), in_some);
        }
    }
}

#[test]
fn quadrants_at_the_far_end_of_the_grid() {
    let r = rect(i64::MAX - 4, i64::MAX - 4, 4, 4);
    assert_eq!(r.north_east(), rect(i64::MAX - 2, i64::MAX - 4, 2, 2));
    assert_eq!(r.south_west(), rect(i64::MAX - 4, i64::MAX - 2, 2, 2));
    assert_eq!(r.south_east(), rect(i64::MAX - 2, i64::MAX - 2, 2, 2));
}
