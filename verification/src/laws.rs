//! What holds of every tree, whichever strategy keeps it.

use vstd::prelude::*;
use vstd::multiset::Multiset;
use crate::geometry::{Point, Rectangle};
use crate::model::{
    lemma_insert_contents, lemma_insert_wf, lemma_quadrants_valid, lemma_query_covering,
    lemma_query_parts, lemma_select_count, lemma_select_narrower, lemma_select_sound, Tree,
};
use crate::query_optimization::{QuadtreeBuffer, QuadtreeRayon};
use crate::smallvec_implementation::QuadtreeSmallVec;
use crate::unsafe_implementation::QuadtreeUnsafe;
use crate::basic_implementation::Quadtree;
use crate::CAPACITY;

verus! {

/// Two rectangles that lie apart along an axis, or only touch along it, do
/// not intersect, whichever of the two is asked.
pub proof fn lemma_touching_rectangles_do_not_intersect(a: Rectangle, b: Rectangle)
    requires
        a.x + a.width <= b.x || b.x + b.width <= a.x || a.y + a.height <= b.y || b.y + b.height
            <= a.y,
    ensures
        !a.spec_intersects(&b),
        !b.spec_intersects(&a),
{
}

/// Any number of insertions keep a tree well formed, with its boundary and
/// its capacity.
pub proof fn lemma_insert_all_wf(tree: Tree, points: Seq<Point>)
    requires
        tree.wf(),
    ensures
        tree.insert_all(points).wf(),
        tree.insert_all(points).boundary == tree.boundary,
        tree.insert_all(points).capacity == tree.capacity,
    decreases points.len(),
{
    if points.len() > 0 {
        lemma_insert_all_wf(tree, points.drop_last());
        lemma_insert_wf(tree.insert_all(points.drop_last()), points.last());
    }
}

/// Points that all lie within the boundary are all stored, each as often as
/// it was inserted.
pub proof fn lemma_insert_all_contents(tree: Tree, points: Seq<Point>)
    requires
        tree.wf(),
        forall|i: int| 0 <= i < points.len() ==> tree.boundary.spec_contains(&#[trigger] points[i]),
    ensures
        tree.insert_all(points).contents() == tree.contents().add(points.to_multiset()),
    decreases points.len(),
{
    broadcast use vstd::seq_lib::group_to_multiset_ensures;

    if points.len() == 0 {
        assert(tree.contents().add(points.to_multiset()) =~= tree.contents());
    } else {
        let before = points.drop_last();
        lemma_insert_all_contents(tree, before);
        lemma_insert_all_wf(tree, before);
        lemma_insert_contents(tree.insert_all(before), points.last());
        assert(before.push(points.last()) =~= points);
        assert(tree.insert_all(points).contents() =~= tree.contents().add(points.to_multiset()));
    }
}

/// A query for the boundary of a tree, of which neither extent is zero,
/// finds every point of the tree, as often as it is stored.
pub proof fn lemma_query_boundary_finds_contents(tree: Tree)
    requires
        tree.wf(),
        tree.boundary.thick(),
    ensures
        tree.query(tree.boundary).to_multiset() == tree.contents(),
{
    lemma_query_covering(tree, tree.boundary);
}

/// After the insertion of points that all lie within the boundary into an
/// empty tree, a query for the boundary finds exactly those points, in some
/// order, each as often as it was inserted.
pub proof fn lemma_query_boundary_finds_inserted(
    boundary: Rectangle,
    capacity: nat,
    points: Seq<Point>,
)
    requires
        boundary.valid(),
        boundary.thick(),
        capacity >= 1,
        forall|i: int| 0 <= i < points.len() ==> boundary.spec_contains(&#[trigger] points[i]),
    ensures
        Tree::leaf(boundary, capacity).insert_all(points).query(boundary).to_multiset()
            == points.to_multiset(),
{
    broadcast use vstd::seq_lib::group_to_multiset_ensures;

    let empty = Tree::leaf(boundary, capacity);
    lemma_insert_all_wf(empty, points);
    lemma_insert_all_contents(empty, points);
    lemma_query_boundary_finds_contents(empty.insert_all(points));
    assert(empty.contents() =~= Multiset::<Point>::empty());
    assert(empty.contents().add(points.to_multiset()) =~= points.to_multiset());
}

/// A query finds only points of the tree, none more often than it is
/// stored, and each of them lies in the range.
pub proof fn lemma_query_sound(tree: Tree, range: Rectangle)
    ensures
        tree.query(range).to_multiset().subset_of(tree.contents()),
        forall|i: int|
            0 <= i < tree.query(range).len() ==> range.spec_contains(
                &#[trigger] tree.query(range)[i],
            ),
    decreases tree,
{
    broadcast use vstd::seq_lib::group_to_multiset_ensures;

    if tree.boundary.spec_intersects(&range) {
        lemma_select_sound(tree.points, range);
        match tree.children {
            Some(quad) => {
                lemma_query_sound(quad.north_east, range);
                lemma_query_sound(quad.north_west, range);
                lemma_query_sound(quad.south_east, range);
                lemma_query_sound(quad.south_west, range);
                lemma_query_parts(tree, range);
            },
            None => {},
        }
    } else {
        assert(tree.query(range).to_multiset() =~= Multiset::<Point>::empty());
    }
}

/// Every point stored in a tree or below lies within the boundary of the
/// tree.
pub proof fn lemma_contents_within_boundary(tree: Tree, point: Point)
    requires
        tree.wf(),
        tree.contents().count(point) > 0,
    ensures
        tree.boundary.spec_contains(&point),
    decreases tree,
{
    broadcast use vstd::seq_lib::group_to_multiset_ensures;

    if tree.points.to_multiset().count(point) > 0 {
        let i = choose|i: int| 0 <= i < tree.points.len() && tree.points[i] == point;
        assert(tree.boundary.spec_contains(&tree.points[i]));
    } else {
        let quad = tree.children->0;
        lemma_quadrants_valid(tree.boundary);
        if quad.north_east.contents().count(point) > 0 {
            lemma_contents_within_boundary(quad.north_east, point);
        } else if quad.north_west.contents().count(point) > 0 {
            lemma_contents_within_boundary(quad.north_west, point);
        } else if quad.south_east.contents().count(point) > 0 {
            lemma_contents_within_boundary(quad.south_east, point);
        } else {
            lemma_contents_within_boundary(quad.south_west, point);
        }
    }
}

/// Insertion moves nothing: the points that a node held it still holds, in
/// their places, and a divided node stays divided.
pub proof fn lemma_insert_keeps_what_is_stored(tree: Tree, point: Point)
    requires
        tree.wf(),
    ensures
        tree.points.is_prefix_of(tree.insert(point).points),
        tree.children is Some ==> tree.insert(point).children is Some,
{
}

/// A point that lies in the range and on none of its edges is found as
/// often as the tree stores it.
pub proof fn lemma_query_finds_points_inside(tree: Tree, range: Rectangle, point: Point)
    requires
        tree.wf(),
        range.x < point.x < range.x + range.width,
        range.y < point.y < range.y + range.height,
    ensures
        tree.query(range).to_multiset().count(point) == tree.contents().count(point),
    decreases tree,
{
    broadcast use vstd::seq_lib::group_to_multiset_ensures;

    if tree.contents().count(point) == 0 {
        lemma_query_sound(tree, range);
    } else {
        lemma_contents_within_boundary(tree, point);
        lemma_select_count(tree.points, range, point);
        match tree.children {
            Some(quad) => {
                lemma_query_finds_points_inside(quad.north_east, range, point);
                lemma_query_finds_points_inside(quad.north_west, range, point);
                lemma_query_finds_points_inside(quad.south_east, range, point);
                lemma_query_finds_points_inside(quad.south_west, range, point);
                lemma_query_parts(tree, range);
            },
            None => {},
        }
    }
}

/// A query for a range within another finds no point more often than the
/// query for the other does.
pub proof fn lemma_narrower_range_finds_no_more(tree: Tree, narrow: Rectangle, wide: Rectangle)
    requires
        narrow.within(&wide),
    ensures
        tree.query(narrow).to_multiset().subset_of(tree.query(wide).to_multiset()),
    decreases tree,
{
    broadcast use vstd::seq_lib::group_to_multiset_ensures;

    if tree.boundary.spec_intersects(&narrow) {
        lemma_select_narrower(tree.points, narrow, wide);
        match tree.children {
            Some(quad) => {
                lemma_narrower_range_finds_no_more(quad.north_east, narrow, wide);
                lemma_narrower_range_finds_no_more(quad.north_west, narrow, wide);
                lemma_narrower_range_finds_no_more(quad.south_east, narrow, wide);
                lemma_narrower_range_finds_no_more(quad.south_west, narrow, wide);
                lemma_query_parts(tree, narrow);
                lemma_query_parts(tree, wide);
            },
            None => {},
        }
    } else {
        assert(tree.query(narrow).to_multiset() =~= Multiset::<Point>::empty());
    }
}

/// A query for a range that the boundary of the tree does not intersect
/// finds nothing, whatever the tree holds.
pub proof fn lemma_disjoint_range_finds_nothing(tree: Tree, range: Rectangle)
    requires
        !tree.boundary.spec_intersects(&range),
    ensures
        tree.query(range) == Seq::<Point>::empty(),
{
}

/// The insertion of a point outside the boundary leaves the tree as it was,
/// and with it the answer to every query.
pub proof fn lemma_rejected_insert_changes_nothing(tree: Tree, point: Point, range: Rectangle)
    requires
        tree.wf(),
        !tree.boundary.spec_contains(&point),
    ensures
        tree.insert(point) == tree,
        tree.insert(point).query(range) == tree.query(range),
{
}

/// Trees of the several strategies that took the same points in the same
/// order, from the same empty boundary, give the same answer to the same
/// query, point for point.
pub proof fn lemma_strategies_agree(
    boundary: Rectangle,
    points: Seq<Point>,
    range: Rectangle,
    plain: Quadtree,
    growable: QuadtreeSmallVec,
    bounded: QuadtreeUnsafe,
    parallel: QuadtreeRayon,
    buffered: QuadtreeBuffer,
)
    requires
        plain@ == Tree::leaf(boundary, CAPACITY as nat).insert_all(points),
        growable@ == Tree::leaf(boundary, CAPACITY as nat).insert_all(points),
        bounded@ == Tree::leaf(boundary, CAPACITY as nat).insert_all(points),
        parallel@ == Tree::leaf(boundary, CAPACITY as nat).insert_all(points),
        buffered@ == Tree::leaf(boundary, CAPACITY as nat).insert_all(points),
    ensures
        growable@.query(range) == plain@.query(range),
        bounded@.query(range) == plain@.query(range),
        parallel@.query(range) == plain@.query(range),
        buffered@.query(range) == plain@.query(range),
{
}

} // verus!
