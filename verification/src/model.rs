//! The mathematical tree that every storage strategy stands for, and what
//! insertion and a range query mean on it.

use vstd::prelude::*;
use vstd::multiset::Multiset;
use crate::geometry::{Point, Rectangle};

verus! {

/// One region of the partition: its boundary, how many points it may hold
/// itself, the points it holds, and its four quadrants once it is divided.
pub struct Tree {
    pub boundary: Rectangle,
    pub capacity: nat,
    pub points: Seq<Point>,
    pub children: Option<Box<Quad>>,
}

/// The four children of a divided node.
pub struct Quad {
    pub north_east: Tree,
    pub north_west: Tree,
    pub south_east: Tree,
    pub south_west: Tree,
}

/// The points of `points` that lie in `range`, in their order.
pub open spec fn select(points: Seq<Point>, range: Rectangle) -> Seq<Point> {
    points.filter(|p: Point| range.spec_contains(&p))
}

impl Tree {
    /// A node without points and without children.
    pub open spec fn leaf(boundary: Rectangle, capacity: nat) -> Tree {
        Tree { boundary, capacity, points: Seq::empty(), children: None }
    }

    /// The node holds no point and has no children.
    pub open spec fn is_empty_leaf(self) -> bool {
        self.points.len() == 0 && self.children is None
    }

    /// Neither extent of the boundary is zero, or the node is empty: what
    /// the node holds, a query for a range around its boundary finds.
    pub open spec fn settled(self) -> bool {
        self.boundary.thick() || self.is_empty_leaf()
    }

    /// A bound on the depth of the calls that one insertion makes: nothing
    /// for a leaf with room, one for a full leaf, and one more than its
    /// quadrants for a divided node.
    pub open spec fn rank(self) -> nat
        decreases self, 0nat,
    {
        match self.children {
            Some(quad) => 1 + quad.rank(),
            None => if self.points.len() < self.capacity {
                0
            } else {
                1
            },
        }
    }

    /// The capacity is at least one, the boundary is valid, the node holds
    /// no more points than its capacity and each of them lies within the
    /// boundary; a divided node is full, and its children are the four
    /// quadrants of its boundary, well formed in their turn.
    pub open spec fn wf(self) -> bool
        decreases self, 0nat,
    {
        &&& self.capacity >= 1
        &&& self.boundary.valid()
        &&& self.points.len() <= self.capacity
        &&& forall|i: int|
            0 <= i < self.points.len() ==> self.boundary.spec_contains(&#[trigger] self.points[i])
        &&& match self.children {
            Some(quad) => self.points.len() == self.capacity && quad.wf_under(
                self.boundary,
                self.capacity,
            ),
            None => true,
        }
    }

    /// Every point stored in the node or below it, as often as it is stored.
    pub open spec fn contents(self) -> Multiset<Point>
        decreases self, 0nat,
    {
        match self.children {
            Some(quad) => self.points.to_multiset().add(quad.contents()),
            None => self.points.to_multiset(),
        }
    }

    /// The answer to a range query: nothing where the boundary does not
    /// intersect the range; else the node's own points that lie in the range,
    /// followed by the answers of the four quadrants.
    pub open spec fn query(self, range: Rectangle) -> Seq<Point>
        decreases self, 0nat,
    {
        if !self.boundary.spec_intersects(&range) {
            Seq::empty()
        } else {
            match self.children {
                Some(quad) => select(self.points, range) + quad.query(range),
                None => select(self.points, range),
            }
        }
    }

    /// The node with one more point of its own.
    pub open spec fn store(self, point: Point) -> Tree {
        Tree { points: self.points.push(point), ..self }
    }

    /// The four quadrants that the node has, or the empty ones it gets when
    /// it is divided.
    pub open spec fn quadrants(self) -> Quad {
        match self.children {
            Some(quad) => *quad,
            None => Quad::fresh(self.boundary, self.capacity),
        }
    }

    /// The node divided, if it was not.
    pub open spec fn split(self) -> Tree {
        Tree { children: Some(Box::new(self.quadrants())), ..self }
    }

    /// The tree after the insertion of `point`: unchanged where the boundary
    /// does not contain the point; else the point is stored in the node while
    /// it has room, and below it once it is full.
    pub open spec fn insert(self, point: Point) -> Tree
        decreases self.rank(), 0nat,
        when self.capacity >= 1
    {
        if !self.boundary.spec_contains(&point) {
            self
        } else if self.points.len() < self.capacity {
            self.store(point)
        } else {
            Tree { children: Some(Box::new(self.quadrants().insert(point))), ..self }
        }
    }

    /// The tree after the insertion of each of `points`, in their order.
    pub open spec fn insert_all(self, points: Seq<Point>) -> Tree
        decreases points.len(),
    {
        if points.len() == 0 {
            self
        } else {
            self.insert_all(points.drop_last()).insert(points.last())
        }
    }
}

impl Quad {
    /// Four empty quadrants of `boundary`.
    pub open spec fn fresh(boundary: Rectangle, capacity: nat) -> Quad {
        Quad {
            north_east: Tree::leaf(boundary.spec_north_east(), capacity),
            north_west: Tree::leaf(boundary.spec_north_west(), capacity),
            south_east: Tree::leaf(boundary.spec_south_east(), capacity),
            south_west: Tree::leaf(boundary.spec_south_west(), capacity),
        }
    }

    /// The ranks of the four together.
    pub open spec fn rank(self) -> nat
        decreases self, 1nat,
    {
        self.north_east.rank() + self.north_west.rank() + self.south_east.rank()
            + self.south_west.rank()
    }

    /// The four are the quadrants of `boundary`, each well formed, and none
    /// of zero extent holds a point unless `boundary` has zero extent itself.
    pub open spec fn wf_under(self, boundary: Rectangle, capacity: nat) -> bool
        decreases self, 1nat,
    {
        &&& self.north_east.boundary == boundary.spec_north_east()
        &&& self.north_west.boundary == boundary.spec_north_west()
        &&& self.south_east.boundary == boundary.spec_south_east()
        &&& self.south_west.boundary == boundary.spec_south_west()
        &&& self.north_east.capacity == capacity
        &&& self.north_west.capacity == capacity
        &&& self.south_east.capacity == capacity
        &&& self.south_west.capacity == capacity
        &&& self.north_east.wf()
        &&& self.north_west.wf()
        &&& self.south_east.wf()
        &&& self.south_west.wf()
        &&& boundary.thick() ==> {
            &&& self.north_east.settled()
            &&& self.north_west.settled()
            &&& self.south_east.settled()
            &&& self.south_west.settled()
        }
    }

    /// Every point stored in one of the four, as often as it is stored.
    pub open spec fn contents(self) -> Multiset<Point>
        decreases self, 1nat,
    {
        self.north_east.contents().add(self.north_west.contents()).add(
            self.south_east.contents(),
        ).add(self.south_west.contents())
    }

    /// The answers of the four, in the order north-east, north-west,
    /// south-east, south-west.
    pub open spec fn query(self, range: Rectangle) -> Seq<Point>
        decreases self, 1nat,
    {
        self.north_east.query(range) + self.north_west.query(range) + self.south_east.query(range)
            + self.south_west.query(range)
    }

    /// The point goes to the first quadrant that contains it, in the order
    /// north-east, north-west, south-east, south-west.
    pub open spec fn insert(self, point: Point) -> Quad
        decreases self.rank(), 1nat,
    {
        if self.north_east.boundary.spec_contains(&point) {
            Quad { north_east: self.north_east.insert(point), ..self }
        } else if self.north_west.boundary.spec_contains(&point) {
            Quad { north_west: self.north_west.insert(point), ..self }
        } else if self.south_east.boundary.spec_contains(&point) {
            Quad { south_east: self.south_east.insert(point), ..self }
        } else if self.south_west.boundary.spec_contains(&point) {
            Quad { south_west: self.south_west.insert(point), ..self }
        } else {
            self
        }
    }
}

/// Scanning one more point adds it to the selection exactly if it lies in
/// the range.
pub proof fn lemma_select_step(points: Seq<Point>, i: int, range: Rectangle)
    requires
        0 <= i < points.len(),
    ensures
        select(points.take(i + 1), range) == if range.spec_contains(&points[i]) {
            select(points.take(i), range).push(points[i])
        } else {
            select(points.take(i), range)
        },
        select(points.take(0), range) == Seq::<Point>::empty(),
        points.take(points.len() as int) == points,
{
    let pred = |p: Point| range.spec_contains(&p);
    assert(points.take(i + 1) =~= points.take(i).push(points[i]));
    points.take(i).lemma_filter_push(points[i], pred);
    lemma_select_none(range);
}

/// A prefix of the points holds no more points of the range than all of
/// them do.
pub proof fn lemma_select_prefix_len(points: Seq<Point>, i: int, range: Rectangle)
    requires
        0 <= i <= points.len(),
    ensures
        select(points.take(i), range).len() <= select(points, range).len(),
{
    points.lemma_filter_take_len(|p: Point| range.spec_contains(&p), i);
}

/// Nothing is selected from no points.
pub proof fn lemma_select_none(range: Rectangle)
    ensures
        select(Seq::<Point>::empty(), range) == Seq::<Point>::empty(),
{
    reveal(Seq::filter);
}

/// The four quadrants of a valid region are valid regions inside it.
pub proof fn lemma_quadrants_valid(boundary: Rectangle)
    requires
        boundary.valid(),
    ensures
        boundary.spec_north_east().valid(),
        boundary.spec_north_west().valid(),
        boundary.spec_south_east().valid(),
        boundary.spec_south_west().valid(),
        boundary.spec_north_east().within(&boundary),
        boundary.spec_north_west().within(&boundary),
        boundary.spec_south_east().within(&boundary),
        boundary.spec_south_west().within(&boundary),
{
}

/// The four quadrants leave no point of the region out.
pub proof fn lemma_quadrants_tile(boundary: Rectangle, point: Point)
    requires
        boundary.valid(),
        boundary.spec_contains(&point),
    ensures
        boundary.spec_north_east().spec_contains(&point) || boundary.spec_north_west().spec_contains(
            &point,
        ) || boundary.spec_south_east().spec_contains(&point)
            || boundary.spec_south_west().spec_contains(&point),
{
}

/// Insertion keeps a tree well formed, and leaves its boundary and its
/// capacity as they were.
pub proof fn lemma_insert_wf(tree: Tree, point: Point)
    requires
        tree.wf(),
    ensures
        tree.insert(point).wf(),
        tree.insert(point).boundary == tree.boundary,
        tree.insert(point).capacity == tree.capacity,
        tree.boundary.spec_contains(&point) ==> !tree.insert(point).is_empty_leaf(),
        !tree.boundary.spec_contains(&point) ==> tree.insert(point) == tree,
    decreases tree.rank(), 0nat,
{
    if tree.boundary.spec_contains(&point) && tree.points.len() >= tree.capacity {
        lemma_quadrants_valid(tree.boundary);
        lemma_quad_insert_wf(tree.quadrants(), tree.boundary, tree.capacity, point);
    }
}

/// Insertion into the four quadrants of `boundary` keeps them its quadrants.
pub proof fn lemma_quad_insert_wf(quad: Quad, boundary: Rectangle, capacity: nat, point: Point)
    requires
        boundary.valid(),
        quad.wf_under(boundary, capacity),
    ensures
        quad.insert(point).wf_under(boundary, capacity),
    decreases quad.rank(), 1nat,
{
    if quad.north_east.boundary.spec_contains(&point) {
        lemma_insert_wf(quad.north_east, point);
    } else if quad.north_west.boundary.spec_contains(&point) {
        lemma_insert_wf(quad.north_west, point);
    } else if quad.south_east.boundary.spec_contains(&point) {
        lemma_insert_wf(quad.south_east, point);
    } else if quad.south_west.boundary.spec_contains(&point) {
        lemma_insert_wf(quad.south_west, point);
    }
}

/// Where every point lies in the range, the selection is all of them.
pub proof fn lemma_select_all(points: Seq<Point>, range: Rectangle)
    requires
        forall|i: int| 0 <= i < points.len() ==> range.spec_contains(&#[trigger] points[i]),
    ensures
        select(points, range) == points,
    decreases points.len(),
{
    if points.len() == 0 {
        lemma_select_none(range);
        assert(points =~= Seq::<Point>::empty());
    } else {
        let last = points.len() - 1;
        lemma_select_all(points.take(last), range);
        lemma_select_step(points, last, range);
        assert(points.take(last).push(points[last]) =~= points);
    }
}

/// What is selected lies in the range and is among the points, no more
/// often than there.
pub proof fn lemma_select_sound(points: Seq<Point>, range: Rectangle)
    ensures
        select(points, range).to_multiset().subset_of(points.to_multiset()),
        forall|i: int|
            0 <= i < select(points, range).len() ==> range.spec_contains(
                &#[trigger] select(points, range)[i],
            ),
    decreases points.len(),
{
    broadcast use vstd::seq_lib::group_to_multiset_ensures;

    if points.len() == 0 {
        lemma_select_none(range);
        assert(points =~= Seq::<Point>::empty());
    } else {
        let last = points.len() - 1;
        lemma_select_sound(points.take(last), range);
        lemma_select_step(points, last, range);
        assert(points.take(last).push(points[last]) =~= points);
    }
}

/// An accepted point is one more point of the tree, and a rejected one
/// changes nothing.
pub proof fn lemma_insert_contents(tree: Tree, point: Point)
    requires
        tree.wf(),
    ensures
        tree.insert(point).contents() == if tree.boundary.spec_contains(&point) {
            tree.contents().insert(point)
        } else {
            tree.contents()
        },
    decreases tree.rank(), 0nat,
{
    broadcast use vstd::seq_lib::group_to_multiset_ensures;

    if tree.boundary.spec_contains(&point) {
        if tree.points.len() < tree.capacity {
            assert(tree.insert(point).contents() =~= tree.contents().insert(point));
        } else {
            lemma_quadrants_valid(tree.boundary);
            lemma_quadrants_tile(tree.boundary, point);
            let quad = tree.quadrants();
            lemma_quad_insert_contents(quad, point);
            if tree.children is None {
                assert(Seq::<Point>::empty().to_multiset() =~= Multiset::<Point>::empty());
                assert(quad.contents() =~= Multiset::<Point>::empty());
            }
            assert(tree.insert(point).contents() =~= tree.contents().insert(point));
        }
    }
}

/// A point that one of the four quadrants contains is one more point of
/// the four.
pub proof fn lemma_quad_insert_contents(quad: Quad, point: Point)
    requires
        quad.north_east.wf(),
        quad.north_west.wf(),
        quad.south_east.wf(),
        quad.south_west.wf(),
        quad.north_east.boundary.spec_contains(&point) || quad.north_west.boundary.spec_contains(
            &point,
        ) || quad.south_east.boundary.spec_contains(&point)
            || quad.south_west.boundary.spec_contains(&point),
    ensures
        quad.insert(point).contents() == quad.contents().insert(point),
    decreases quad.rank(), 1nat,
{
    if quad.north_east.boundary.spec_contains(&point) {
        lemma_insert_contents(quad.north_east, point);
    } else if quad.north_west.boundary.spec_contains(&point) {
        lemma_insert_contents(quad.north_west, point);
    } else if quad.south_east.boundary.spec_contains(&point) {
        lemma_insert_contents(quad.south_east, point);
    } else {
        lemma_insert_contents(quad.south_west, point);
    }
    assert(quad.insert(point).contents() =~= quad.contents().insert(point));
}

/// What a query finds at a node whose boundary intersects the range, as a
/// multiset: the node's own selection, and with it, at a divided node, what
/// the queries of the four quadrants find.
pub proof fn lemma_query_parts(tree: Tree, range: Rectangle)
    requires
        tree.boundary.spec_intersects(&range),
    ensures
        tree.query(range).to_multiset() == match tree.children {
            Some(quad) => select(tree.points, range).to_multiset().add(
                quad.north_east.query(range).to_multiset().add(
                    quad.north_west.query(range).to_multiset(),
                ).add(quad.south_east.query(range).to_multiset()).add(
                    quad.south_west.query(range).to_multiset(),
                ),
            ),
            None => select(tree.points, range).to_multiset(),
        },
{
    match tree.children {
        Some(quad) => {
            let ne = quad.north_east.query(range);
            let nw = quad.north_west.query(range);
            let se = quad.south_east.query(range);
            let sw = quad.south_west.query(range);
            vstd::seq_lib::lemma_multiset_commutative(ne, nw);
            vstd::seq_lib::lemma_multiset_commutative(ne + nw, se);
            vstd::seq_lib::lemma_multiset_commutative(ne + nw + se, sw);
            vstd::seq_lib::lemma_multiset_commutative(
                select(tree.points, range),
                quad.query(range),
            );
        },
        None => {},
    }
}

/// A query for a range that covers the boundary finds every point of the
/// tree, as often as it is stored.
pub proof fn lemma_query_covering(tree: Tree, range: Rectangle)
    requires
        tree.wf(),
        tree.settled(),
        tree.boundary.within(&range),
    ensures
        tree.query(range).to_multiset() == tree.contents(),
    decreases tree,
{
    broadcast use vstd::seq_lib::group_to_multiset_ensures;

    if tree.is_empty_leaf() {
        lemma_select_none(range);
        assert(tree.points =~= Seq::<Point>::empty());
        assert(tree.query(range) =~= Seq::<Point>::empty());
    } else {
        lemma_select_all(tree.points, range);
        match tree.children {
            Some(quad) => {
                lemma_quadrants_valid(tree.boundary);
                lemma_query_covering(quad.north_east, range);
                lemma_query_covering(quad.north_west, range);
                lemma_query_covering(quad.south_east, range);
                lemma_query_covering(quad.south_west, range);
                lemma_query_parts(tree, range);
            },
            None => {},
        }
    }
}

/// A point of the range is selected as often as it is among the points.
pub proof fn lemma_select_count(points: Seq<Point>, range: Rectangle, point: Point)
    requires
        range.spec_contains(&point),
    ensures
        select(points, range).to_multiset().count(point) == points.to_multiset().count(point),
    decreases points.len(),
{
    broadcast use vstd::seq_lib::group_to_multiset_ensures;

    if points.len() == 0 {
        lemma_select_none(range);
        assert(points =~= Seq::<Point>::empty());
    } else {
        let last = points.len() - 1;
        lemma_select_count(points.take(last), range, point);
        lemma_select_step(points, last, range);
        assert(points.take(last).push(points[last]) =~= points);
    }
}

/// A range within another selects no more than the other does.
pub proof fn lemma_select_narrower(points: Seq<Point>, narrow: Rectangle, wide: Rectangle)
    requires
        narrow.within(&wide),
    ensures
        select(points, narrow).to_multiset().subset_of(select(points, wide).to_multiset()),
    decreases points.len(),
{
    broadcast use vstd::seq_lib::group_to_multiset_ensures;

    if points.len() == 0 {
        lemma_select_none(narrow);
        lemma_select_none(wide);
        assert(points =~= Seq::<Point>::empty());
    } else {
        let last = points.len() - 1;
        lemma_select_narrower(points.take(last), narrow, wide);
        lemma_select_step(points, last, narrow);
        lemma_select_step(points, last, wide);
        assert(points.take(last).push(points[last]) =~= points);
    }
}

} // verus!
