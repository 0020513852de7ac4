//! The growable strategy: each node keeps its points in an inline vector,
//! and a query appends what it finds to the caller's list.

use vstd::prelude::*;
use crate::geometry::{Point, Rectangle};
use crate::CAPACITY;
use crate::model::{
    lemma_insert_contents, lemma_insert_wf, lemma_quadrants_tile, lemma_select_none,
    lemma_select_step, select, Quad, Tree,
};
use crate::storage::{stored, PointList};

verus! {

/// A quadtree whose nodes keep their points in an inline vector.
pub struct QuadtreeSmallVec {
    boundary: Rectangle,
    points: PointList,
    divided: bool,
    children: Option<
        (Box<QuadtreeSmallVec>, Box<QuadtreeSmallVec>, Box<QuadtreeSmallVec>, Box<QuadtreeSmallVec>),
    >,
}

impl View for QuadtreeSmallVec {
    type V = Tree;

    closed spec fn view(&self) -> Tree {
        self.tree()
    }
}

impl QuadtreeSmallVec {
    /// The tree that the value stands for. The children come in the order
    /// north-east, north-west, south-east, south-west.
    pub closed spec fn tree(&self) -> Tree
        decreases self,
    {
        Tree {
            boundary: self.boundary,
            capacity: CAPACITY as nat,
            points: stored(self.points),
            children: match self.children {
                Some(kids) => Some(
                    Box::new(
                        Quad {
                            north_east: kids.0.tree(),
                            north_west: kids.1.tree(),
                            south_east: kids.2.tree(),
                            south_west: kids.3.tree(),
                        },
                    ),
                ),
                None => None,
            },
        }
    }

    /// The fields of every node agree with each other, and the tree that the
    /// value stands for is well formed.
    pub closed spec fn wf(&self) -> bool
        decreases self,
    {
        &&& self@.wf()
        &&& self.divided == self.children.is_some()
        &&& match self.children {
            Some(kids) => kids.0.wf() && kids.1.wf() && kids.2.wf() && kids.3.wf(),
            None => true,
        }
    }

    /// A well-formed value stands for a well-formed tree: what is proved of
    /// such trees holds of the view.
    pub proof fn lemma_wf_view(&self)
        requires
            self.wf(),
        ensures
            self@.wf(),
            self@.capacity == CAPACITY,
    {
    }

    /// An empty tree for the region `boundary`.
    pub fn new(boundary: Rectangle) -> (tree: Self)
        requires
            boundary.valid(),
        ensures
            tree.wf(),
            tree@ == Tree::leaf(boundary, CAPACITY as nat),
    {
        Self { boundary, points: PointList::new(), divided: false, children: None }
    }

    /// Whether the root has been divided into quadrants.
    pub fn is_divided(&self) -> (divided: bool)
        requires
            self.wf(),
        ensures
            divided == (self@.children is Some),
    {
        self.divided
    }

    /// Gives the node its four quadrants, each an empty leaf.
    fn subdivide(&mut self)
        requires
            old(self).wf(),
            !old(self).divided,
        ensures
            final(self)@ == old(self)@.split(),
            final(self).divided,
            final(self).children.is_some(),
            final(self).children.unwrap().0.wf(),
            final(self).children.unwrap().1.wf(),
            final(self).children.unwrap().2.wf(),
            final(self).children.unwrap().3.wf(),
    {
        let north_east = Box::new(QuadtreeSmallVec::new(self.boundary.north_east()));
        let north_west = Box::new(QuadtreeSmallVec::new(self.boundary.north_west()));
        let south_east = Box::new(QuadtreeSmallVec::new(self.boundary.south_east()));
        let south_west = Box::new(QuadtreeSmallVec::new(self.boundary.south_west()));
        self.children = Some((north_east, north_west, south_east, south_west));
        self.divided = true;
    }

    /// Stores the point in the node, or below it once the node is full, and
    /// says whether it was stored: a point outside the boundary is not, and
    /// leaves the tree as it was.
    pub fn insert(&mut self, point: Point) -> (accepted: bool)
        requires
            old(self).wf(),
        ensures
            final(self).wf(),
            final(self)@ == old(self)@.insert(point),
            accepted == old(self)@.boundary.spec_contains(&point),
            final(self)@.contents() == if accepted {
                old(self)@.contents().insert(point)
            } else {
                old(self)@.contents()
            },
        decreases old(self)@.rank(),
    {
        proof {
            lemma_insert_wf(old(self)@, point);
            lemma_insert_contents(old(self)@, point);
        }
        if !self.boundary.contains(&point) {
            return false;
        }
        if self.points.len() < CAPACITY {
            self.points.push(point);
            return true;
        }
        if !self.divided {
            self.subdivide();
        }
        proof {
            lemma_quadrants_tile(self.boundary, point);
        }
        if let Some(children) = &mut self.children {
            if children.0.insert(point) {
                return true;
            }
            if children.1.insert(point) {
                return true;
            }
            if children.2.insert(point) {
                return true;
            }
            if children.3.insert(point) {
                return true;
            }
        }
        false
    }

    /// Appends to `found` the points of the tree that the query finds for
    /// `range`: the node's own first, then those of its quadrants.
    pub fn query(&self, range: &Rectangle, found: &mut Vec<Point>)
        requires
            self.wf(),
        ensures
            final(found)@ == old(found)@ + self@.query(*range),
        decreases self,
    {
        if !self.boundary.intersects(range) {
            assert(found@ =~= old(found)@ + self@.query(*range));
            return ;
        }
        proof {
            lemma_select_none(*range);
        }
        let count = self.points.len();
        let mut i: usize = 0;
        while i < count
            invariant
                i <= count == stored(self.points).len(),
                found@ =~= old(found)@ + select(stored(self.points).take(i as int), *range),
            decreases count - i,
        {
            let point = self.points.get(i);
            proof {
                lemma_select_step(stored(self.points), i as int, *range);
            }
            if range.contains(&point) {
                found.push(point);
            }
            i += 1;
        }
        assert(stored(self.points).take(i as int) == stored(self.points));
        if self.divided {
            if let Some(children) = &self.children {
                children.0.query(range, found);
                children.1.query(range, found);
                children.2.query(range, found);
                children.3.query(range, found);
            }
        }
        assert(found@ =~= old(found)@ + self@.query(*range));
    }
}

} // verus!
