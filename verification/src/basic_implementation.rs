//! The plain strategy: a growable list of points per node, a capacity chosen
//! at construction, and each quadrant in a field of its own.

use vstd::prelude::*;
use crate::geometry::{Point, Rectangle};
use crate::model::{
    lemma_insert_contents, lemma_insert_wf, lemma_quadrants_tile, lemma_select_none,
    lemma_select_step, select, Quad, Tree,
};

verus! {

/// A quadtree whose nodes keep their points in a growable list, up to a
/// capacity chosen at construction.
pub struct Quadtree {
    boundary: Rectangle,
    capacity: usize,
    points: Vec<Point>,
    divided: bool,
    north_west: Option<Box<Quadtree>>,
    north_east: Option<Box<Quadtree>>,
    south_west: Option<Box<Quadtree>>,
    south_east: Option<Box<Quadtree>>,
}

impl View for Quadtree {
    type V = Tree;

    closed spec fn view(&self) -> Tree {
        self.tree()
    }
}

impl Quadtree {
    /// The tree that the value stands for.
    pub closed spec fn tree(&self) -> Tree
        decreases self,
    {
        Tree {
            boundary: self.boundary,
            capacity: self.capacity as nat,
            points: self.points@,
            children: match (self.north_east, self.north_west, self.south_east, self.south_west) {
                (Some(ne), Some(nw), Some(se), Some(sw)) => Some(
                    Box::new(
                        Quad {
                            north_east: ne.tree(),
                            north_west: nw.tree(),
                            south_east: se.tree(),
                            south_west: sw.tree(),
                        },
                    ),
                ),
                _ => None,
            },
        }
    }

    /// The fields of every node agree with each other, and the tree that the
    /// value stands for is well formed.
    pub closed spec fn wf(&self) -> bool
        decreases self,
    {
        &&& self@.wf()
        &&& self.divided == self.north_east.is_some()
        &&& self.divided == self.north_west.is_some()
        &&& self.divided == self.south_east.is_some()
        &&& self.divided == self.south_west.is_some()
        &&& match (self.north_east, self.north_west, self.south_east, self.south_west) {
            (Some(ne), Some(nw), Some(se), Some(sw)) => ne.wf() && nw.wf() && se.wf() && sw.wf(),
            _ => true,
        }
    }

    /// A well-formed value stands for a well-formed tree: what is proved of
    /// such trees holds of the view.
    pub proof fn lemma_wf_view(&self)
        requires
            self.wf(),
        ensures
            self@.wf(),
    {
    }

    /// An empty tree for the region `boundary`, of which each node holds up
    /// to `capacity` points itself.
    pub fn new(boundary: Rectangle, capacity: usize) -> (tree: Self)
        requires
            boundary.valid(),
            capacity >= 1,
        ensures
            tree.wf(),
            tree@ == Tree::leaf(boundary, capacity as nat),
    {
        Self {
            boundary,
            capacity,
            points: Vec::new(),
            divided: false,
            north_west: None,
            north_east: None,
            south_west: None,
            south_east: None,
        }
    }

    /// Whether the root has been divided into quadrants.
    pub fn is_divided(&self) -> (divided: bool)
        requires
            self.wf(),
        ensures
            divided == (self@.children is Some),
    {
        self.divided
    }

    /// Gives the node its four quadrants, each an empty leaf.
    fn subdivide(&mut self)
        requires
            old(self).wf(),
            !old(self).divided,
        ensures
            final(self)@ == old(self)@.split(),
            final(self).divided,
            final(self).north_east.is_some(),
            final(self).north_west.is_some(),
            final(self).south_east.is_some(),
            final(self).south_west.is_some(),
            final(self).north_east.unwrap().wf(),
            final(self).north_west.unwrap().wf(),
            final(self).south_east.unwrap().wf(),
            final(self).south_west.unwrap().wf(),
    {
        let ne = self.boundary.north_east();
        self.north_east = Some(Box::new(Quadtree::new(ne, self.capacity)));
        let nw = self.boundary.north_west();
        self.north_west = Some(Box::new(Quadtree::new(nw, self.capacity)));
        let se = self.boundary.south_east();
        self.south_east = Some(Box::new(Quadtree::new(se, self.capacity)));
        let sw = self.boundary.south_west();
        self.south_west = Some(Box::new(Quadtree::new(sw, self.capacity)));
        self.divided = true;
    }

    /// Stores the point in the node, or below it once the node is full, and
    /// says whether it was stored: a point outside the boundary is not, and
    /// leaves the tree as it was.
    pub fn insert(&mut self, point: Point) -> (accepted: bool)
        requires
            old(self).wf(),
        ensures
            final(self).wf(),
            final(self)@ == old(self)@.insert(point),
            accepted == old(self)@.boundary.spec_contains(&point),
            final(self)@.contents() == if accepted {
                old(self)@.contents().insert(point)
            } else {
                old(self)@.contents()
            },
        decreases old(self)@.rank(),
    {
        proof {
            lemma_insert_wf(old(self)@, point);
            lemma_insert_contents(old(self)@, point);
        }
        if !self.boundary.contains(&point) {
            return false;
        }
        if self.points.len() < self.capacity {
            self.points.push(point);
            return true;
        }
        if !self.divided {
            self.subdivide();
        }
        proof {
            lemma_quadrants_tile(self.boundary, point);
        }
        if let Some(ne) = &mut self.north_east {
            if ne.insert(point) {
                return true;
            }
        }
        if let Some(nw) = &mut self.north_west {
            if nw.insert(point) {
                return true;
            }
        }
        if let Some(se) = &mut self.south_east {
            if se.insert(point) {
                return true;
            }
        }
        if let Some(sw) = &mut self.south_west {
            if sw.insert(point) {
                return true;
            }
        }
        false
    }

    /// Appends to `found` the points of the tree that the query finds for
    /// `range`: the node's own first, then those of its quadrants.
    pub fn query(&self, range: &Rectangle, found: &mut Vec<Point>)
        requires
            self.wf(),
        ensures
            final(found)@ == old(found)@ + self@.query(*range),
        decreases self,
    {
        if !self.boundary.intersects(range) {
            assert(found@ =~= old(found)@ + self@.query(*range));
            return ;
        }
        proof {
            lemma_select_none(*range);
        }
        let mut i: usize = 0;
        while i < self.points.len()
            invariant
                i <= self.points.len(),
                found@ =~= old(found)@ + select(self.points@.take(i as int), *range),
            decreases self.points.len() - i,
        {
            let point = self.points[i];
            proof {
                lemma_select_step(self.points@, i as int, *range);
            }
            if range.contains(&point) {
                found.push(point);
            }
            i += 1;
        }
        assert(self.points@.take(i as int) == self.points@);
        if self.divided {
            if let Some(ne) = &self.north_east {
                ne.query(range, found);
            }
            if let Some(nw) = &self.north_west {
                nw.query(range, found);
            }
            if let Some(se) = &self.south_east {
                se.query(range, found);
            }
            if let Some(sw) = &self.south_west {
                sw.query(range, found);
            }
        }
        assert(found@ =~= old(found)@ + self@.query(*range));
    }
}

} // verus!
