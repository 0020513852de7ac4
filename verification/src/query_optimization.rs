//! Two strategies that differ from the growable one in how a query collects
//! its answer: one asks the four quadrants of a node in parallel, the other
//! writes into slots that the caller has set aside.

use vstd::prelude::*;
use rayon::iter::{IntoParallelRefIterator, ParallelIterator};
use crate::geometry::{Point, Rectangle};
use crate::CAPACITY;
use crate::model::{
    lemma_insert_contents, lemma_insert_wf, lemma_quadrants_tile, lemma_select_none,
    lemma_select_prefix_len, lemma_select_step, select, Quad, Tree,
};
use crate::storage::{stored, PointList};

verus! {

/// A quadtree whose query asks the four quadrants of a node in parallel.
pub struct QuadtreeRayon {
    boundary: Rectangle,
    points: PointList,
    divided: bool,
    children: Option<
        (Box<QuadtreeRayon>, Box<QuadtreeRayon>, Box<QuadtreeRayon>, Box<QuadtreeRayon>),
    >,
}

impl View for QuadtreeRayon {
    type V = Tree;

    closed spec fn view(&self) -> Tree {
        self.tree()
    }
}

/// The first `n` of `parts`, one after the other.
spec fn joined(parts: Seq<Seq<Point>>, n: int) -> Seq<Point>
    decreases n,
{
    if n <= 0 {
        Seq::empty()
    } else {
        joined(parts, n - 1) + parts[n - 1]
    }
}

/// rayon's `par_iter`, `map` and `collect` over the four children: each is
/// queried, on whatever thread, and the four answers come back in the order
/// of the children. What is taken on trust is that rayon calls the closure
/// once for each child and keeps their order in the collected vector.
#[verifier::external_body]
fn query_children(
    children: &(Box<QuadtreeRayon>, Box<QuadtreeRayon>, Box<QuadtreeRayon>, Box<QuadtreeRayon>),
    range: &Rectangle,
) -> (answers: Vec<Vec<Point>>)
    requires
        children.0.wf(),
        children.1.wf(),
        children.2.wf(),
        children.3.wf(),
    ensures
        answers@.len() == 4,
        answers@[0]@ == children.0@.query(*range),
        answers@[1]@ == children.1@.query(*range),
        answers@[2]@ == children.2@.query(*range),
        answers@[3]@ == children.3@.query(*range),
{
    let four = [&children.0, &children.1, &children.2, &children.3];
    four.par_iter().map(|child| child.query(range)).collect()
}

impl QuadtreeRayon {
    /// The tree that the value stands for. The children come in the order
    /// north-east, north-west, south-east, south-west.
    pub closed spec fn tree(&self) -> Tree
        decreases self,
    {
        Tree {
            boundary: self.boundary,
            capacity: CAPACITY as nat,
            points: stored(self.points),
            children: match self.children {
                Some(kids) => Some(
                    Box::new(
                        Quad {
                            north_east: kids.0.tree(),
                            north_west: kids.1.tree(),
                            south_east: kids.2.tree(),
                            south_west: kids.3.tree(),
                        },
                    ),
                ),
                None => None,
            },
        }
    }

    /// The fields of every node agree with each other, and the tree that the
    /// value stands for is well formed.
    pub closed spec fn wf(&self) -> bool
        decreases self,
    {
        &&& self@.wf()
        &&& self.divided == self.children.is_some()
        &&& match self.children {
            Some(kids) => kids.0.wf() && kids.1.wf() && kids.2.wf() && kids.3.wf(),
            None => true,
        }
    }

    /// A well-formed value stands for a well-formed tree: what is proved of
    /// such trees holds of the view.
    pub proof fn lemma_wf_view(&self)
        requires
            self.wf(),
        ensures
            self@.wf(),
            self@.capacity == CAPACITY,
    {
    }

    /// An empty tree for the region `boundary`.
    pub fn new(boundary: Rectangle) -> (tree: Self)
        requires
            boundary.valid(),
        ensures
            tree.wf(),
            tree@ == Tree::leaf(boundary, CAPACITY as nat),
    {
        Self { boundary, points: PointList::new(), divided: false, children: None }
    }

    /// Whether the root has been divided into quadrants.
    pub fn is_divided(&self) -> (divided: bool)
        requires
            self.wf(),
        ensures
            divided == (self@.children is Some),
    {
        self.divided
    }

    /// Gives the node its four quadrants, each an empty leaf.
    fn subdivide(&mut self)
        requires
            old(self).wf(),
            !old(self).divided,
        ensures
            final(self)@ == old(self)@.split(),
            final(self).divided,
            final(self).children.is_some(),
            final(self).children.unwrap().0.wf(),
            final(self).children.unwrap().1.wf(),
            final(self).children.unwrap().2.wf(),
            final(self).children.unwrap().3.wf(),
    {
        let north_east = Box::new(QuadtreeRayon::new(self.boundary.north_east()));
        let north_west = Box::new(QuadtreeRayon::new(self.boundary.north_west()));
        let south_east = Box::new(QuadtreeRayon::new(self.boundary.south_east()));
        let south_west = Box::new(QuadtreeRayon::new(self.boundary.south_west()));
        self.children = Some((north_east, north_west, south_east, south_west));
        self.divided = true;
    }

    /// Stores the point in the node, or below it once the node is full, and
    /// says whether it was stored: a point outside the boundary is not, and
    /// leaves the tree as it was.
    pub fn insert(&mut self, point: Point) -> (accepted: bool)
        requires
            old(self).wf(),
        ensures
            final(self).wf(),
            final(self)@ == old(self)@.insert(point),
            accepted == old(self)@.boundary.spec_contains(&point),
            final(self)@.contents() == if accepted {
                old(self)@.contents().insert(point)
            } else {
                old(self)@.contents()
            },
        decreases old(self)@.rank(),
    {
        proof {
            lemma_insert_wf(old(self)@, point);
            lemma_insert_contents(old(self)@, point);
        }
        if !self.boundary.contains(&point) {
            return false;
        }
        if self.points.len() < CAPACITY {
            self.points.push(point);
            return true;
        }
        if !self.divided {
            self.subdivide();
        }
        proof {
            lemma_quadrants_tile(self.boundary, point);
        }
        if let Some(children) = &mut self.children {
            if children.0.insert(point) {
                return true;
            }
            if children.1.insert(point) {
                return true;
            }
            if children.2.insert(point) {
                return true;
            }
            if children.3.insert(point) {
                return true;
            }
        }
        false
    }

    /// The points of the tree that the query finds for `range`: the node's
    /// own first, then those of its quadrants, which are asked in parallel.
    pub fn query(&self, range: &Rectangle) -> (found: Vec<Point>)
        requires
            self.wf(),
        ensures
            found@ == self@.query(*range),
    {
        if !self.boundary.intersects(range) {
            return Vec::new();
        }
        proof {
            lemma_select_none(*range);
        }
        let mut found: Vec<Point> = Vec::new();
        let count = self.points.len();
        let mut i: usize = 0;
        while i < count
            invariant
                i <= count == stored(self.points).len(),
                found@ == select(stored(self.points).take(i as int), *range),
            decreases count - i,
        {
            let point = self.points.get(i);
            proof {
                lemma_select_step(stored(self.points), i as int, *range);
            }
            if range.contains(&point) {
                found.push(point);
            }
            i += 1;
        }
        assert(stored(self.points).take(i as int) == stored(self.points));
        if self.divided {
            if let Some(children) = &self.children {
                let mut answers = query_children(children, range);
                let ghost local = found@;
                let ghost parts = Seq::new(4, |k: int| answers@[k]@);
                let mut k: usize = 0;
                while k < answers.len()
                    invariant
                        k <= answers.len() == 4,
                        parts.len() == 4,
                        forall|j: int| k <= j < 4 ==> answers@[j]@ == #[trigger] parts[j],
                        found@ == local + joined(parts, k as int),
                    decreases answers.len() - k,
                {
                    found.append(&mut answers[k]);
                    k += 1;
                    assert(found@ =~= local + joined(parts, k as int));
                }
                proof {
                    reveal_with_fuel(joined, 5);
                    assert(found@ =~= self@.query(*range));
                }
            }
        }
        found
    }
}

/// A quadtree whose query writes its answer behind what the caller's buffer
/// holds, into the room that the caller has set aside there. Where that
/// room is too little the buffer grows, once, before the first point is
/// written; `query_checked` declines instead.
pub struct QuadtreeBuffer {
    boundary: Rectangle,
    points: PointList,
    divided: bool,
    children: Option<
        (Box<QuadtreeBuffer>, Box<QuadtreeBuffer>, Box<QuadtreeBuffer>, Box<QuadtreeBuffer>),
    >,
}

impl View for QuadtreeBuffer {
    type V = Tree;

    closed spec fn view(&self) -> Tree {
        self.tree()
    }
}

impl QuadtreeBuffer {
    /// The tree that the value stands for. The children come in the order
    /// north-east, north-west, south-east, south-west.
    pub closed spec fn tree(&self) -> Tree
        decreases self,
    {
        Tree {
            boundary: self.boundary,
            capacity: CAPACITY as nat,
            points: stored(self.points),
            children: match self.children {
                Some(kids) => Some(
                    Box::new(
                        Quad {
                            north_east: kids.0.tree(),
                            north_west: kids.1.tree(),
                            south_east: kids.2.tree(),
                            south_west: kids.3.tree(),
                        },
                    ),
                ),
                None => None,
            },
        }
    }

    /// The fields of every node agree with each other, and the tree that the
    /// value stands for is well formed.
    pub closed spec fn wf(&self) -> bool
        decreases self,
    {
        &&& self@.wf()
        &&& self.divided == self.children.is_some()
        &&& match self.children {
            Some(kids) => kids.0.wf() && kids.1.wf() && kids.2.wf() && kids.3.wf(),
            None => true,
        }
    }

    /// A well-formed value stands for a well-formed tree: what is proved of
    /// such trees holds of the view.
    pub proof fn lemma_wf_view(&self)
        requires
            self.wf(),
        ensures
            self@.wf(),
            self@.capacity == CAPACITY,
    {
    }

    /// An empty tree for the region `boundary`.
    pub fn new(boundary: Rectangle) -> (tree: Self)
        requires
            boundary.valid(),
        ensures
            tree.wf(),
            tree@ == Tree::leaf(boundary, CAPACITY as nat),
    {
        Self { boundary, points: PointList::new(), divided: false, children: None }
    }

    /// Whether the root has been divided into quadrants.
    pub fn is_divided(&self) -> (divided: bool)
        requires
            self.wf(),
        ensures
            divided == (self@.children is Some),
    {
        self.divided
    }

    /// Gives the node its four quadrants, each an empty leaf.
    fn subdivide(&mut self)
        requires
            old(self).wf(),
            !old(self).divided,
        ensures
            final(self)@ == old(self)@.split(),
            final(self).divided,
            final(self).children.is_some(),
            final(self).children.unwrap().0.wf(),
            final(self).children.unwrap().1.wf(),
            final(self).children.unwrap().2.wf(),
            final(self).children.unwrap().3.wf(),
    {
        let north_east = Box::new(QuadtreeBuffer::new(self.boundary.north_east()));
        let north_west = Box::new(QuadtreeBuffer::new(self.boundary.north_west()));
        let south_east = Box::new(QuadtreeBuffer::new(self.boundary.south_east()));
        let south_west = Box::new(QuadtreeBuffer::new(self.boundary.south_west()));
        self.children = Some((north_east, north_west, south_east, south_west));
        self.divided = true;
    }

    /// Stores the point in the node, or below it once the node is full, and
    /// says whether it was stored: a point outside the boundary is not, and
    /// leaves the tree as it was.
    pub fn insert(&mut self, point: Point) -> (accepted: bool)
        requires
            old(self).wf(),
        ensures
            final(self).wf(),
            final(self)@ == old(self)@.insert(point),
            accepted == old(self)@.boundary.spec_contains(&point),
            final(self)@.contents() == if accepted {
                old(self)@.contents().insert(point)
            } else {
                old(self)@.contents()
            },
        decreases old(self)@.rank(),
    {
        proof {
            lemma_insert_wf(old(self)@, point);
            lemma_insert_contents(old(self)@, point);
        }
        if !self.boundary.contains(&point) {
            return false;
        }
        if self.points.len() < CAPACITY {
            self.points.push(point);
            return true;
        }
        if !self.divided {
            self.subdivide();
        }
        proof {
            lemma_quadrants_tile(self.boundary, point);
        }
        if let Some(children) = &mut self.children {
            if children.0.insert(point) {
                return true;
            }
            if children.1.insert(point) {
                return true;
            }
            if children.2.insert(point) {
                return true;
            }
            if children.3.insert(point) {
                return true;
            }
        }
        false
    }

    /// Appends the answer to `buffer`, point by point: the node's own
    /// matches first, then those of its quadrants. The place of the next
    /// write is the length of the buffer, which starts at what the caller
    /// handed in.
    fn append_matches(&self, range: &Rectangle, buffer: &mut Vec<Point>)
        requires
            self.wf(),
        ensures
            final(buffer)@ == old(buffer)@ + self@.query(*range),
        decreases self,
    {
        if !self.boundary.intersects(range) {
            assert(buffer@ =~= old(buffer)@ + self@.query(*range));
            return ;
        }
        proof {
            lemma_select_none(*range);
        }
        let count = self.points.len();
        let mut i: usize = 0;
        while i < count
            invariant
                i <= count == stored(self.points).len(),
                buffer@ =~= old(buffer)@ + select(stored(self.points).take(i as int), *range),
            decreases count - i,
        {
            let point = self.points.get(i);
            proof {
                lemma_select_step(stored(self.points), i as int, *range);
            }
            if range.contains(&point) {
                buffer.push(point);
            }
            i += 1;
        }
        assert(stored(self.points).take(i as int) == stored(self.points));
        if self.divided {
            if let Some(children) = &self.children {
                children.0.append_matches(range, buffer);
                children.1.append_matches(range, buffer);
                children.2.append_matches(range, buffer);
                children.3.append_matches(range, buffer);
            }
        }
        assert(buffer@ =~= old(buffer)@ + self@.query(*range));
    }

    /// Writes the answer to the query behind what `buffer` holds, and leaves
    /// what it holds as it was. The answer is counted first and room for all
    /// of it is reserved in one step, which does nothing where the caller has
    /// set aside enough; no write after that makes the buffer grow. Each
    /// write is an ordinary checked one.
    pub fn query(&self, range: &Rectangle, buffer: &mut Vec<Point>)
        requires
            self.wf(),
        ensures
            final(buffer)@ == old(buffer)@ + self@.query(*range),
    {
        match self.slots_left(range, usize::MAX) {
            Some(rest) => buffer.reserve(usize::MAX - rest),
            None => {},
        }
        self.append_matches(range, buffer);
    }

    /// What is left of `budget` slots once the answer to the query has taken
    /// its own, or `None` where the answer needs more than `budget`.
    fn slots_left(&self, range: &Rectangle, budget: usize) -> (left: Option<usize>)
        requires
            self.wf(),
        ensures
            match left {
                Some(rest) => rest + self@.query(*range).len() == budget,
                None => self@.query(*range).len() > budget,
            },
        decreases self,
    {
        if !self.boundary.intersects(range) {
            return Some(budget);
        }
        proof {
            lemma_select_none(*range);
        }
        let ghost all = stored(self.points);
        let count = self.points.len();
        let mut rest = budget;
        let mut i: usize = 0;
        while i < count
            invariant
                i <= count == all.len(),
                all == stored(self.points),
                rest + select(all.take(i as int), *range).len() == budget,
                self@.query(*range).len() >= select(all, *range).len(),
            decreases count - i,
        {
            let point = self.points.get(i);
            proof {
                lemma_select_step(all, i as int, *range);
                lemma_select_prefix_len(all, i + 1, *range);
            }
            if range.contains(&point) {
                if rest == 0 {
                    return None;
                }
                rest -= 1;
            }
            i += 1;
        }
        assert(all.take(i as int) == all);
        if self.divided {
            if let Some(children) = &self.children {
                match children.0.slots_left(range, rest) {
                    Some(left) => rest = left,
                    None => return None,
                }
                match children.1.slots_left(range, rest) {
                    Some(left) => rest = left,
                    None => return None,
                }
                match children.2.slots_left(range, rest) {
                    Some(left) => rest = left,
                    None => return None,
                }
                match children.3.slots_left(range, rest) {
                    Some(left) => rest = left,
                    None => return None,
                }
            }
        }
        Some(rest)
    }

    /// Whether `slots` slots are enough for the answer to the query.
    pub fn fits(&self, range: &Rectangle, slots: usize) -> (enough: bool)
        requires
            self.wf(),
        ensures
            enough == (self@.query(*range).len() <= slots),
    {
        self.slots_left(range, slots).is_some()
    }

    /// As `query`, for a caller that has set aside room for `room` points
    /// behind what `buffer` holds: the answer is written where it needs no
    /// more than that, and nothing is written where it needs more.
    pub fn query_within(&self, range: &Rectangle, buffer: &mut Vec<Point>, room: usize) -> (written:
        bool)
        requires
            self.wf(),
        ensures
            written == (self@.query(*range).len() <= room),
            written ==> final(buffer)@ == old(buffer)@ + self@.query(*range),
            !written ==> final(buffer)@ == old(buffer)@,
    {
        if self.fits(range, room) {
            self.append_matches(range, buffer);
            true
        } else {
            false
        }
    }

    /// As `query`, but the buffer never grows: the room is what the buffer
    /// has to spare when it is handed in, and where the answer needs more
    /// nothing is written. An answer without a point needs no room and is
    /// always written. For any other, how much a buffer has to spare is up
    /// to its allocator, so the result says what was done.
    pub fn query_checked(&self, range: &Rectangle, buffer: &mut Vec<Point>) -> (written: bool)
        requires
            self.wf(),
        ensures
            self@.query(*range).len() == 0 ==> written,
            written ==> final(buffer)@ == old(buffer)@ + self@.query(*range),
            !written ==> final(buffer)@ == old(buffer)@,
    {
        let capacity = capacity_of(buffer);
        let held = buffer.len();
        let room = if capacity > held {
            capacity - held
        } else {
            0
        };
        self.query_within(range, buffer, room)
    }
}

/// `Vec::capacity`: the number of items that the vector can hold without
/// growing. Nothing is claimed of the number: the allocator may have given
/// more than was asked for.
#[verifier::external_body]
fn capacity_of(buffer: &Vec<Point>) -> usize {
    buffer.capacity()
}

} // verus!
