//! The inline vector that holds the points of a node, and what is taken on
//! trust of it.

use vstd::prelude::*;
use smallvec::SmallVec;
use crate::geometry::Point;

verus! {

/// The points of one node in a `SmallVec` with room for four of them
/// inline. The verifier does not look inside: what it knows of a value is
/// what `stored` says of it.
#[verifier::external_body]
pub struct PointList {
    inner: SmallVec<[Point; 4]>,
}

/// The points that the list holds, in the order in which they were pushed.
pub uninterp spec fn stored(points: PointList) -> Seq<Point>;

impl PointList {
    /// `SmallVec::new`: the vector it returns holds nothing.
    #[verifier::external_body]
    pub(crate) fn new() -> (points: PointList)
        ensures
            stored(points) == Seq::<Point>::empty(),
    {
        PointList { inner: SmallVec::new() }
    }

    /// `SmallVec::len`: the number of items held.
    #[verifier::external_body]
    pub(crate) fn len(&self) -> (count: usize)
        ensures
            count == stored(*self).len(),
    {
        self.inner.len()
    }

    /// `SmallVec::push`: the item becomes the last one, and the others stay
    /// as they were. It panics only where the length cannot grow by one.
    #[verifier::external_body]
    pub(crate) fn push(&mut self, point: Point)
        requires
            stored(*old(self)).len() < usize::MAX,
        ensures
            stored(*final(self)) == stored(*old(self)).push(point),
    {
        self.inner.push(point)
    }

    /// Indexing a `SmallVec`, which indexes the slice of its items: the item
    /// at that place. It panics beyond the length.
    #[verifier::external_body]
    pub(crate) fn get(&self, i: usize) -> (point: Point)
        requires
            i < stored(*self).len(),
        ensures
            point == stored(*self)[i as int],
    {
        self.inner[i]
    }
}

} // verus!
