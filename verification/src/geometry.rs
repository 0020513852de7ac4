//! Points and axis-aligned rectangles on the integer grid.

use vstd::prelude::*;

verus! {

/// A position on the grid.
#[derive(Debug, Clone, Copy, PartialEq, Eq, Structural)]
pub struct Point {
    pub x: i64,
    pub y: i64,
}

/// An axis-aligned region: the corner nearest the origin, and the extent
/// along each axis.
#[derive(Debug, Clone, Copy, PartialEq, Eq, Structural)]
pub struct Rectangle {
    pub x: i64,
    pub y: i64,
    pub width: i64,
    pub height: i64,
}

impl Rectangle {
    /// The point lies in the region, its four edges included.
    pub open spec fn spec_contains(&self, point: &Point) -> bool {
        &&& self.x <= point.x <= self.x + self.width
        &&& self.y <= point.y <= self.y + self.height
    }

    /// The two regions overlap in more than an edge: on each axis the
    /// projections overlap strictly.
    pub open spec fn spec_intersects(&self, other: &Rectangle) -> bool {
        &&& other.x < self.x + self.width
        &&& other.x + other.width > self.x
        &&& other.y < self.y + self.height
        &&& other.y + other.height > self.y
    }

    /// Neither extent is negative, and the far corner is on the grid.
    pub open spec fn valid(&self) -> bool {
        &&& 0 <= self.width
        &&& 0 <= self.height
        &&& self.x + self.width <= i64::MAX
        &&& self.y + self.height <= i64::MAX
    }

    /// Both extents are at least one.
    pub open spec fn thick(&self) -> bool {
        1 <= self.width && 1 <= self.height
    }

    /// Every point of `self` is a point of `outer`.
    pub open spec fn within(&self, outer: &Rectangle) -> bool {
        &&& outer.x <= self.x
        &&& self.x + self.width <= outer.x + outer.width
        &&& outer.y <= self.y
        &&& self.y + self.height <= outer.y + outer.height
    }

    /// The quadrant tried first by insertion: east of the middle, north of it
    /// (north is towards smaller `y`). An odd extent cannot be halved on the
    /// grid: the unit left over goes to the east and to the north, so that
    /// the four quadrants tile the region and a quadrant of zero extent is
    /// never the first to contain a point.
    pub open spec fn spec_north_east(&self) -> Rectangle {
        Rectangle {
            x: (self.x + self.width / 2) as i64,
            y: self.y,
            width: (self.width - self.width / 2) as i64,
            height: (self.height - self.height / 2) as i64,
        }
    }

    /// The quadrant tried second: west of the middle, north of it.
    pub open spec fn spec_north_west(&self) -> Rectangle {
        Rectangle {
            x: self.x,
            y: self.y,
            width: (self.width / 2) as i64,
            height: (self.height - self.height / 2) as i64,
        }
    }

    /// The quadrant tried third: east of the middle, south of it.
    pub open spec fn spec_south_east(&self) -> Rectangle {
        Rectangle {
            x: (self.x + self.width / 2) as i64,
            y: (self.y + (self.height - self.height / 2)) as i64,
            width: (self.width - self.width / 2) as i64,
            height: (self.height / 2) as i64,
        }
    }

    /// The quadrant tried last: west of the middle, south of it.
    pub open spec fn spec_south_west(&self) -> Rectangle {
        Rectangle {
            x: self.x,
            y: (self.y + (self.height - self.height / 2)) as i64,
            width: (self.width / 2) as i64,
            height: (self.height / 2) as i64,
        }
    }

    /// Whether the region can bound a tree: see `valid`.
    pub fn is_valid(&self) -> (valid: bool)
        ensures
            valid == self.valid(),
    {
        self.width >= 0 && self.height >= 0 && self.x as i128 + self.width as i128 <= i64::MAX as i128
            && self.y as i128 + self.height as i128 <= i64::MAX as i128
    }

    /// Whether the point lies in the region, its four edges included.
    #[verifier::when_used_as_spec(spec_contains)]
    pub fn contains(&self, point: &Point) -> (inside: bool)
        ensures
            inside == self.spec_contains(point),
    {
        let right: i128 = self.x as i128 + self.width as i128;
        let bottom: i128 = self.y as i128 + self.height as i128;
        point.x >= self.x && point.x as i128 <= right && point.y >= self.y && point.y as i128
            <= bottom
    }

    /// Whether the two regions overlap in more than an edge.
    #[verifier::when_used_as_spec(spec_intersects)]
    pub fn intersects(&self, other: &Rectangle) -> (overlap: bool)
        ensures
            overlap == self.spec_intersects(other),
    {
        let right: i128 = self.x as i128 + self.width as i128;
        let bottom: i128 = self.y as i128 + self.height as i128;
        let other_right: i128 = other.x as i128 + other.width as i128;
        let other_bottom: i128 = other.y as i128 + other.height as i128;
        (other.x as i128) < right && other_right > self.x as i128 && (other.y as i128) < bottom
            && other_bottom > self.y as i128
    }

    /// The quadrant to the east of the middle and to the north of it.
    #[verifier::when_used_as_spec(spec_north_east)]
    pub fn north_east(&self) -> (quadrant: Rectangle)
        requires
            self.valid(),
        ensures
            quadrant == self.spec_north_east(),
            quadrant.valid(),
    {
        let w: i64 = self.width / 2;
        let h: i64 = self.height / 2;
        Rectangle { x: self.x + w, y: self.y, width: self.width - w, height: self.height - h }
    }

    /// The quadrant to the west of the middle and to the north of it.
    #[verifier::when_used_as_spec(spec_north_west)]
    pub fn north_west(&self) -> (quadrant: Rectangle)
        requires
            self.valid(),
        ensures
            quadrant == self.spec_north_west(),
            quadrant.valid(),
    {
        let w: i64 = self.width / 2;
        let h: i64 = self.height / 2;
        Rectangle { x: self.x, y: self.y, width: w, height: self.height - h }
    }

    /// The quadrant to the east of the middle and to the south of it.
    #[verifier::when_used_as_spec(spec_south_east)]
    pub fn south_east(&self) -> (quadrant: Rectangle)
        requires
            self.valid(),
        ensures
            quadrant == self.spec_south_east(),
            quadrant.valid(),
    {
        let w: i64 = self.width / 2;
        let h: i64 = self.height / 2;
        Rectangle {
            x: self.x + w,
            y: self.y + (self.height - h),
            width: self.width - w,
            height: h,
        }
    }

    /// The quadrant to the west of the middle and to the south of it.
    #[verifier::when_used_as_spec(spec_south_west)]
    pub fn south_west(&self) -> (quadrant: Rectangle)
        requires
            self.valid(),
        ensures
            quadrant == self.spec_south_west(),
            quadrant.valid(),
    {
        let w: i64 = self.width / 2;
        let h: i64 = self.height / 2;
        Rectangle { x: self.x, y: self.y + (self.height - h), width: w, height: h }
    }
}

} // verus!
