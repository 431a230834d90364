//! Points, polygons and circles on the integer grid.
use vstd::prelude::*;
use vstd::std_specs::slice::into_iter_elts;

verus! {

/// A point with integer coordinates.
#[derive(Debug, Clone, Copy, PartialEq, Eq, Structural)]
pub struct Point {
    pub x: i32,
    pub y: i32,
}

impl Point {
    /// The point `(x, y)`.
    pub fn new(x: i32, y: i32) -> (r: Point)
        ensures
            r.x == x,
            r.y == y,
    {
        Point { x, y }
    }
}

impl vstd::std_specs::ops::AddSpecImpl for Point {
    open spec fn obeys_add_spec() -> bool {
        true
    }

    open spec fn add_req(self, rhs: Point) -> bool {
        i32::MIN <= self.x + rhs.x <= i32::MAX && i32::MIN <= self.y + rhs.y <= i32::MAX
    }

    open spec fn add_spec(self, rhs: Point) -> Point {
        Point { x: (self.x + rhs.x) as i32, y: (self.y + rhs.y) as i32 }
    }
}

impl std::ops::Add for Point {
    type Output = Point;

    /// The sum of two points, coordinate by coordinate.
    fn add(self, rhs: Point) -> (r: Point) {
        Point { x: self.x + rhs.x, y: self.y + rhs.y }
    }
}

/// A polygon given by its corners, in order.
pub struct Polygon {
    pub points: Vec<Point>,
}

impl Polygon {
    /// A polygon with no corners.
    pub fn new() -> (r: Polygon)
        ensures
            r.points@.len() == 0,
    {
        Polygon { points: Vec::new() }
    }

    /// Appends the corner `p`.
    pub fn add_point(&mut self, p: Point)
        ensures
            final(self).points@ == old(self).points@.push(p),
    {
        self.points.push(p);
    }

    /// The corner with the smallest `x`; of several such, the last one.
    pub fn left_most_point(self) -> (r: Option<Point>)
        requires
            self.points@.len() > 0,
        ensures
            exists|k: int|
                0 <= k < self.points@.len() && r == Some(self.points@[k]) && (forall|j: int|
                    0 <= j < self.points@.len() ==> self.points@[k].x <= (#[trigger] self.points@[j]).x)
                    && (forall|j: int|
                    k < j < self.points@.len() ==> self.points@[k].x < (#[trigger] self.points@[j]).x),
    {
        let ghost s = self.points@;
        let mut best: usize = 0;
        let mut i: usize = 1;
        while i < self.points.len()
            invariant
                s == self.points@,
                0 <= best < i <= s.len(),
                forall|j: int| 0 <= j < i ==> s[best as int].x <= (#[trigger] s[j]).x,
                forall|j: int| best < j < i ==> s[best as int].x < (#[trigger] s[j]).x,
            decreases s.len() - i,
        {
            if self.points[i].x <= self.points[best].x {
                best = i;
            }
            i += 1;
        }
        Some(self.points[best])
    }

    /// Walks the corners in order.
    pub fn iter(&self) -> (r: std::slice::Iter<'_, Point>)
        ensures
            into_iter_elts(r) == self.points@,
    {
        self.points.as_slice().iter()
    }
}

/// A circle given by its centre and radius.
pub struct Circle {
    pub point: Point,
    pub radius: i32,
}

impl Circle {
    /// The circle around `p` with radius `r`.
    pub fn new(p: Point, r: i32) -> (c: Circle)
        ensures
            c.point == p,
            c.radius == r,
    {
        Circle { point: p, radius: r }
    }
}

/// A polygon or a circle.
pub enum Shape {
    Polygon(Polygon),
    Circle(Circle),
}

impl vstd::std_specs::convert::FromSpecImpl<Polygon> for Shape {
    open spec fn obeys_from_spec() -> bool {
        true
    }

    open spec fn from_spec(p: Polygon) -> Shape {
        Shape::Polygon(p)
    }
}

impl From<Polygon> for Shape {
    fn from(p: Polygon) -> (r: Shape) {
        Shape::Polygon(p)
    }
}

impl vstd::std_specs::convert::FromSpecImpl<Circle> for Shape {
    open spec fn obeys_from_spec() -> bool {
        true
    }

    open spec fn from_spec(c: Circle) -> Shape {
        Shape::Circle(c)
    }
}

impl From<Circle> for Shape {
    fn from(c: Circle) -> (r: Shape) {
        Shape::Circle(c)
    }
}

} // verus!
