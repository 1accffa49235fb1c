//! Grid points and their row-major order.

use std::cmp::Ordering;
use vstd::prelude::*;

verus! {

/// A position on the integer grid. `x` grows to the right, `y` grows downward.
///
/// The fields are declared `y` first on purpose: the derived total order
/// compares fields in declaration order, which makes it row-major and keeps it
/// in step with [`Point::partial_cmp`].
#[derive(Debug, Clone, Copy, PartialEq, Eq, Structural, Ord, Hash)]
pub struct Point {
    pub y: i32,
    pub x: i32,
}

/// Strict row-major order: `a` lies in an earlier row than `b`, or in the same
/// row further to the left.
pub open spec fn precedes(a: Point, b: Point) -> bool {
    a.y < b.y || (a.y == b.y && a.x < b.x)
}

/// Row-major order: `a` precedes `b` or is the same point.
pub open spec fn precedes_eq(a: Point, b: Point) -> bool {
    a.y < b.y || (a.y == b.y && a.x <= b.x)
}

/// A sequence of points in ascending row-major order (repeats allowed).
pub open spec fn row_major(s: Seq<Point>) -> bool {
    forall|i: int, j: int| 0 <= i < j < s.len() ==> precedes_eq(s[i], s[j])
}

impl Point {
    /// The sum of two points as vectors, over the unbounded integers.
    pub open spec fn sum_fits(self, other: Point) -> bool {
        &&& i32::MIN <= self.x + other.x <= i32::MAX
        &&& i32::MIN <= self.y + other.y <= i32::MAX
    }

    /// The point at column `x` of row `y`, for coordinates that an `i32` holds.
    pub open spec fn at(x: int, y: int) -> Point {
        Point { x: x as i32, y: y as i32 }
    }

    pub fn new(x: i32, y: i32) -> (p: Point)
        ensures
            p.x == x,
            p.y == y,
    {
        Point { y, x }
    }

    pub fn get_x(&self) -> (x: i32)
        ensures
            x == self.x,
    {
        self.x
    }

    pub fn get_y(&self) -> (y: i32)
        ensures
            y == self.y,
    {
        self.y
    }

    /// Component-wise sum. Both component sums have to be representable.
    pub fn add(&self, other: &Point) -> (p: Point)
        requires
            self.sum_fits(*other),
        ensures
            p.x == self.x + other.x,
            p.y == self.y + other.y,
    {
        Point { y: self.y + other.y, x: self.x + other.x }
    }

    /// True iff neither component is negative.
    pub fn not_negative(&self) -> (ok: bool)
        ensures
            ok == (self.x >= 0 && self.y >= 0),
    {
        self.x >= 0 && self.y >= 0
    }
}

impl PartialOrd for Point {
    /// Row-major comparison: by `y`, then by `x`.
    fn partial_cmp(&self, other: &Point) -> (r: Option<Ordering>) {
        if self.y < other.y {
            Some(Ordering::Less)
        } else if self.y > other.y {
            Some(Ordering::Greater)
        } else if self.x < other.x {
            Some(Ordering::Less)
        } else if self.x > other.x {
            Some(Ordering::Greater)
        } else {
            Some(Ordering::Equal)
        }
    }
}

impl vstd::std_specs::cmp::PartialOrdSpecImpl for Point {
    open spec fn obeys_partial_cmp_spec() -> bool {
        true
    }

    open spec fn partial_cmp_spec(&self, other: &Point) -> Option<Ordering> {
        if precedes(*self, *other) {
            Some(Ordering::Less)
        } else if precedes(*other, *self) {
            Some(Ordering::Greater)
        } else {
            Some(Ordering::Equal)
        }
    }
}

/// The row-major order is a strict total order on points: exactly one of
/// "`a` precedes `b`", "`a` is `b`", "`b` precedes `a`" holds.
pub proof fn lemma_precedes_total(a: Point, b: Point)
    ensures
        precedes(a, b) || a == b || precedes(b, a),
        !(precedes(a, b) && precedes(b, a)),
        !(precedes(a, b) && a == b),
        precedes_eq(a, b) <==> (precedes(a, b) || a == b),
{
}

/// The row-major order is transitive.
pub proof fn lemma_precedes_transitive(a: Point, b: Point, c: Point)
    requires
        precedes(a, b),
        precedes(b, c),
    ensures
        precedes(a, c),
{
}

} // verus!
