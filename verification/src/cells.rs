//! The fixed-capacity storage of a block's four cells.
//!
//! A block keeps its cells in an `arrayvec::ArrayVec<Point, 4>`: inline, with
//! no heap allocation. Verus cannot look inside that type, so this module
//! declares it, names what it holds, and states what the three operations the
//! library uses do to it. Those statements are taken from the source of
//! `arrayvec`; Verus accepts them without proof.

use crate::point::Point;
use arrayvec::ArrayVec;
use vstd::prelude::*;

verus! {

/// Makes `arrayvec::ArrayVec` known to Verus as an opaque type.
#[verifier::external_type_specification]
#[verifier::external_body]
#[verifier::reject_recursive_types(T)]
pub struct ExArrayVec<T, const CAP: usize>(arrayvec::ArrayVec<T, CAP>);

/// The points that a cell vector holds, in order of insertion.
pub uninterp spec fn stored(v: ArrayVec<Point, 4>) -> Seq<Point>;

/// `ArrayVec::new`: a vector that holds nothing. The capacity of four is far
/// below the limit at which `new` panics.
#[verifier::external_body]
pub(crate) fn cells_new() -> (v: ArrayVec<Point, 4>)
    ensures
        stored(v) == Seq::<Point>::empty(),
{
    ArrayVec::new()
}

/// `ArrayVec::push`: appends `p` behind what is already held. `push` panics on
/// a full vector, so callers have to show that fewer than four points are held.
#[verifier::external_body]
pub(crate) fn cells_push(v: &mut ArrayVec<Point, 4>, p: Point)
    requires
        stored(*old(v)).len() < 4,
    ensures
        stored(*final(v)) == stored(*old(v)).push(p),
{
    v.push(p)
}

/// `ArrayVec::as_slice`: the held points as a slice, same order, same length.
#[verifier::external_body]
pub(crate) fn cells_as_slice(v: &ArrayVec<Point, 4>) -> (s: &[Point])
    ensures
        s@ == stored(*v),
{
    v.as_slice()
}

} // verus!
