//! Points and fixed-size normalized shapes.
//!
//! Coordinates are carried as the IEEE-754 single-precision bit patterns of
//! their components. The library never does arithmetic on them: it stores
//! them, hands them back, and tells two of them apart. Two coordinates are the
//! same exactly when their bit patterns are the same.

use vstd::prelude::*;

verus! {

/// Number of points in every normalized shape and in every template.
pub const RESAMPLE_TARGET_POINTS: usize = 64;

/// A 2D coordinate; `x` and `y` are single-precision bit patterns.
#[derive(Clone, Copy, Debug, PartialEq, Eq, Structural)]
pub struct Point {
    pub x: u32,
    pub y: u32,
}

/// Why a point sequence was not accepted as a shape.
#[derive(Clone, Copy, Debug, PartialEq, Eq, Structural)]
pub enum ShapeError {
    /// The sequence does not hold exactly `RESAMPLE_TARGET_POINTS` points.
    InsufficientInput,
}

/// An ordered sequence of exactly `RESAMPLE_TARGET_POINTS` points, immutable
/// once made.
#[derive(Debug)]
pub struct NormalizedShape {
    points: Vec<Point>,
}

impl View for NormalizedShape {
    type V = Seq<Point>;

    closed spec fn view(&self) -> Seq<Point> {
        self.points@
    }
}

impl NormalizedShape {
    #[verifier::type_invariant]
    spec fn has_full_length(self) -> bool {
        self.points@.len() == RESAMPLE_TARGET_POINTS
    }

    /// Accepts `points` as a shape when it holds exactly
    /// `RESAMPLE_TARGET_POINTS` points, and rejects it otherwise.
    pub fn new(points: Vec<Point>) -> (r: Result<NormalizedShape, ShapeError>)
        ensures
            points@.len() == RESAMPLE_TARGET_POINTS ==> r is Ok && r->Ok_0@ == points@,
            points@.len() != RESAMPLE_TARGET_POINTS ==> r == Err::<NormalizedShape, ShapeError>(
                ShapeError::InsufficientInput,
            ),
    {
        if points.len() == RESAMPLE_TARGET_POINTS {
            Ok(NormalizedShape { points })
        } else {
            Err(ShapeError::InsufficientInput)
        }
    }

    /// The number of points, which is always `RESAMPLE_TARGET_POINTS`.
    pub fn len(&self) -> (n: usize)
        ensures
            n == RESAMPLE_TARGET_POINTS,
            self@.len() == RESAMPLE_TARGET_POINTS,
    {
        proof {
            use_type_invariant(self);
        }
        self.points.len()
    }

    /// The point at position `index`, or `None` past the end.
    pub fn point(&self, index: usize) -> (p: Option<Point>)
        ensures
            self@.len() == RESAMPLE_TARGET_POINTS,
            index < RESAMPLE_TARGET_POINTS ==> p == Some(self@[index as int]),
            index >= RESAMPLE_TARGET_POINTS ==> p is None,
    {
        proof {
            use_type_invariant(self);
        }
        if index < self.points.len() {
            Some(self.points[index])
        } else {
            None
        }
    }

    /// All points, in order.
    pub fn points(&self) -> (r: &Vec<Point>)
        ensures
            r@ == self@,
            r@.len() == RESAMPLE_TARGET_POINTS,
    {
        proof {
            use_type_invariant(self);
        }
        &self.points
    }

    /// Whether `self` and `other` hold the same coordinates in the same order.
    pub fn same_as(&self, other: &NormalizedShape) -> (same: bool)
        ensures
            same == (self@ == other@),
    {
        proof {
            use_type_invariant(self);
            use_type_invariant(other);
        }
        let mut i: usize = 0;
        while i < RESAMPLE_TARGET_POINTS
            invariant
                i <= RESAMPLE_TARGET_POINTS,
                self.points@.len() == RESAMPLE_TARGET_POINTS,
                other.points@.len() == RESAMPLE_TARGET_POINTS,
                forall|k: int| 0 <= k < i ==> self.points@[k] == other.points@[k],
            decreases RESAMPLE_TARGET_POINTS - i,
        {
            let a = self.points[i];
            let b = other.points[i];
            if a.x != b.x || a.y != b.y {
                return false;
            }
            i += 1;
        }
        assert(self.points@ =~= other.points@);
        true
    }
}

impl Clone for NormalizedShape {
    fn clone(&self) -> (r: NormalizedShape)
        ensures
            r@ == self@,
    {
        proof {
            use_type_invariant(self);
        }
        let mut points: Vec<Point> = Vec::with_capacity(RESAMPLE_TARGET_POINTS);
        let mut i: usize = 0;
        while i < RESAMPLE_TARGET_POINTS
            invariant
                i <= RESAMPLE_TARGET_POINTS,
                self.points@.len() == RESAMPLE_TARGET_POINTS,
                points@.len() == i,
                forall|k: int| 0 <= k < i ==> points@[k] == self.points@[k],
            decreases RESAMPLE_TARGET_POINTS - i,
        {
            points.push(self.points[i]);
            i += 1;
        }
        assert(points@ =~= self.points@);
        NormalizedShape { points }
    }
}

} // verus!
