//! Points, directions and rays.

use crate::scalar::Scalar;
use vstd::prelude::*;

verus! {

/// Three coordinates: a direction or, as [`Point`], a position.
#[derive(Clone, Copy, Debug, PartialEq)]
pub struct Vector<S> {
    pub x: S,
    pub y: S,
    pub z: S,
}

/// A position in space.
pub type Point<S> = Vector<S>;

impl<S: Scalar> Vector<S> {
    pub fn new(x: S, y: S, z: S) -> (r: Self)
        ensures
            r == (Vector { x, y, z }),
    {
        Vector { x, y, z }
    }

    /// The coordinate on axis 0, 1 or 2; any other axis reads as 2.
    pub open spec fn spec_axis(self, axis: u8) -> S {
        if axis == 0 {
            self.x
        } else if axis == 1 {
            self.y
        } else {
            self.z
        }
    }

    pub fn axis(&self, axis: u8) -> (r: S)
        ensures
            r == self.spec_axis(axis),
    {
        if axis == 0 {
            self.x
        } else if axis == 1 {
            self.y
        } else {
            self.z
        }
    }

    /// `x*x + y*y + z*z`, summed from the left.
    pub open spec fn spec_length_squared(self) -> S {
        self.x.spec_times(self.x).spec_plus(self.y.spec_times(self.y)).spec_plus(
            self.z.spec_times(self.z),
        )
    }

    pub fn length_squared(&self) -> (r: S)
        ensures
            r == self.spec_length_squared(),
    {
        self.x.times(self.x).plus(self.y.times(self.y)).plus(self.z.times(self.z))
    }

    /// The Euclidean length.
    pub open spec fn spec_length(self) -> S {
        self.spec_length_squared().spec_sqrt()
    }

    pub fn length(&self) -> (r: S)
        ensures
            r == self.spec_length(),
    {
        self.length_squared().sqrt()
    }

    /// The vector divided, coordinate by coordinate, by its length.
    pub open spec fn spec_unit_vector(self) -> Self {
        Vector {
            x: self.x.spec_over(self.spec_length()),
            y: self.y.spec_over(self.spec_length()),
            z: self.z.spec_over(self.spec_length()),
        }
    }

    pub fn unit_vector(&self) -> (r: Self)
        ensures
            r == self.spec_unit_vector(),
    {
        let len = self.length();
        Vector { x: self.x.over(len), y: self.y.over(len), z: self.z.over(len) }
    }
}

/// A half-line: where it starts, where it heads, and, for scenes that move,
/// the moment at which it was cast.
#[derive(Clone, Copy, Debug, PartialEq)]
pub struct Ray<S> {
    pub origin: Point<S>,
    pub direction: Vector<S>,
    pub time: Option<S>,
}

impl<S: Scalar> Ray<S> {
    pub fn new(origin: Point<S>, direction: Vector<S>) -> (r: Self)
        ensures
            r == (Ray { origin, direction, time: None }),
    {
        Ray { origin, direction, time: None }
    }

    pub fn with_time(origin: Point<S>, direction: Vector<S>, time: S) -> (r: Self)
        ensures
            r == (Ray { origin, direction, time: Some(time) }),
    {
        Ray { origin, direction, time: Some(time) }
    }

    pub fn origin(&self) -> (r: Point<S>)
        ensures
            r == self.origin,
    {
        self.origin
    }

    pub fn direction(&self) -> (r: Vector<S>)
        ensures
            r == self.direction,
    {
        self.direction
    }

    pub fn time(&self) -> (r: Option<S>)
        ensures
            r == self.time,
    {
        self.time
    }
}

} // verus!
