//! 2D geometry primitives for the diagram canvas.
//!
//! Coordinates are whole canvas units, origin at the top left, y increasing
//! downward. Arithmetic states in its contracts that results stay within the
//! machine range.

use vstd::prelude::*;

verus! {

/// A point on the canvas.
#[derive(Clone, Copy, PartialEq, Eq, Structural, Debug)]
pub struct Position {
    pub x: i64,
    pub y: i64,
}

/// The extent of an element on the canvas; both components non-negative.
#[derive(Clone, Copy, PartialEq, Eq, Structural, Debug)]
pub struct Size {
    pub width: i64,
    pub height: i64,
}

/// A displacement between two positions.
#[derive(Clone, Copy, PartialEq, Eq, Structural, Debug)]
pub struct Vector {
    pub x: i64,
    pub y: i64,
}

impl Position {
    pub fn new(x: i64, y: i64) -> (p: Position)
        ensures
            p.x == x && p.y == y,
    {
        Position { x, y }
    }

    /// Componentwise sum of two positions.
    pub fn add(self, rhs: Position) -> (p: Position)
        requires
            i64::MIN <= self.x + rhs.x <= i64::MAX,
            i64::MIN <= self.y + rhs.y <= i64::MAX,
        ensures
            p.x == self.x + rhs.x,
            p.y == self.y + rhs.y,
    {
        Position { x: self.x + rhs.x, y: self.y + rhs.y }
    }

    /// The position moved by a displacement.
    pub fn add_vector(self, rhs: Vector) -> (p: Position)
        requires
            i64::MIN <= self.x + rhs.x <= i64::MAX,
            i64::MIN <= self.y + rhs.y <= i64::MAX,
        ensures
            p.x == self.x + rhs.x,
            p.y == self.y + rhs.y,
    {
        Position { x: self.x + rhs.x, y: self.y + rhs.y }
    }

    /// The displacement from `rhs` to `self`.
    pub fn sub(self, rhs: Position) -> (v: Vector)
        requires
            i64::MIN <= self.x - rhs.x <= i64::MAX,
            i64::MIN <= self.y - rhs.y <= i64::MAX,
        ensures
            v.x == self.x - rhs.x,
            v.y == self.y - rhs.y,
    {
        Vector { x: self.x - rhs.x, y: self.y - rhs.y }
    }

    /// The position scaled by a whole factor.
    pub fn mul(self, rhs: i64) -> (p: Position)
        requires
            i64::MIN <= self.x * rhs <= i64::MAX,
            i64::MIN <= self.y * rhs <= i64::MAX,
        ensures
            p.x == self.x * rhs,
            p.y == self.y * rhs,
    {
        Position { x: self.x * rhs, y: self.y * rhs }
    }
}

impl Size {
    pub fn new(width: i64, height: i64) -> (s: Size)
        ensures
            s.width == width && s.height == height,
    {
        Size { width, height }
    }

    /// The size scaled by a whole factor.
    pub fn mul(self, rhs: i64) -> (s: Size)
        requires
            i64::MIN <= self.width * rhs <= i64::MAX,
            i64::MIN <= self.height * rhs <= i64::MAX,
        ensures
            s.width == self.width * rhs,
            s.height == self.height * rhs,
    {
        Size { width: self.width * rhs, height: self.height * rhs }
    }
}

impl Vector {
    pub fn new(x: i64, y: i64) -> (v: Vector)
        ensures
            v.x == x && v.y == y,
    {
        Vector { x, y }
    }

    pub fn zero() -> (v: Vector)
        ensures
            v.x == 0 && v.y == 0,
    {
        Vector { x: 0, y: 0 }
    }
}

/// Anything that occupies a rectangle on the canvas.
pub trait Positioned {
    /// The occupied rectangle's top-left corner; an implementation that
    /// does not say otherwise promises nothing about its accessors.
    open spec fn spec_position(&self) -> Position {
        Position { x: 0, y: 0 }
    }

    /// The occupied rectangle's extent.
    open spec fn spec_size(&self) -> Size {
        Size { width: 0, height: 0 }
    }

    fn position(&self) -> (p: Position)
        ensures
            p == self.spec_position(),
    ;

    fn set_position(&mut self, position: Position)
        ensures
            final(self).spec_position() == position,
            final(self).spec_size() == old(self).spec_size(),
    ;

    fn size(&self) -> (s: Size)
        ensures
            s == self.spec_size(),
    ;

    fn set_size(&mut self, size: Size)
        ensures
            final(self).spec_size() == size,
            final(self).spec_position() == old(self).spec_position(),
    ;
}

} // verus!
