//! The positions that scripts see.

use vstd::prelude::*;
use crate::math::Pos;

verus! {

/// A block position as a script sees it.
#[derive(Clone, Copy, Debug, PartialEq, Eq, Structural)]
pub struct SlPos {
    pub inner: Pos,
}

impl SlPos {
    pub fn new(x: i32, y: i32, z: i32) -> (p: SlPos)
        ensures
            p.inner == (Pos { x, y, z }),
    {
        SlPos { inner: Pos { x, y, z } }
    }

    /// The X coordinate of the block.
    pub fn x(&self) -> (r: i32)
        ensures
            r == self.inner.x,
    {
        self.inner.x()
    }

    /// The Y coordinate of the block.
    pub fn y(&self) -> (r: i32)
        ensures
            r == self.inner.y,
    {
        self.inner.y()
    }

    /// The Z coordinate of the block.
    pub fn z(&self) -> (r: i32)
        ensures
            r == self.inner.z,
    {
        self.inner.z()
    }
}

} // verus!
