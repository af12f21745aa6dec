//! What some kinds of block do when they are placed or when a neighbour
//! changes.

use vstd::prelude::*;
use crate::math::Face;
use crate::section::AIR;

verus! {

/// An axis of the world.
#[derive(Clone, Copy, Debug, PartialEq, Eq, Structural)]
pub enum Axis {
    X,
    Y,
    Z,
}

impl Axis {
    /// The name of the axis as a value of the `axis` property.
    pub fn name(self) -> (s: &'static str)
        ensures
            s@ == match self {
                Axis::X => "X"@,
                Axis::Y => "Y"@,
                Axis::Z => "Z"@,
            },
    {
        match self {
            Axis::X => "X",
            Axis::Y => "Y",
            Axis::Z => "Z",
        }
    }
}

/// A log: it lies along the axis of the face it was placed against.
#[derive(Clone, Copy, Debug, PartialEq, Eq, Structural)]
pub struct Log;

/// A block that falls when nothing is below it.
#[derive(Clone, Copy, Debug, PartialEq, Eq, Structural)]
pub struct Falling;

impl Log {
    /// The axis of a log that is placed against `face`.
    pub open spec fn spec_place(face: Face) -> Axis {
        match face {
            Face::West | Face::East => Axis::X,
            Face::Top | Face::Bottom => Axis::Y,
            Face::North | Face::South => Axis::Z,
        }
    }

    /// The axis of a log that is placed against `face`.
    pub fn place(&self, face: Face) -> (a: Axis)
        ensures
            a == Log::spec_place(face),
    {
        match face {
            Face::West | Face::East => Axis::X,
            Face::Top | Face::Bottom => Axis::Y,
            Face::North | Face::South => Axis::Z,
        }
    }
}

impl Falling {
    /// Whether a block that has just been placed falls: it does where the
    /// block below it is air.
    pub fn update_place(&self, below: u32) -> (falls: bool)
        ensures
            falls == (below == AIR),
    {
        below == AIR
    }

    /// Whether the block at height `y` falls when the block at height
    /// `changed_y` has become `new_block`: it does where that block lies
    /// below it and has become air.
    pub fn update(&self, y: i32, changed_y: i32, new_block: u32) -> (falls: bool)
        ensures
            falls == (changed_y < y && new_block == AIR),
    {
        changed_y < y && new_block == AIR
    }
}

} // verus!
