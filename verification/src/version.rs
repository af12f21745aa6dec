//! The protocol versions the server speaks, and the coarser versions by
//! which block, item and entity ids are numbered.

use vstd::prelude::*;

verus! {

/// A supported wire version. The variants are listed oldest first, and that
/// is their order.
#[allow(non_camel_case_types)]
#[derive(Clone, Copy, Debug, PartialEq, Eq, Structural, Hash)]
pub enum ProtocolVersion {
    V1_8,
    V1_9,
    V1_9_2,
    V1_9_4,
    V1_10,
    V1_11,
    V1_12,
    V1_12_2,
    V1_13,
    V1_14,
    V1_15,
    V1_16,
    V1_16_1,
    V1_16_2,
    V1_16_3,
    V1_16_5,
}

/// The version of the block, item and entity numbering.
#[allow(non_camel_case_types)]
#[derive(Clone, Copy, Debug, PartialEq, Eq, Structural, Hash)]
pub enum BlockVersion {
    V1_8,
    V1_9,
    V1_10,
    V1_11,
    V1_12,
    V1_13,
    V1_14,
    V1_15,
    V1_16,
}

/// How many block versions there are.
pub const BLOCK_VERSIONS: usize = 9;

/// How many protocol versions there are.
pub const PROTOCOL_VERSIONS: usize = 16;

impl BlockVersion {
    /// The position of the version, oldest first, starting at 0.
    pub open spec fn spec_index(self) -> int {
        match self {
            BlockVersion::V1_8 => 0,
            BlockVersion::V1_9 => 1,
            BlockVersion::V1_10 => 2,
            BlockVersion::V1_11 => 3,
            BlockVersion::V1_12 => 4,
            BlockVersion::V1_13 => 5,
            BlockVersion::V1_14 => 6,
            BlockVersion::V1_15 => 7,
            BlockVersion::V1_16 => 8,
        }
    }

    pub fn to_index(self) -> (i: usize)
        ensures
            i as int == self.spec_index(),
            i < BLOCK_VERSIONS,
    {
        match self {
            BlockVersion::V1_8 => 0,
            BlockVersion::V1_9 => 1,
            BlockVersion::V1_10 => 2,
            BlockVersion::V1_11 => 3,
            BlockVersion::V1_12 => 4,
            BlockVersion::V1_13 => 5,
            BlockVersion::V1_14 => 6,
            BlockVersion::V1_15 => 7,
            BlockVersion::V1_16 => 8,
        }
    }

    /// The newest numbering: the one the server stores its world in.
    pub open spec fn spec_latest() -> BlockVersion {
        BlockVersion::V1_16
    }

    #[verifier::when_used_as_spec(spec_latest)]
    pub fn latest() -> (v: BlockVersion)
        ensures
            v == BlockVersion::spec_latest(),
    {
        BlockVersion::V1_16
    }

    pub fn is_latest(self) -> (r: bool)
        ensures
            r == (self == BlockVersion::spec_latest()),
    {
        match self {
            BlockVersion::V1_16 => true,
            _ => false,
        }
    }
}

impl ProtocolVersion {
    /// The position of the version, oldest first, starting at 0.
    pub open spec fn spec_index(self) -> int {
        match self {
            ProtocolVersion::V1_8 => 0,
            ProtocolVersion::V1_9 => 1,
            ProtocolVersion::V1_9_2 => 2,
            ProtocolVersion::V1_9_4 => 3,
            ProtocolVersion::V1_10 => 4,
            ProtocolVersion::V1_11 => 5,
            ProtocolVersion::V1_12 => 6,
            ProtocolVersion::V1_12_2 => 7,
            ProtocolVersion::V1_13 => 8,
            ProtocolVersion::V1_14 => 9,
            ProtocolVersion::V1_15 => 10,
            ProtocolVersion::V1_16 => 11,
            ProtocolVersion::V1_16_1 => 12,
            ProtocolVersion::V1_16_2 => 13,
            ProtocolVersion::V1_16_3 => 14,
            ProtocolVersion::V1_16_5 => 15,
        }
    }

    pub fn to_index(self) -> (i: usize)
        ensures
            i as int == self.spec_index(),
            i < PROTOCOL_VERSIONS,
    {
        match self {
            ProtocolVersion::V1_8 => 0,
            ProtocolVersion::V1_9 => 1,
            ProtocolVersion::V1_9_2 => 2,
            ProtocolVersion::V1_9_4 => 3,
            ProtocolVersion::V1_10 => 4,
            ProtocolVersion::V1_11 => 5,
            ProtocolVersion::V1_12 => 6,
            ProtocolVersion::V1_12_2 => 7,
            ProtocolVersion::V1_13 => 8,
            ProtocolVersion::V1_14 => 9,
            ProtocolVersion::V1_15 => 10,
            ProtocolVersion::V1_16 => 11,
            ProtocolVersion::V1_16_1 => 12,
            ProtocolVersion::V1_16_2 => 13,
            ProtocolVersion::V1_16_3 => 14,
            ProtocolVersion::V1_16_5 => 15,
        }
    }

    /// The version at position `i`, if there is one.
    pub fn from_index(i: usize) -> (r: Option<ProtocolVersion>)
        ensures
            r.is_some() <==> i < PROTOCOL_VERSIONS,
            r.is_some() ==> r.unwrap().spec_index() == i,
    {
        match i {
            0 => Some(ProtocolVersion::V1_8),
            1 => Some(ProtocolVersion::V1_9),
            2 => Some(ProtocolVersion::V1_9_2),
            3 => Some(ProtocolVersion::V1_9_4),
            4 => Some(ProtocolVersion::V1_10),
            5 => Some(ProtocolVersion::V1_11),
            6 => Some(ProtocolVersion::V1_12),
            7 => Some(ProtocolVersion::V1_12_2),
            8 => Some(ProtocolVersion::V1_13),
            9 => Some(ProtocolVersion::V1_14),
            10 => Some(ProtocolVersion::V1_15),
            11 => Some(ProtocolVersion::V1_16),
            12 => Some(ProtocolVersion::V1_16_1),
            13 => Some(ProtocolVersion::V1_16_2),
            14 => Some(ProtocolVersion::V1_16_3),
            15 => Some(ProtocolVersion::V1_16_5),
            _ => None,
        }
    }

    /// The number by which a client names the version in its handshake.
    pub open spec fn spec_id(self) -> int {
        match self {
            ProtocolVersion::V1_8 => 47,
            ProtocolVersion::V1_9 => 107,
            ProtocolVersion::V1_9_2 => 109,
            ProtocolVersion::V1_9_4 => 110,
            ProtocolVersion::V1_10 => 210,
            ProtocolVersion::V1_11 => 315,
            ProtocolVersion::V1_12 => 335,
            ProtocolVersion::V1_12_2 => 340,
            ProtocolVersion::V1_13 => 393,
            ProtocolVersion::V1_14 => 477,
            ProtocolVersion::V1_15 => 573,
            ProtocolVersion::V1_16 => 735,
            ProtocolVersion::V1_16_1 => 736,
            ProtocolVersion::V1_16_2 => 751,
            ProtocolVersion::V1_16_3 => 753,
            ProtocolVersion::V1_16_5 => 754,
        }
    }

    pub fn id(self) -> (n: i32)
        ensures
            n as int == self.spec_id(),
    {
        match self {
            ProtocolVersion::V1_8 => 47,
            ProtocolVersion::V1_9 => 107,
            ProtocolVersion::V1_9_2 => 109,
            ProtocolVersion::V1_9_4 => 110,
            ProtocolVersion::V1_10 => 210,
            ProtocolVersion::V1_11 => 315,
            ProtocolVersion::V1_12 => 335,
            ProtocolVersion::V1_12_2 => 340,
            ProtocolVersion::V1_13 => 393,
            ProtocolVersion::V1_14 => 477,
            ProtocolVersion::V1_15 => 573,
            ProtocolVersion::V1_16 => 735,
            ProtocolVersion::V1_16_1 => 736,
            ProtocolVersion::V1_16_2 => 751,
            ProtocolVersion::V1_16_3 => 753,
            ProtocolVersion::V1_16_5 => 754,
        }
    }

    /// The version that a client names by `id`, if the server speaks it.
    pub fn from_id(id: i32) -> (r: Option<ProtocolVersion>)
        ensures
            r.is_some() <==> exists|v: ProtocolVersion| v.spec_id() == id,
            r.is_some() ==> r.unwrap().spec_id() == id,
    {
        let mut i: usize = 0;
        while i < PROTOCOL_VERSIONS
            invariant
                i <= PROTOCOL_VERSIONS,
                forall|v: ProtocolVersion| v.spec_index() < i ==> v.spec_id() != id,
            decreases PROTOCOL_VERSIONS - i,
        {
            let v = ProtocolVersion::from_index(i).unwrap();
            if v.id() == id {
                return Some(v);
            }
            proof {
                ProtocolVersion::index_injective();
            }
            i += 1;
        }
        None
    }

    /// Two versions at the same position are the same version.
    pub proof fn index_injective()
        ensures
            forall|a: ProtocolVersion, b: ProtocolVersion|
                a.spec_index() == b.spec_index() ==> a == b,
            forall|a: ProtocolVersion| 0 <= #[trigger] a.spec_index() < PROTOCOL_VERSIONS,
    {
    }

    /// Whether `self` is the same version as `other` or a later one.
    pub open spec fn spec_at_least(self, other: ProtocolVersion) -> bool {
        self.spec_index() >= other.spec_index()
    }

    #[verifier::when_used_as_spec(spec_at_least)]
    pub fn at_least(self, other: ProtocolVersion) -> (r: bool)
        ensures
            r == self.spec_at_least(other),
    {
        self.to_index() >= other.to_index()
    }

    /// The block numbering that the version uses.
    pub open spec fn spec_block(self) -> BlockVersion {
        match self {
            ProtocolVersion::V1_8 => BlockVersion::V1_8,
            ProtocolVersion::V1_9 | ProtocolVersion::V1_9_2 | ProtocolVersion::V1_9_4 =>
                BlockVersion::V1_9,
            ProtocolVersion::V1_10 => BlockVersion::V1_10,
            ProtocolVersion::V1_11 => BlockVersion::V1_11,
            ProtocolVersion::V1_12 | ProtocolVersion::V1_12_2 => BlockVersion::V1_12,
            ProtocolVersion::V1_13 => BlockVersion::V1_13,
            ProtocolVersion::V1_14 => BlockVersion::V1_14,
            ProtocolVersion::V1_15 => BlockVersion::V1_15,
            ProtocolVersion::V1_16
            | ProtocolVersion::V1_16_1
            | ProtocolVersion::V1_16_2
            | ProtocolVersion::V1_16_3
            | ProtocolVersion::V1_16_5 => BlockVersion::V1_16,
        }
    }

    #[verifier::when_used_as_spec(spec_block)]
    pub fn block(self) -> (b: BlockVersion)
        ensures
            b == self.spec_block(),
    {
        match self {
            ProtocolVersion::V1_8 => BlockVersion::V1_8,
            ProtocolVersion::V1_9 | ProtocolVersion::V1_9_2 | ProtocolVersion::V1_9_4 =>
                BlockVersion::V1_9,
            ProtocolVersion::V1_10 => BlockVersion::V1_10,
            ProtocolVersion::V1_11 => BlockVersion::V1_11,
            ProtocolVersion::V1_12 | ProtocolVersion::V1_12_2 => BlockVersion::V1_12,
            ProtocolVersion::V1_13 => BlockVersion::V1_13,
            ProtocolVersion::V1_14 => BlockVersion::V1_14,
            ProtocolVersion::V1_15 => BlockVersion::V1_15,
            ProtocolVersion::V1_16
            | ProtocolVersion::V1_16_1
            | ProtocolVersion::V1_16_2
            | ProtocolVersion::V1_16_3
            | ProtocolVersion::V1_16_5 => BlockVersion::V1_16,
        }
    }

    /// The order is monotone in the block numbering: a later protocol never
    /// uses an earlier numbering.
    pub proof fn block_monotone(a: ProtocolVersion, b: ProtocolVersion)
        requires
            a.spec_at_least(b),
        ensures
            a.spec_block().spec_index() >= b.spec_block().spec_index(),
    {
    }
}

} // verus!
