//! Positions: blocks, chunks, chunk-relative cells and fixed-point points.

use vstd::prelude::*;

verus! {

/// Fixed-point units per block (and per degree).
pub const FIXED_ONE: i64 = 4096;

/// Exclusive bound on the magnitude of a fixed-point coordinate: 2^26 blocks.
pub const FIXED_LIMIT: i64 = 0x40_0000_0000;

/// Exclusive bound on the magnitude of a chunk coordinate that a block
/// position can lie in.
pub const CHUNK_LIMIT: i32 = 0x800_0000;

/// The six axis directions, in the order in which neighbours are visited.
#[derive(Clone, Copy, Debug, PartialEq, Eq, Structural, Hash)]
pub enum Face {
    Top,
    Bottom,
    North,
    South,
    East,
    West,
}

/// The position of a chunk column.
#[derive(Clone, Copy, Debug, PartialEq, Eq, Structural, Hash)]
pub struct ChunkPos {
    pub x: i32,
    pub z: i32,
}

/// The position of a block in the world.
#[derive(Clone, Copy, Debug, PartialEq, Eq, Structural, Hash)]
pub struct Pos {
    pub x: i32,
    pub y: i32,
    pub z: i32,
}

/// The position of a cell inside one chunk column: `x` and `z` in 0..=15,
/// `y` in 0..=255.
#[derive(Clone, Copy, Debug, PartialEq, Eq, Structural, Hash)]
pub struct RelPos {
    pub x: u8,
    pub y: u8,
    pub z: u8,
}

/// A point in the world, in fixed point (1/4096 of a block).
#[derive(Clone, Copy, Debug, PartialEq, Eq, Structural, Hash)]
pub struct FPos {
    pub x: i64,
    pub y: i64,
    pub z: i64,
}

/// A position that was refused, with the reason.
#[derive(Debug)]
pub struct FPosError {
    pub pos: FPos,
    pub msg: String,
}

/// A block position outside the world's height.
#[derive(Clone, Copy, Debug, PartialEq, Eq, Structural)]
pub struct PosError {
    pub pos: Pos,
}

pub open spec fn floor_div(a: int, d: int) -> int
    recommends
        d > 0,
{
    a / d
}

pub open spec fn floor_mod(a: int, d: int) -> int
    recommends
        d > 0,
{
    a % d
}

/// Floor of `a / 16` for any `i32`.
pub fn div16(a: i32) -> (r: i32)
    ensures
        r as int == floor_div(a as int, 16),
        -CHUNK_LIMIT <= r < CHUNK_LIMIT,
{
    let wide: i64 = a as i64 + 0x8000_0000i64;
    (wide / 16 - 0x800_0000i64) as i32
}

/// `a` modulo 16, in 0..=15, for any `i32`.
pub fn mod16(a: i32) -> (r: u8)
    ensures
        r as int == floor_mod(a as int, 16),
        r < 16,
{
    let wide: i64 = a as i64 + 0x8000_0000i64;
    (wide % 16) as u8
}

/// Floor of `a / 4096` for a coordinate within the fixed-point limit.
pub fn div4096(a: i64) -> (r: i32)
    requires
        -FIXED_LIMIT <= a < FIXED_LIMIT,
    ensures
        r as int == floor_div(a as int, 4096),
        -0x400_0000 <= r < 0x400_0000,
{
    let wide: i64 = a + FIXED_LIMIT;
    (wide / 4096 - 0x400_0000i64) as i32
}

impl Face {
    /// The six faces in visiting order: up, down, north, south, east, west.
    pub open spec fn all() -> Seq<Face> {
        seq![Face::Top, Face::Bottom, Face::North, Face::South, Face::East, Face::West]
    }

    /// The face at `i` in visiting order.
    pub fn nth(i: usize) -> (f: Face)
        requires
            i < 6,
        ensures
            f == Face::all()[i as int],
    {
        if i == 0 {
            Face::Top
        } else if i == 1 {
            Face::Bottom
        } else if i == 2 {
            Face::North
        } else if i == 3 {
            Face::South
        } else if i == 4 {
            Face::East
        } else {
            Face::West
        }
    }

    pub open spec fn dx(self) -> int {
        match self {
            Face::East => 1,
            Face::West => -1,
            _ => 0,
        }
    }

    pub open spec fn dy(self) -> int {
        match self {
            Face::Top => 1,
            Face::Bottom => -1,
            _ => 0,
        }
    }

    pub open spec fn dz(self) -> int {
        match self {
            Face::South => 1,
            Face::North => -1,
            _ => 0,
        }
    }
}

impl ChunkPos {
    pub fn new(x: i32, z: i32) -> (r: Self)
        ensures
            r.x == x,
            r.z == z,
    {
        ChunkPos { x, z }
    }

    pub fn x(&self) -> (r: i32)
        ensures
            r == self.x,
    {
        self.x
    }

    pub fn z(&self) -> (r: i32)
        ensures
            r == self.z,
    {
        self.z
    }

    /// Whether a block position can lie in this chunk.
    pub open spec fn in_world(self) -> bool {
        -CHUNK_LIMIT <= self.x < CHUNK_LIMIT && -CHUNK_LIMIT <= self.z < CHUNK_LIMIT
    }

    /// Exec form of [`ChunkPos::in_world`].
    pub fn is_in_world(&self) -> (r: bool)
        ensures
            r == self.in_world(),
    {
        -CHUNK_LIMIT <= self.x && self.x < CHUNK_LIMIT && -CHUNK_LIMIT <= self.z && self.z
            < CHUNK_LIMIT
    }

    /// The key under which the chunk is stored: the two coordinates, each
    /// shifted to be non-negative, `x` in the upper 32 bits and `z` in the
    /// lower.
    pub open spec fn spec_key(self) -> u64 {
        ((self.x + 0x8000_0000) * 0x1_0000_0000 + (self.z + 0x8000_0000)) as u64
    }

    #[verifier::when_used_as_spec(spec_key)]
    pub fn key(self) -> (k: u64)
        ensures
            k == self.spec_key(),
    {
        let hi: u64 = (self.x as i64 + 0x8000_0000i64) as u64;
        let lo: u64 = (self.z as i64 + 0x8000_0000i64) as u64;
        hi * 0x1_0000_0000u64 + lo
    }

    /// Distinct chunks have distinct keys.
    pub proof fn key_injective(a: ChunkPos, b: ChunkPos)
        requires
            a.spec_key() == b.spec_key(),
        ensures
            a == b,
    {
    }
}

impl Pos {
    pub fn new(x: i32, y: i32, z: i32) -> (r: Self)
        ensures
            r.x == x,
            r.y == y,
            r.z == z,
    {
        Pos { x, y, z }
    }

    pub fn x(&self) -> (r: i32)
        ensures
            r == self.x,
    {
        self.x
    }

    pub fn y(&self) -> (r: i32)
        ensures
            r == self.y,
    {
        self.y
    }

    pub fn z(&self) -> (r: i32)
        ensures
            r == self.z,
    {
        self.z
    }

    /// Whether the position lies within the world's height.
    pub open spec fn in_height(self) -> bool {
        0 <= self.y <= 255
    }

    pub open spec fn spec_chunk(self) -> ChunkPos {
        ChunkPos { x: floor_div(self.x as int, 16) as i32, z: floor_div(self.z as int, 16) as i32 }
    }

    pub open spec fn spec_chunk_rel(self) -> RelPos
        recommends
            self.in_height(),
    {
        RelPos {
            x: floor_mod(self.x as int, 16) as u8,
            y: self.y as u8,
            z: floor_mod(self.z as int, 16) as u8,
        }
    }

    pub fn chunk_x(&self) -> (r: i32)
        ensures
            r == self.spec_chunk().x,
    {
        div16(self.x)
    }

    pub fn chunk_z(&self) -> (r: i32)
        ensures
            r == self.spec_chunk().z,
    {
        div16(self.z)
    }

    pub fn chunk_rel_x(&self) -> (r: u8)
        ensures
            r as int == floor_mod(self.x as int, 16),
            r < 16,
    {
        mod16(self.x)
    }

    pub fn chunk_rel_z(&self) -> (r: u8)
        ensures
            r as int == floor_mod(self.z as int, 16),
            r < 16,
    {
        mod16(self.z)
    }

    /// The chunk that holds this block.
    pub fn chunk(&self) -> (r: ChunkPos)
        ensures
            r == self.spec_chunk(),
            r.in_world(),
    {
        ChunkPos { x: div16(self.x), z: div16(self.z) }
    }

    /// The cell of this block inside its chunk, or the error for a position
    /// above or below the world.
    pub fn chunk_rel(&self) -> (r: Result<RelPos, PosError>)
        ensures
            self.in_height() ==> r == Ok::<RelPos, PosError>(self.spec_chunk_rel()),
            self.in_height() ==> r.unwrap().wf(),
            !self.in_height() ==> r == Err::<RelPos, PosError>(PosError { pos: *self }),
    {
        if self.y < 0 || self.y > 255 {
            Err(PosError { pos: *self })
        } else {
            Ok(RelPos { x: mod16(self.x), y: self.y as u8, z: mod16(self.z) })
        }
    }

    /// The block at `rel` of chunk `chunk`.
    pub open spec fn spec_from_rel(chunk: ChunkPos, rel: RelPos) -> Pos {
        Pos { x: (chunk.x * 16 + rel.x) as i32, y: rel.y as i32, z: (chunk.z * 16 + rel.z) as i32 }
    }

    pub fn from_rel(chunk: ChunkPos, rel: RelPos) -> (r: Pos)
        requires
            chunk.in_world(),
            rel.wf(),
        ensures
            r == Pos::spec_from_rel(chunk, rel),
            r.spec_chunk() == chunk,
            r.in_height(),
            r.spec_chunk_rel() == rel,
    {
        Pos { x: chunk.x * 16 + rel.x as i32, y: rel.y as i32, z: chunk.z * 16 + rel.z as i32 }
    }
}

impl RelPos {
    pub open spec fn wf(self) -> bool {
        self.x < 16 && self.z < 16
    }

    /// The cell at the given coordinates, if they lie inside a chunk column.
    pub fn new(x: i32, y: i32, z: i32) -> (r: Option<RelPos>)
        ensures
            r.is_some() <==> (0 <= x < 16 && 0 <= y < 256 && 0 <= z < 16),
            r.is_some() ==> r.unwrap() == (RelPos { x: x as u8, y: y as u8, z: z as u8 })
                && r.unwrap().wf(),
    {
        if 0 <= x && x < 16 && 0 <= y && y < 256 && 0 <= z && z < 16 {
            Some(RelPos { x: x as u8, y: y as u8, z: z as u8 })
        } else {
            None
        }
    }

    pub fn x(&self) -> (r: u8)
        ensures
            r == self.x,
    {
        self.x
    }

    pub fn y(&self) -> (r: u8)
        ensures
            r == self.y,
    {
        self.y
    }

    pub fn z(&self) -> (r: u8)
        ensures
            r == self.z,
    {
        self.z
    }

    /// The index of the cell in a column stored section by section, each
    /// section row by row: `y * 256 + z * 16 + x`.
    pub open spec fn spec_index(self) -> int {
        self.y as int * 256 + self.z as int * 16 + self.x as int
    }

    pub fn index(&self) -> (i: usize)
        requires
            self.wf(),
        ensures
            i as int == self.spec_index(),
            i < 65536,
    {
        self.y as usize * 256 + self.z as usize * 16 + self.x as usize
    }

    /// Whether `other` is the neighbour of `self` across `face`.
    pub open spec fn is_neighbor(self, face: Face, other: RelPos) -> bool {
        &&& other.x as int == self.x as int + face.dx()
        &&& other.y as int == self.y as int + face.dy()
        &&& other.z as int == self.z as int + face.dz()
    }

    /// Whether the neighbour across `face` lies inside the column.
    pub open spec fn has_neighbor(self, face: Face) -> bool {
        &&& 0 <= self.x as int + face.dx() < 16
        &&& 0 <= self.y as int + face.dy() < 256
        &&& 0 <= self.z as int + face.dz() < 16
    }

    /// The neighbour across `face`, or `None` where that leaves the column.
    pub fn checked_add(&self, face: Face) -> (r: Option<RelPos>)
        requires
            self.wf(),
        ensures
            r.is_some() <==> self.has_neighbor(face),
            r.is_some() ==> r.unwrap().wf() && self.is_neighbor(face, r.unwrap()),
    {
        match face {
            Face::Top => if self.y < 255 {
                Some(RelPos { x: self.x, y: self.y + 1, z: self.z })
            } else {
                None
            },
            Face::Bottom => if self.y > 0 {
                Some(RelPos { x: self.x, y: self.y - 1, z: self.z })
            } else {
                None
            },
            Face::North => if self.z > 0 {
                Some(RelPos { x: self.x, y: self.y, z: self.z - 1 })
            } else {
                None
            },
            Face::South => if self.z < 15 {
                Some(RelPos { x: self.x, y: self.y, z: self.z + 1 })
            } else {
                None
            },
            Face::East => if self.x < 15 {
                Some(RelPos { x: self.x + 1, y: self.y, z: self.z })
            } else {
                None
            },
            Face::West => if self.x > 0 {
                Some(RelPos { x: self.x - 1, y: self.y, z: self.z })
            } else {
                None
            },
        }
    }
}

impl FPos {
    /// Whether every coordinate lies within 2^26 blocks of the origin.
    pub open spec fn wf(self) -> bool {
        &&& -FIXED_LIMIT <= self.x < FIXED_LIMIT
        &&& -FIXED_LIMIT <= self.y < FIXED_LIMIT
        &&& -FIXED_LIMIT <= self.z < FIXED_LIMIT
    }

    /// The point with the given fixed-point coordinates, or `None` where one
    /// of them lies outside the world.
    pub fn new(x: i64, y: i64, z: i64) -> (r: Option<FPos>)
        ensures
            r.is_some() <==> (FPos { x, y, z }).wf(),
            r.is_some() ==> r.unwrap() == (FPos { x, y, z }),
    {
        if -FIXED_LIMIT <= x && x < FIXED_LIMIT && -FIXED_LIMIT <= y && y < FIXED_LIMIT
            && -FIXED_LIMIT <= z && z < FIXED_LIMIT {
            Some(FPos { x, y, z })
        } else {
            None
        }
    }

    /// The minimum corner of a block.
    pub fn from_block(p: Pos) -> (r: FPos)
        requires
            -0x400_0000 <= p.x < 0x400_0000,
            -0x400_0000 <= p.y < 0x400_0000,
            -0x400_0000 <= p.z < 0x400_0000,
        ensures
            r.wf(),
            r.x == p.x * 4096,
            r.y == p.y * 4096,
            r.z == p.z * 4096,
            r.spec_block() == p,
    {
        FPos { x: p.x as i64 * 4096, y: p.y as i64 * 4096, z: p.z as i64 * 4096 }
    }

    pub fn x(&self) -> (r: i64)
        ensures
            r == self.x,
    {
        self.x
    }

    pub fn y(&self) -> (r: i64)
        ensures
            r == self.y,
    {
        self.y
    }

    pub fn z(&self) -> (r: i64)
        ensures
            r == self.z,
    {
        self.z
    }

    pub open spec fn spec_block(self) -> Pos {
        Pos {
            x: floor_div(self.x as int, 4096) as i32,
            y: floor_div(self.y as int, 4096) as i32,
            z: floor_div(self.z as int, 4096) as i32,
        }
    }

    /// The block that holds this point.
    pub fn block(&self) -> (r: Pos)
        requires
            self.wf(),
        ensures
            r == self.spec_block(),
    {
        Pos { x: div4096(self.x), y: div4096(self.y), z: div4096(self.z) }
    }

    /// The chunk that holds this point.
    pub fn chunk(&self) -> (r: ChunkPos)
        requires
            self.wf(),
        ensures
            r == self.spec_block().spec_chunk(),
            r.in_world(),
    {
        self.block().chunk()
    }

    /// The coordinate `v` in 1/32 of a block, rounded down.
    pub open spec fn spec_fixed32(v: i64) -> int {
        floor_div(v as int, 128)
    }

    /// A coordinate in 1/32 of a block, rounded down: the form the oldest
    /// protocol sends absolute positions in.
    pub fn fixed32(v: i64) -> (r: i32)
        requires
            -FIXED_LIMIT <= v < FIXED_LIMIT,
        ensures
            r as int == FPos::spec_fixed32(v),
    {
        let wide: i64 = v + FIXED_LIMIT;
        (wide / 128 - 0x8000_0000i64) as i32
    }

    pub fn fixed_x(&self) -> (r: i32)
        requires
            self.wf(),
        ensures
            r as int == FPos::spec_fixed32(self.x),
    {
        FPos::fixed32(self.x)
    }

    pub fn fixed_y(&self) -> (r: i32)
        requires
            self.wf(),
        ensures
            r as int == FPos::spec_fixed32(self.y),
    {
        FPos::fixed32(self.y)
    }

    pub fn fixed_z(&self) -> (r: i32)
        requires
            self.wf(),
        ensures
            r as int == FPos::spec_fixed32(self.z),
    {
        FPos::fixed32(self.z)
    }

    /// The error that reports this position as refused.
    pub fn err(&self, msg: String) -> (e: FPosError)
        ensures
            e.pos == *self,
            e.msg == msg,
    {
        FPosError { pos: *self, msg }
    }

    /// The sum of two points, where it lies inside the world.
    pub fn checked_add(&self, other: FPos) -> (r: Option<FPos>)
        requires
            self.wf(),
            other.wf(),
        ensures
            r.is_some() <==> (FPos {
                x: (self.x + other.x) as i64,
                y: (self.y + other.y) as i64,
                z: (self.z + other.z) as i64,
            }).wf(),
            r.is_some() ==> r.unwrap().x == self.x + other.x && r.unwrap().y == self.y + other.y
                && r.unwrap().z == self.z + other.z,
    {
        FPos::new(self.x + other.x, self.y + other.y, self.z + other.z)
    }

    /// The difference of two points, where it lies inside the world.
    pub fn checked_sub(&self, other: FPos) -> (r: Option<FPos>)
        requires
            self.wf(),
            other.wf(),
        ensures
            r.is_some() <==> (FPos {
                x: (self.x - other.x) as i64,
                y: (self.y - other.y) as i64,
                z: (self.z - other.z) as i64,
            }).wf(),
            r.is_some() ==> r.unwrap().x == self.x - other.x && r.unwrap().y == self.y - other.y
                && r.unwrap().z == self.z - other.z,
    {
        FPos::new(self.x - other.x, self.y - other.y, self.z - other.z)
    }
}

impl Default for FPos {
    fn default() -> (r: FPos)
        ensures
            r == (FPos { x: 0, y: 0, z: 0 }),
    {
        FPos { x: 0, y: 0, z: 0 }
    }
}

} // verus!
