//! The surface of a chunk column as a client draws it: for every block that
//! is not air, each face behind which a cell of air lies, as the six corners
//! of two triangles. A corner is a point on the grid of blocks, so the whole
//! mesh is exact.

use vstd::prelude::*;
use crate::chunk::{lemma_rel_of, lemma_split, Chunk, CHUNK_CELLS, CHUNK_SECTIONS};
use crate::math::{Face, RelPos};
use crate::section::{AIR, SECTION_CELLS};

verus! {

/// A corner of a face, in blocks from the origin of the column.
#[derive(Clone, Copy, Debug, PartialEq, Eq, Structural)]
pub struct Vert3 {
    pub x: i32,
    pub y: i32,
    pub z: i32,
}

/// Corners in the mesh of one face.
pub const FACE_CORNERS: usize = 6;

/// The faces of a block in the order in which they are drawn.
pub open spec fn spec_draw_order() -> Seq<Face> {
    seq![Face::Top, Face::Bottom, Face::South, Face::North, Face::East, Face::West]
}

/// The face at `k` in drawing order.
pub fn draw_face(k: usize) -> (f: Face)
    requires
        k < 6,
    ensures
        f == spec_draw_order()[k as int],
{
    if k == 0 {
        Face::Top
    } else if k == 1 {
        Face::Bottom
    } else if k == 2 {
        Face::South
    } else if k == 3 {
        Face::North
    } else if k == 4 {
        Face::East
    } else {
        Face::West
    }
}

/// Corner `i` of the unit square, walked as two triangles that share the
/// diagonal from (1, 1) to (0, 0).
pub open spec fn spec_square(i: int) -> (int, int) {
    if i == 0 || i == 5 {
        (1, 1)
    } else if i == 1 {
        (1, 0)
    } else if i == 4 {
        (0, 1)
    } else {
        (0, 0)
    }
}

/// The point (`u`, `v`) of the unit square when the square is laid on `face`
/// of the unit cube.
pub open spec fn spec_lift(face: Face, u: int, v: int) -> (int, int, int) {
    match face {
        Face::Top => (u, 1, v),
        Face::Bottom => (u, 0, v),
        Face::South => (u, v, 1),
        Face::North => (u, v, 0),
        Face::East => (1, u, v),
        Face::West => (0, u, v),
    }
}

/// Corner `i` of `face` of the block at `p`.
pub open spec fn spec_corner(p: RelPos, face: Face, i: int) -> Vert3 {
    let (u, v) = spec_square(i);
    let (dx, dy, dz) = spec_lift(face, u, v);
    Vert3 { x: (p.x + dx) as i32, y: (p.y + dy) as i32, z: (p.z + dz) as i32 }
}

/// The six corners of `face` of the block at `p`.
pub open spec fn spec_face(p: RelPos, face: Face) -> Seq<Vert3> {
    Seq::new(FACE_CORNERS as nat, |i: int| spec_corner(p, face, i))
}

/// The cell across `face` of `p`, where it lies inside the column.
pub open spec fn spec_neighbor(p: RelPos, face: Face) -> RelPos {
    RelPos { x: (p.x + face.dx()) as u8, y: (p.y + face.dy()) as u8, z: (p.z + face.dz()) as u8 }
}

/// Whether `face` of the block at `p` is drawn: `p` holds a block, and the
/// cell across the face lies inside the column and holds air.
pub open spec fn spec_visible(c: Chunk, p: RelPos, face: Face) -> bool {
    &&& c.block_at(p) != AIR
    &&& p.has_neighbor(face)
    &&& c.block_at(spec_neighbor(p, face)) == AIR
}

/// The mesh of the first `k` faces of the block at `p`, in drawing order.
pub open spec fn spec_cell_mesh(c: Chunk, p: RelPos, k: int) -> Seq<Vert3>
    decreases k,
{
    if k <= 0 {
        Seq::empty()
    } else {
        let face = spec_draw_order()[k - 1];
        spec_cell_mesh(c, p, k - 1) + if spec_visible(c, p, face) {
            spec_face(p, face)
        } else {
            Seq::empty()
        }
    }
}

/// The mesh of the first `n` cells of the column, in the order of their
/// indices: layer by layer from the bottom, each layer row by row.
pub open spec fn spec_mesh_upto(c: Chunk, n: int) -> Seq<Vert3>
    decreases n,
{
    if n <= 0 {
        Seq::empty()
    } else {
        spec_mesh_upto(c, n - 1) + spec_cell_mesh(c, crate::chunk::spec_rel_of(n - 1), 6)
    }
}

/// The mesh of the column.
pub open spec fn spec_mesh(c: Chunk) -> Seq<Vert3> {
    spec_mesh_upto(c, CHUNK_CELLS as int)
}

/// A cell of air adds nothing to the mesh.
pub proof fn lemma_air_cell(c: Chunk, p: RelPos, k: int)
    requires
        c.block_at(p) == AIR,
    ensures
        spec_cell_mesh(c, p, k) == Seq::<Vert3>::empty(),
    decreases k,
{
    if k > 0 {
        lemma_air_cell(c, p, k - 1);
        assert(spec_cell_mesh(c, p, k) =~= Seq::<Vert3>::empty());
    }
}

/// A section that is not stored adds nothing to the mesh.
pub proof fn lemma_absent_section(c: Chunk, s: int, n: int)
    requires
        c.wf(),
        0 <= s < CHUNK_SECTIONS,
        !c.present(s),
        0 <= n <= SECTION_CELLS,
    ensures
        spec_mesh_upto(c, s * 4096 + n) == spec_mesh_upto(c, s * 4096),
    decreases n,
{
    if n > 0 {
        lemma_absent_section(c, s, n - 1);
        let i = s * 4096 + n - 1;
        crate::chunk::lemma_cell_index(s, n - 1);
        lemma_rel_of(i);
        let p = crate::chunk::spec_rel_of(i);
        assert(c.block_at(p) == AIR);
        lemma_air_cell(c, p, 6);
        assert(spec_mesh_upto(c, i + 1) =~= spec_mesh_upto(c, i));
    }
}

/// Every corner of a face lies on the block: at most one step from the
/// block's own corner on each axis, and on the side that the face names.
pub proof fn corners_on_block(p: RelPos, face: Face, i: int)
    requires
        p.wf(),
        0 <= i < FACE_CORNERS,
    ensures
        ({
            let v = spec_face(p, face)[i];
            &&& p.x <= v.x <= p.x + 1
            &&& p.y <= v.y <= p.y + 1
            &&& p.z <= v.z <= p.z + 1
            &&& face.dx() == 1 ==> v.x == p.x + 1
            &&& face.dx() == -1 ==> v.x == p.x
            &&& face.dy() == 1 ==> v.y == p.y + 1
            &&& face.dy() == -1 ==> v.y == p.y
            &&& face.dz() == 1 ==> v.z == p.z + 1
            &&& face.dz() == -1 ==> v.z == p.z
        }),
{
}

/// Appends the six corners of `face` of the block at `p`.
pub fn add_face(buf: &mut Vec<Vert3>, p: RelPos, face: Face)
    ensures
        final(buf)@ == old(buf)@ + spec_face(p, face),
{
    let ghost before = buf@;
    let x: i32 = p.x as i32;
    let y: i32 = p.y as i32;
    let z: i32 = p.z as i32;
    let mut i: usize = 0;
    while i < FACE_CORNERS
        invariant
            i <= FACE_CORNERS,
            x == p.x,
            y == p.y,
            z == p.z,
            buf@.len() == before.len() + i,
            forall|j: int| 0 <= j < before.len() ==> buf@[j] == before[j],
            forall|j: int| 0 <= j < i ==> buf@[before.len() + j] == spec_corner(p, face, j),
        decreases FACE_CORNERS - i,
    {
        let u: i32 = if i == 0 || i == 1 || i == 5 {
            1
        } else {
            0
        };
        let v: i32 = if i == 0 || i == 4 || i == 5 {
            1
        } else {
            0
        };
        let corner = match face {
            Face::Top => Vert3 { x: x + u, y: y + 1, z: z + v },
            Face::Bottom => Vert3 { x: x + u, y, z: z + v },
            Face::South => Vert3 { x: x + u, y: y + v, z: z + 1 },
            Face::North => Vert3 { x: x + u, y: y + v, z },
            Face::East => Vert3 { x: x + 1, y: y + u, z: z + v },
            Face::West => Vert3 { x, y: y + u, z: z + v },
        };
        assert(corner == spec_corner(p, face, i as int));
        buf.push(corner);
        i += 1;
    }
    assert(buf@ =~= before + spec_face(p, face));
}

/// A chunk column together with its mesh. The mesh is made again only when
/// it is asked for after the column has changed.
#[derive(Debug)]
pub struct MeshChunk {
    chunk: Chunk,
    outdated: bool,
    vbuf: Vec<Vert3>,
}

impl MeshChunk {
    /// The column.
    pub closed spec fn spec_chunk(self) -> Chunk {
        self.chunk
    }

    /// Whether the column has changed since the mesh was made.
    pub closed spec fn spec_outdated(self) -> bool {
        self.outdated
    }

    /// The mesh as it is held.
    pub closed spec fn spec_vbuf(self) -> Seq<Vert3> {
        self.vbuf@
    }

    /// The column is well formed, and a mesh that is not marked as outdated
    /// is the mesh of the column.
    pub open spec fn wf(self) -> bool {
        &&& self.spec_chunk().wf()
        &&& !self.spec_outdated() ==> self.spec_vbuf() == spec_mesh(self.spec_chunk())
    }

    /// The column with its mesh.
    pub fn new(chunk: Chunk) -> (m: MeshChunk)
        requires
            chunk.wf(),
        ensures
            m.wf(),
            m.spec_chunk() == chunk,
            !m.spec_outdated(),
    {
        let mut m = MeshChunk { chunk, outdated: true, vbuf: Vec::new() };
        m.update_mesh();
        m
    }

    /// The column.
    pub fn chunk(&self) -> (c: &Chunk)
        ensures
            *c == self.spec_chunk(),
    {
        &self.chunk
    }

    /// Whether the mesh will be made again when it is next asked for.
    pub fn is_outdated(&self) -> (r: bool)
        ensures
            r == self.spec_outdated(),
    {
        self.outdated
    }

    /// The mesh of the column as it is now. It is made again first where the
    /// column has changed since it was last made.
    pub fn get_vbuf(&mut self) -> (v: &Vec<Vert3>)
        requires
            old(self).wf(),
        ensures
            final(self).wf(),
            final(self).spec_chunk() == old(self).spec_chunk(),
            !final(self).spec_outdated(),
            v@ == spec_mesh(old(self).spec_chunk()),
            v@ == final(self).spec_vbuf(),
    {
        if self.outdated {
            self.update_mesh();
        }
        &self.vbuf
    }

    /// Makes the mesh of the column.
    pub fn update_mesh(&mut self)
        requires
            old(self).spec_chunk().wf(),
        ensures
            final(self).wf(),
            final(self).spec_chunk() == old(self).spec_chunk(),
            !final(self).spec_outdated(),
            final(self).spec_vbuf() == spec_mesh(old(self).spec_chunk()),
    {
        let mut buf: Vec<Vert3> = Vec::new();
        let mut s: usize = 0;
        while s < CHUNK_SECTIONS
            invariant
                s <= CHUNK_SECTIONS,
                self.chunk == old(self).chunk,
                self.chunk.wf(),
                buf@ == spec_mesh_upto(self.chunk, s * 4096),
            decreases CHUNK_SECTIONS - s,
        {
            if self.chunk.has_section(s) {
                let mut cell: usize = 0;
                while cell < SECTION_CELLS
                    invariant
                        s < CHUNK_SECTIONS,
                        cell <= SECTION_CELLS,
                        self.chunk == old(self).chunk,
                        self.chunk.wf(),
                        buf@ == spec_mesh_upto(self.chunk, s * 4096 + cell),
                    decreases SECTION_CELLS - cell,
                {
                    let i: usize = s * 4096 + cell;
                    let p = RelPos {
                        x: (i % 16) as u8,
                        y: (i / 256) as u8,
                        z: ((i / 16) % 16) as u8,
                    };
                    proof {
                        lemma_rel_of(i as int);
                        assert(p == crate::chunk::spec_rel_of(i as int));
                    }
                    if self.chunk.get_block(p) != AIR {
                        self.add_cell(&mut buf, p);
                    } else {
                        proof {
                            lemma_air_cell(self.chunk, p, 6);
                            assert(buf@ + Seq::<Vert3>::empty() =~= buf@);
                        }
                    }
                    cell += 1;
                }
            } else {
                proof {
                    lemma_absent_section(self.chunk, s as int, SECTION_CELLS as int);
                }
            }
            s += 1;
        }
        self.vbuf = buf;
        self.outdated = false;
    }

    /// Appends the faces of the block at `p` that are drawn.
    fn add_cell(&self, buf: &mut Vec<Vert3>, p: RelPos)
        requires
            self.chunk.wf(),
            p.wf(),
        ensures
            final(buf)@ == old(buf)@ + spec_cell_mesh(self.chunk, p, 6),
    {
        let ghost before = buf@;
        let block = self.chunk.get_block(p);
        let mut k: usize = 0;
        assert(before + spec_cell_mesh(self.chunk, p, 0) =~= before);
        while k < 6
            invariant
                k <= 6,
                self.chunk.wf(),
                p.wf(),
                block == self.chunk.block_at(p),
                buf@ == before + spec_cell_mesh(self.chunk, p, k as int),
            decreases 6 - k,
        {
            let face = draw_face(k);
            let ghost held = buf@;
            let mut drawn = false;
            if block != AIR {
                match p.checked_add(face) {
                    Some(q) => {
                        assert(q == spec_neighbor(p, face));
                        if self.chunk.get_block(q) == AIR {
                            add_face(buf, p, face);
                            drawn = true;
                        }
                    },
                    None => {},
                }
            }
            proof {
                assert(drawn == spec_visible(self.chunk, p, face));
                let step = if drawn {
                    spec_face(p, face)
                } else {
                    Seq::<Vert3>::empty()
                };
                assert(buf@ =~= held + step);
                assert(spec_cell_mesh(self.chunk, p, k + 1) == spec_cell_mesh(
                    self.chunk,
                    p,
                    k as int,
                ) + step);
                assert(before + (spec_cell_mesh(self.chunk, p, k as int) + step) =~= (before
                    + spec_cell_mesh(self.chunk, p, k as int)) + step);
            }
            k += 1;
        }
    }

    /// Sets the block at `p` and returns the block that was there. The mesh
    /// is marked as outdated.
    pub fn set_block(&mut self, p: RelPos, ty: u32) -> (prev: u32)
        requires
            old(self).wf(),
            p.wf(),
        ensures
            final(self).wf(),
            final(self).spec_outdated(),
            prev == old(self).spec_chunk().block_at(p),
            final(self).spec_chunk()@ == old(self).spec_chunk()@.update(p.spec_index(), ty),
    {
        self.outdated = true;
        self.chunk.set_block(p, ty)
    }

    /// Sets every cell of the box from `min` to `max`, both inclusive. The
    /// mesh is marked as outdated.
    pub fn fill(&mut self, min: RelPos, max: RelPos, ty: u32)
        requires
            old(self).wf(),
            min.wf(),
            max.wf(),
        ensures
            final(self).wf(),
            final(self).spec_outdated(),
            forall|p: RelPos|
                p.wf() ==> #[trigger] final(self).spec_chunk().block_at(p) == if crate::chunk::in_box(
                    min,
                    max,
                    p,
                ) {
                    ty
                } else {
                    old(self).spec_chunk().block_at(p)
                },
    {
        self.outdated = true;
        self.chunk.fill(min, max, ty);
    }
}

} // verus!
