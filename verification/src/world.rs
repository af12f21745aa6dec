//! The chunk store of a world: chunks are generated on first access and kept
//! from then on, and every block is read and written through them.

use std::collections::HashMap;
use vstd::prelude::*;
use crate::chunk::{in_box, lemma_split, Chunk};
use crate::light::{
    block_seed, grounded, sky_seed, smooth, spec_dark, BlockLightChunk, BlockTable, SkyLightChunk,
};
use crate::math::{ChunkPos, Pos, PosError, RelPos};
use crate::player::Player;
use crate::section::AIR;
use crate::session::ChunkRect;

verus! {

broadcast use vstd::std_specs::hash::group_hash_axioms;

/// A generator of flat terrain: every column has the same blocks.
#[derive(Debug)]
pub struct WorldGen {
    /// The block of each layer, from the bottom up. Above them is air.
    pub layers: Vec<u32>,
}

impl WorldGen {
    /// The block that the terrain has at height `y`.
    pub open spec fn spec_block(self, y: int) -> u32 {
        if 0 <= y < self.layers@.len() {
            self.layers@[y]
        } else {
            AIR
        }
    }

    pub fn new(layers: Vec<u32>) -> (g: WorldGen)
        ensures
            g.layers == layers,
    {
        WorldGen { layers }
    }

    /// The chunk at `pos` as the terrain has it.
    pub fn generate(&self, pos: ChunkPos) -> (c: Chunk)
        ensures
            c.wf(),
            forall|p: RelPos| p.wf() ==> #[trigger] c.block_at(p) == self.spec_block(p.y as int),
    {
        let mut c = Chunk::new();
        let mut y: usize = 0;
        proof {
            assert forall|p: RelPos| p.wf() implies #[trigger] c.block_at(p) == AIR by {
                lemma_split(p);
            }
        }
        while y < 256 && y < self.layers.len()
            invariant
                y <= 256,
                y <= self.layers@.len(),
                c.wf(),
                forall|p: RelPos|
                    p.wf() ==> #[trigger] c.block_at(p) == if p.y < y {
                        self.spec_block(p.y as int)
                    } else {
                        AIR
                    },
            decreases 256 - y,
        {
            let id = self.layers[y];
            let lo = RelPos { x: 0, y: y as u8, z: 0 };
            let hi = RelPos { x: 15, y: y as u8, z: 15 };
            let ghost before = c;
            c.fill(lo, hi, id);
            proof {
                assert forall|p: RelPos| p.wf() implies #[trigger] c.block_at(p) == if p.y < y + 1 {
                    self.spec_block(p.y as int)
                } else {
                    AIR
                } by {
                    assert(before.block_at(p) == if p.y < y {
                        self.spec_block(p.y as int)
                    } else {
                        AIR
                    });
                    assert(in_box(lo, hi, p) <==> p.y == y);
                }
            }
            y += 1;
        }
        c
    }
}

/// A chunk with its two light grids.
#[derive(Debug)]
pub struct MultiChunk {
    pub blocks: Chunk,
    pub block_light: BlockLightChunk,
    pub sky_light: SkyLightChunk,
    /// Whether the light grids belong to the blocks as they are now.
    pub lit: bool,
}

impl MultiChunk {
    pub open spec fn wf(self) -> bool {
        &&& self.blocks.wf()
        &&& self.block_light.data.wf()
        &&& self.sky_light.data.wf()
    }

    /// Whether the two light grids are the light of the chunk's blocks.
    /// Both are at rest. Block light is at least what each block emits, sky
    /// light is full in the top cell of every column that is open to the
    /// sky, and no cell of either is brighter than that unless a neighbour
    /// lights it: they are the darkest such grids (see
    /// [`crate::light::light_is_least`]).
    pub open spec fn lit_for(self, table: BlockTable) -> bool {
        &&& smooth(self.block_light.data@, self.blocks, table, false)
        &&& smooth(self.sky_light.data@, self.blocks, table, true)
        &&& grounded(
            self.block_light.data@,
            block_seed(spec_dark(), self.blocks, table),
            self.blocks,
            table,
            false,
        )
        &&& grounded(
            self.sky_light.data@,
            sky_seed(spec_dark(), self.blocks, table),
            self.blocks,
            table,
            true,
        )
        &&& forall|a: RelPos|
            a.wf() ==> #[trigger] self.block_light.data.light_at(a) >= table.spec_emission(
                self.blocks.block_at(a),
            )
        &&& forall|a: RelPos|
            a.wf() && a.y == 255 && table.spec_passes(self.blocks.block_at(a))
                ==> #[trigger] self.sky_light.data.light_at(a) == 15
    }

    /// The chunk `blocks`, without light.
    pub fn new(blocks: Chunk) -> (c: MultiChunk)
        requires
            blocks.wf(),
        ensures
            c.wf(),
            c.blocks == blocks,
            !c.lit,
    {
        MultiChunk {
            blocks,
            block_light: BlockLightChunk::new(),
            sky_light: SkyLightChunk::new(),
            lit: false,
        }
    }

    pub fn get_block(&self, p: RelPos) -> (id: u32)
        requires
            self.wf(),
            p.wf(),
        ensures
            id == self.blocks.block_at(p),
    {
        self.blocks.get_block(p)
    }

    /// Sets the block at `p`, returns the block that was there, and marks
    /// the light as out of date.
    pub fn set_block(&mut self, p: RelPos, id: u32) -> (prev: u32)
        requires
            old(self).wf(),
            p.wf(),
        ensures
            final(self).wf(),
            prev == old(self).blocks.block_at(p),
            final(self).blocks@ == old(self).blocks@.update(p.spec_index(), id),
            !final(self).lit,
    {
        self.lit = false;
        self.blocks.set_block(p, id)
    }

    /// Fills the box from `min` to `max` and marks the light as out of date.
    pub fn fill(&mut self, min: RelPos, max: RelPos, id: u32)
        requires
            old(self).wf(),
            min.wf(),
            max.wf(),
        ensures
            final(self).wf(),
            !final(self).lit,
            forall|p: RelPos|
                p.wf() ==> #[trigger] final(self).blocks.block_at(p) == if in_box(min, max, p) {
                    id
                } else {
                    old(self).blocks.block_at(p)
                },
    {
        self.lit = false;
        self.blocks.fill(min, max, id);
    }

    /// Whether the light grids belong to the blocks as they are now.
    pub fn light_valid(&self) -> (r: bool)
        ensures
            r == self.lit,
    {
        self.lit
    }

    /// Computes both light grids anew from the blocks.
    pub fn relight(&mut self, table: &BlockTable)
        requires
            old(self).wf(),
        ensures
            final(self).wf(),
            final(self).blocks == old(self).blocks,
            final(self).lit,
            final(self).lit_for(*table),
    {
        let mut block_light = BlockLightChunk::new();
        block_light.update_all(&self.blocks, table);
        let mut sky_light = SkyLightChunk::new();
        sky_light.update_all(&self.blocks, table);
        self.block_light = block_light;
        self.sky_light = sky_light;
        self.lit = true;
    }
}

/// The part of a fill that fell into one chunk: the chunk, and the box of
/// its cells that were written, both corners inclusive.
#[derive(Clone, Copy, Debug, PartialEq, Eq, Structural)]
pub struct ChunkChange {
    pub chunk: ChunkPos,
    pub min: RelPos,
    pub max: RelPos,
}

/// Whether `p` lies in the box from `min` to `max`, both inclusive.
pub open spec fn pos_in_box(min: Pos, max: Pos, p: Pos) -> bool {
    &&& min.x <= p.x <= max.x
    &&& min.y <= p.y <= max.y
    &&& min.z <= p.z <= max.z
}

/// The chunks that the box from `min` to `max` reaches.
pub open spec fn spec_fill_rect(min: Pos, max: Pos) -> ChunkRect {
    ChunkRect {
        min: min.spec_chunk(),
        max: ChunkPos {
            x: (max.spec_chunk().x + 1) as i32,
            z: (max.spec_chunk().z + 1) as i32,
        },
    }
}

/// The part of the box from `min` to `max` that lies in chunk `c`.
pub open spec fn spec_change(min: Pos, max: Pos, c: ChunkPos) -> ChunkChange {
    ChunkChange {
        chunk: c,
        min: RelPos {
            x: if c.x == min.spec_chunk().x {
                min.spec_chunk_rel().x
            } else {
                0
            },
            y: min.y as u8,
            z: if c.z == min.spec_chunk().z {
                min.spec_chunk_rel().z
            } else {
                0
            },
        },
        max: RelPos {
            x: if c.x == max.spec_chunk().x {
                max.spec_chunk_rel().x
            } else {
                15
            },
            y: max.y as u8,
            z: if c.z == max.spec_chunk().z {
                max.spec_chunk_rel().z
            } else {
                15
            },
        },
    }
}

/// A position of the box lies in a chunk of the box's rectangle, and inside
/// such a chunk the box is the box of [`spec_change`].
pub proof fn lemma_change_box(min: Pos, max: Pos, p: Pos)
    requires
        min.in_height(),
        max.in_height(),
        p.in_height(),
    ensures
        pos_in_box(min, max, p) ==> spec_fill_rect(min, max).contains(p.spec_chunk()),
        spec_fill_rect(min, max).contains(p.spec_chunk()) ==> (pos_in_box(min, max, p) <==> in_box(
            spec_change(min, max, p.spec_chunk()).min,
            spec_change(min, max, p.spec_chunk()).max,
            p.spec_chunk_rel(),
        )),
{
    lemma_axis(min.x as int, max.x as int, p.x as int);
    lemma_axis(min.z as int, max.z as int, p.z as int);
}

/// One axis of [`lemma_change_box`].
proof fn lemma_axis(lo: int, hi: int, v: int)
    ensures
        lo <= v <= hi ==> lo / 16 <= v / 16 <= hi / 16,
        lo / 16 <= v / 16 <= hi / 16 ==> ((lo <= v <= hi) <==> ((if v / 16 == lo / 16 {
            lo % 16
        } else {
            0
        }) <= v % 16 <= (if v / 16 == hi / 16 {
            hi % 16
        } else {
            15
        }))),
{
}

/// Whether every player is well formed and no two have the same id.
pub open spec fn players_wf(players: Seq<Player>) -> bool {
    &&& forall|i: int| 0 <= i < players.len() ==> (#[trigger] players[i]).wf()
    &&& forall|i: int, j: int|
        0 <= i < j < players.len() ==> (#[trigger] players[i]).uuid != (#[trigger] players[j]).uuid
}

/// Taking a player out leaves the others as they were: well formed, with
/// different ids, and none with the id of the one that left.
pub proof fn lemma_players_remove(players: Seq<Player>, at: int)
    requires
        players_wf(players),
        0 <= at < players.len(),
    ensures
        players_wf(players.remove(at)),
        forall|j: int|
            0 <= j < players.remove(at).len() ==> (#[trigger] players.remove(at)[j]).uuid
                != players[at].uuid,
{
    let rest = players.remove(at);
    assert forall|j: int| 0 <= j < rest.len() implies (#[trigger] rest[j]).uuid != players[at].uuid
        && rest[j].wf() by {
        if j < at {
            assert(rest[j] == players[j]);
        } else {
            assert(rest[j] == players[j + 1]);
        }
    }
    assert forall|i: int, j: int| 0 <= i < j < rest.len() implies (#[trigger] rest[i]).uuid != (
    #[trigger] rest[j]).uuid by {
        let a = if i < at {
            i
        } else {
            i + 1
        };
        let b = if j < at {
            j
        } else {
            j + 1
        };
        assert(rest[i] == players[a]);
        assert(rest[j] == players[b]);
    }
}

/// A player with a new id can be added.
pub proof fn lemma_players_push(players: Seq<Player>, p: Player)
    requires
        players_wf(players),
        p.wf(),
        forall|j: int| 0 <= j < players.len() ==> (#[trigger] players[j]).uuid != p.uuid,
    ensures
        players_wf(players.push(p)),
{
    let all = players.push(p);
    assert forall|i: int| 0 <= i < all.len() implies (#[trigger] all[i]).wf() by {
        if i < players.len() {
            assert(all[i] == players[i]);
        }
    }
    assert forall|i: int, j: int| 0 <= i < j < all.len() implies (#[trigger] all[i]).uuid != (
    #[trigger] all[j]).uuid by {
        assert(all[i] == players[i]);
        if j < players.len() {
            assert(all[j] == players[j]);
        }
    }
}

/// A player can be replaced by one with the same id.
pub proof fn lemma_players_update(players: Seq<Player>, at: int, p: Player)
    requires
        players_wf(players),
        0 <= at < players.len(),
        p.wf(),
        p.uuid == players[at].uuid,
    ensures
        players_wf(players.update(at, p)),
{
    let all = players.update(at, p);
    assert forall|i: int| 0 <= i < all.len() implies (#[trigger] all[i]).wf() by {
        if i != at {
            assert(all[i] == players[i]);
        }
    }
    assert forall|i: int, j: int| 0 <= i < j < all.len() implies (#[trigger] all[i]).uuid != (
    #[trigger] all[j]).uuid by {
        assert(players[i].uuid != players[j].uuid);
    }
}

/// Whether entry `i` of the list is the last for its position among the
/// first `n` entries.
pub open spec fn last_at_pos(chunks: Seq<(ChunkPos, MultiChunk)>, i: int, n: int) -> bool {
    forall|j: int| i < j < n ==> (#[trigger] chunks[j]).0 != chunks[i].0
}

/// Whether every chunk of `before` is in `after`, as it was.
pub open spec fn kept(before: Map<u64, MultiChunk>, after: Map<u64, MultiChunk>) -> bool {
    forall|k: u64| #[trigger]
        before.contains_key(k) ==> after.contains_key(k) && after[k] == before[k]
}

/// A world stays well formed when its chunks stay and its players are well
/// formed.
pub proof fn lemma_wf_players(before: World, after: World)
    requires
        before.wf(),
        after.spec_chunks() == before.spec_chunks(),
        players_wf(after.spec_players()),
    ensures
        after.wf(),
{
    assert forall|k: u64| after.spec_chunks().contains_key(k) implies (
    #[trigger] after.spec_chunks()[k]).wf() by {
        assert(before.spec_chunks()[k].wf());
    }
}

/// A world: its blocks and its players.
pub struct World {
    pub(crate) chunks: HashMap<u64, MultiChunk>,
    pub(crate) gen: WorldGen,
    pub(crate) eid: i32,
    pub(crate) players: Vec<Player>,
    /// Milliseconds spent in ticks since the last report.
    pub(crate) mspt: u32,
    /// How many global ticks have passed.
    pub(crate) ticks: u64,
}

impl World {
    /// The chunks that are stored, by [`ChunkPos::spec_key`].
    pub open(crate) spec fn spec_chunks(self) -> Map<u64, MultiChunk> {
        self.chunks@
    }

    /// The terrain that chunks are generated from.
    pub open(crate) spec fn spec_gen(self) -> WorldGen {
        self.gen
    }

    /// The entity id that is handed out next.
    pub open(crate) spec fn spec_next_eid(self) -> i32 {
        self.eid
    }

    /// The players, in the order in which they joined.
    pub open(crate) spec fn spec_players(self) -> Seq<Player> {
        self.players@
    }

    /// Milliseconds spent in ticks since the last report.
    pub open(crate) spec fn spec_mspt(self) -> u32 {
        self.mspt
    }

    /// How many global ticks have passed.
    pub open(crate) spec fn spec_ticks(self) -> u64 {
        self.ticks
    }

    pub open spec fn wf(self) -> bool {
        &&& forall|k: u64|
            self.spec_chunks().contains_key(k) ==> (#[trigger] self.spec_chunks()[k]).wf()
        &&& players_wf(self.spec_players())
    }

    /// Whether the two worlds differ in their players at most, the stored
    /// chunks aside.
    pub open spec fn same_but_players(self, other: World) -> bool {
        &&& self.spec_gen() == other.spec_gen()
        &&& self.spec_next_eid() == other.spec_next_eid()
        &&& self.spec_mspt() == other.spec_mspt()
        &&& self.spec_ticks() == other.spec_ticks()
    }

    /// Whether the two worlds differ in their blocks at most.
    pub open spec fn same_but_blocks(self, other: World) -> bool {
        &&& self.spec_gen() == other.spec_gen()
        &&& self.spec_next_eid() == other.spec_next_eid()
        &&& self.spec_players() == other.spec_players()
        &&& self.spec_mspt() == other.spec_mspt()
        &&& self.spec_ticks() == other.spec_ticks()
    }

    /// Whether the chunk at `c` is stored.
    pub open spec fn loaded(self, c: ChunkPos) -> bool {
        self.spec_chunks().contains_key(c.spec_key())
    }

    /// The block at `p`: what the stored chunk holds there, or what the
    /// terrain has there where the chunk is not stored yet.
    pub open spec fn block_at(self, p: Pos) -> u32
        recommends
            p.in_height(),
    {
        if self.loaded(p.spec_chunk()) {
            self.spec_chunks()[p.spec_chunk().spec_key()].blocks.block_at(p.spec_chunk_rel())
        } else {
            self.spec_gen().spec_block(p.y as int)
        }
    }

    /// Whether this is the world with the terrain `gen` before anything has
    /// happened in it: no chunk is stored, nobody has joined, no tick has
    /// passed, and the first entity id is 1.
    pub open spec fn is_new(self, gen: WorldGen) -> bool {
        &&& self.spec_gen() == gen
        &&& self.spec_chunks() == Map::<u64, MultiChunk>::empty()
        &&& self.spec_next_eid() == 1
        &&& self.spec_players() == Seq::<Player>::empty()
        &&& self.spec_mspt() == 0
        &&& self.spec_ticks() == 0
    }

    /// A world without stored chunks. The first entity id is 1.
    pub fn new(gen: WorldGen) -> (w: World)
        ensures
            w.wf(),
            w.is_new(gen),
    {
        World { chunks: HashMap::new(), gen, eid: 1, players: Vec::new(), mspt: 0, ticks: 0 }
    }

    /// Hands out an entity id: each call returns the id after the one
    /// before, starting again from the smallest after the largest.
    pub fn eid(&mut self) -> (id: i32)
        ensures
            id == old(self).spec_next_eid(),
            final(self).spec_next_eid() == if id == i32::MAX {
                i32::MIN
            } else {
                (id + 1) as i32
            },
            final(self).spec_chunks() == old(self).spec_chunks(),
            final(self).spec_gen() == old(self).spec_gen(),
            final(self).spec_players() == old(self).spec_players(),
            final(self).spec_mspt() == old(self).spec_mspt(),
            final(self).spec_ticks() == old(self).spec_ticks(),
    {
        let id = self.eid;
        self.eid = if id == i32::MAX {
            i32::MIN
        } else {
            id + 1
        };
        id
    }

    /// The chunk at `pos` as the terrain has it. Stores nothing.
    pub fn pre_generate_chunk(&self, pos: ChunkPos) -> (c: MultiChunk)
        ensures
            c.wf(),
            !c.lit,
            forall|p: RelPos|
                p.wf() ==> #[trigger] c.blocks.block_at(p) == self.spec_gen().spec_block(p.y as int),
    {
        MultiChunk::new(self.gen.generate(pos))
    }

    /// Stores the given chunks in the order of the list, each in place of
    /// what was stored at its position: where two of them have one
    /// position, the later one stays.
    pub fn store_chunks(&mut self, chunks: Vec<(ChunkPos, MultiChunk)>)
        requires
            old(self).wf(),
            forall|i: int| 0 <= i < chunks@.len() ==> (#[trigger] chunks@[i]).1.wf(),
        ensures
            final(self).wf(),
            final(self).same_but_blocks(*old(self)),
            forall|i: int| 0 <= i < chunks@.len() ==> final(self).loaded((#[trigger] chunks@[i]).0),
            forall|i: int|
                0 <= i < chunks@.len() && #[trigger] last_at_pos(chunks@, i, chunks@.len() as int)
                    ==> final(self).spec_chunks()[chunks@[i].0.spec_key()] == chunks@[i].1,
            forall|c: ChunkPos|
                (forall|i: int| 0 <= i < chunks@.len() ==> (#[trigger] chunks@[i]).0 != c) ==> (
                final(self).loaded(c) == old(self).loaded(c) && final(self).spec_chunks()[c.spec_key()]
                    == old(self).spec_chunks()[c.spec_key()]),
    {
        let mut list = chunks;
        let ghost all = list@;
        let ghost n = list@.len();
        // The list is turned round, so that its first entry is taken first.
        let mut turned: Vec<(ChunkPos, MultiChunk)> = Vec::new();
        while list.len() > 0
            invariant
                n == all.len(),
                list@.len() + turned@.len() == n,
                list@ == all.subrange(0, list@.len() as int),
                forall|j: int| 0 <= j < turned@.len() ==> turned@[j] == all[n - 1 - j],
            decreases list@.len(),
        {
            let ghost rest = list@.len() - 1;
            let entry = list.pop().unwrap();
            assert(entry == all[rest]);
            turned.push(entry);
            assert(list@ =~= all.subrange(0, rest));
        }
        while turned.len() > 0
            invariant
                self.wf(),
                self.same_but_blocks(*old(self)),
                n == all.len(),
                turned@.len() <= n,
                forall|j: int| 0 <= j < turned@.len() ==> turned@[j] == all[n - 1 - j],
                forall|i: int| 0 <= i < all.len() ==> (#[trigger] all[i]).1.wf(),
                forall|i: int| 0 <= i < n - turned@.len() ==> self.loaded((#[trigger] all[i]).0),
                forall|i: int|
                    0 <= i < n - turned@.len() && #[trigger] last_at_pos(all, i, n - turned@.len())
                        ==> self.spec_chunks()[all[i].0.spec_key()] == all[i].1,
                forall|c: ChunkPos|
                    (forall|i: int| 0 <= i < n - turned@.len() ==> (#[trigger] all[i]).0 != c) ==> (
                    self.loaded(c) == old(self).loaded(c) && self.spec_chunks()[c.spec_key()] == old(self).spec_chunks()[c.spec_key()]),
            decreases turned@.len(),
        {
            let ghost before = *self;
            let ghost k = n - turned@.len();
            let entry = turned.pop().unwrap();
            let pos = entry.0;
            assert(entry == all[k]);
            assert(entry.1.wf());
            let _ = self.chunks.insert(pos.key(), entry.1);
            proof {
                assert(self.spec_chunks() == before.spec_chunks().insert(pos.spec_key(), entry.1));
                assert forall|q: u64| self.spec_chunks().contains_key(q) implies (
                #[trigger] self.spec_chunks()[q]).wf() by {
                    if q != pos.spec_key() {
                        assert(before.spec_chunks().contains_key(q));
                        assert(before.spec_chunks()[q].wf());
                    }
                }
                assert forall|i: int| 0 <= i < k + 1 && #[trigger] last_at_pos(
                    all,
                    i,
                    k + 1,
                ) implies self.spec_chunks()[all[i].0.spec_key()] == all[i].1 by {
                    if i < k {
                        assert(all[k].0 != all[i].0);
                        if all[i].0.spec_key() == pos.spec_key() {
                            ChunkPos::key_injective(all[i].0, pos);
                        }
                        assert(last_at_pos(all, i, k));
                    }
                }
                assert forall|c: ChunkPos|
                    (forall|i: int| 0 <= i < k + 1 ==> (#[trigger] all[i]).0 != c) implies (self.loaded(
                    c,
                ) == old(self).loaded(c) && self.spec_chunks()[c.spec_key()] == old(self).spec_chunks()[c.spec_key()]) by {
                    assert(all[k].0 != c);
                    if c.spec_key() == pos.spec_key() {
                        ChunkPos::key_injective(c, pos);
                    }
                    assert(forall|i: int| 0 <= i < k ==> (#[trigger] all[i]).0 != c);
                }
            }
        }
        assert(turned@.len() == 0);
    }

    /// Makes sure that the chunk at `c` is stored, generating it if it is
    /// not. No block changes.
    pub fn load(&mut self, c: ChunkPos)
        requires
            old(self).wf(),
        ensures
            final(self).wf(),
            final(self).loaded(c),
            final(self).same_but_blocks(*old(self)),
            old(self).loaded(c) ==> final(self).spec_chunks() == old(self).spec_chunks(),
            !old(self).loaded(c) ==> final(self).spec_chunks().dom() == old(self).spec_chunks().dom().insert(
                c.spec_key(),
            ),
            kept(old(self).spec_chunks(), final(self).spec_chunks()),
            forall|p: Pos| p.in_height() ==> #[trigger] final(self).block_at(p) == old(self).block_at(p),
    {
        let k = c.key();
        if !self.chunks.contains_key(&k) {
            let fresh = self.pre_generate_chunk(c);
            let ghost before = *self;
            let _ = self.chunks.insert(k, fresh);
            proof {
                assert(self.spec_chunks().dom() =~= before.spec_chunks().dom().insert(k));
                assert forall|p: Pos| p.in_height() implies #[trigger] self.block_at(p)
                    == before.block_at(p) by {
                    if p.spec_chunk().spec_key() == k {
                        ChunkPos::key_injective(p.spec_chunk(), c);
                        lemma_rel(p);
                    }
                }
            }
        }
    }

    /// The block at `pos`, or the error for a position above or below the
    /// world. Generates the chunk if it is not stored; no block changes.
    pub fn get_block(&mut self, pos: Pos) -> (r: Result<u32, PosError>)
        requires
            old(self).wf(),
        ensures
            final(self).wf(),
            final(self).same_but_blocks(*old(self)),
            forall|p: Pos| p.in_height() ==> #[trigger] final(self).block_at(p) == old(self).block_at(p),
            pos.in_height() ==> r == Ok::<u32, PosError>(old(self).block_at(pos)),
            !pos.in_height() ==> r == Err::<u32, PosError>(PosError { pos }) && final(self).spec_chunks() == old(self).spec_chunks(),
    {
        match pos.chunk_rel() {
            Err(e) => Err(e),
            Ok(rel) => {
                let c = pos.chunk();
                self.load(c);
                let k = c.key();
                assert(self.block_at(pos) == old(self).block_at(pos));
                let stored = self.chunks.get(&k).unwrap();
                Ok(stored.get_block(rel))
            },
        }
    }

    /// Sets the block at `pos` to `id` and returns the block that was
    /// there. A position above or below the world is refused and nothing
    /// changes. The light of the chunk is marked out of date.
    pub fn set_block(&mut self, pos: Pos, id: u32) -> (r: Result<u32, PosError>)
        requires
            old(self).wf(),
        ensures
            final(self).wf(),
            final(self).same_but_blocks(*old(self)),
            pos.in_height() ==> r == Ok::<u32, PosError>(old(self).block_at(pos)),
            pos.in_height() ==> forall|p: Pos|
                p.in_height() ==> #[trigger] final(self).block_at(p) == if p == pos {
                    id
                } else {
                    old(self).block_at(p)
                },
            pos.in_height() ==> final(self).loaded(pos.spec_chunk()) && !final(self).spec_chunks()[pos.spec_chunk().spec_key()].lit,
            !pos.in_height() ==> r == Err::<u32, PosError>(PosError { pos }) && final(self).spec_chunks() == old(self).spec_chunks(),
    {
        match pos.chunk_rel() {
            Err(e) => Err(e),
            Ok(rel) => {
                let c = pos.chunk();
                self.load(c);
                let k = c.key();
                let ghost loaded = *self;
                assert(loaded.block_at(pos) == old(self).block_at(pos));
                let mut stored = self.chunks.remove(&k).unwrap();
                let prev = stored.set_block(rel, id);
                let _ = self.chunks.insert(k, stored);
                proof {
                    lemma_split(rel);
                    assert forall|p: Pos| p.in_height() implies #[trigger] self.block_at(p) == if p
                        == pos {
                        id
                    } else {
                        old(self).block_at(p)
                    } by {
                        assert(loaded.block_at(p) == old(self).block_at(p));
                        lemma_rel(p);
                        lemma_rel(pos);
                        if p.spec_chunk().spec_key() == k {
                            ChunkPos::key_injective(p.spec_chunk(), c);
                            crate::chunk::lemma_index_injective(p.spec_chunk_rel(), rel);
                            lemma_split(p.spec_chunk_rel());
                        }
                    }
                }
                Ok(prev)
            },
        }
    }

    /// Fills the box from `min` to `max`, both inclusive, with the block
    /// `id`, chunk by chunk, and says which box of cells was written in
    /// each chunk: one entry per chunk that the box reaches, in the order
    /// of [`ChunkRect::spec_positions`]. A corner above or below the world is
    /// refused and nothing changes. Where `min` exceeds `max` on an axis the
    /// box is empty: nothing changes and no chunk is listed.
    pub fn fill(&mut self, min: Pos, max: Pos, id: u32) -> (r: Result<Vec<ChunkChange>, PosError>)
        requires
            old(self).wf(),
            spec_fill_rect(min, max).spec_count() <= 0x1000_0000,
        ensures
            final(self).wf(),
            final(self).same_but_blocks(*old(self)),
            r.is_err() <==> !(min.in_height() && max.in_height()),
            r.is_err() ==> final(self).spec_chunks() == old(self).spec_chunks() && r.unwrap_err().pos
                == if !min.in_height() {
                min
            } else {
                max
            },
            r.is_ok() ==> forall|p: Pos|
                p.in_height() ==> #[trigger] final(self).block_at(p) == if pos_in_box(min, max, p) {
                    id
                } else {
                    old(self).block_at(p)
                },
            r.is_ok() ==> r.unwrap()@ == spec_changes(min, max),
    {
        if min.y < 0 || min.y > 255 {
            return Err(PosError { pos: min });
        }
        if max.y < 0 || max.y > 255 {
            return Err(PosError { pos: max });
        }
        let mut out: Vec<ChunkChange> = Vec::new();
        if min.x > max.x || min.y > max.y || min.z > max.z {
            return Ok(out);
        }
        let cmin = min.chunk();
        let cmax = max.chunk();
        let rect = ChunkRect {
            min: cmin,
            max: ChunkPos { x: cmax.x + 1, z: cmax.z + 1 },
        };
        let cells = rect.positions();
        let ghost start = *self;
        proof {
            rect.positions_cover();
        }
        let mut k: usize = 0;
        while k < cells.len()
            invariant
                k <= cells@.len(),
                self.wf(),
                self.same_but_blocks(start),
                min.in_height(),
                max.in_height(),
                min.x <= max.x,
                min.y <= max.y,
                min.z <= max.z,
                rect == spec_fill_rect(min, max),
                cmin == min.spec_chunk(),
                cmax == max.spec_chunk(),
                cells@ == rect.spec_positions(),
                out@.len() == k,
                forall|j: int| 0 <= j < k ==> out@[j] == spec_change(min, max, cells@[j]),
                forall|p: Pos|
                    p.in_height() ==> #[trigger] self.block_at(p) == if pos_in_box(min, max, p)
                        && done(cells@, k as int, p.spec_chunk()) {
                        id
                    } else {
                        start.block_at(p)
                    },
            decreases cells@.len() - k,
        {
            let c = cells[k];
            proof {
                rect.positions_cover();
                assert(rect.contains(rect.spec_positions()[k as int]));
            }
            let lo = RelPos {
                x: if c.x == cmin.x {
                    min.chunk_rel_x()
                } else {
                    0
                },
                y: min.y as u8,
                z: if c.z == cmin.z {
                    min.chunk_rel_z()
                } else {
                    0
                },
            };
            let hi = RelPos {
                x: if c.x == cmax.x {
                    max.chunk_rel_x()
                } else {
                    15
                },
                y: max.y as u8,
                z: if c.z == cmax.z {
                    max.chunk_rel_z()
                } else {
                    15
                },
            };
            let ghost before = *self;
            self.load(c);
            let key = c.key();
            let ghost loaded = *self;
            let mut stored = self.chunks.remove(&key).unwrap();
            let ghost stored_before = stored;
            stored.fill(lo, hi, id);
            let _ = self.chunks.insert(key, stored);
            out.push(ChunkChange { chunk: c, min: lo, max: hi });
            proof {
                assert forall|p: Pos| p.in_height() implies #[trigger] self.block_at(p)
                    == if pos_in_box(min, max, p) && done(cells@, k + 1, p.spec_chunk()) {
                    id
                } else {
                    start.block_at(p)
                } by {
                    assert(loaded.block_at(p) == before.block_at(p));
                    lemma_rel(p);
                    lemma_change_box(min, max, p);
                    if p.spec_chunk() == c {
                        assert(cells@[k as int] == c);
                        assert(done(cells@, k + 1, c));
                        assert(!done(cells@, k as int, c)) by {
                            if done(cells@, k as int, c) {
                                let j = choose|j: int| 0 <= j < k && cells@[j] == c;
                                assert(rect.spec_positions()[j] != rect.spec_positions()[k as int]);
                            }
                        }
                        assert(stored.blocks.block_at(p.spec_chunk_rel()) == if in_box(
                            lo,
                            hi,
                            p.spec_chunk_rel(),
                        ) {
                            id
                        } else {
                            stored_before.blocks.block_at(p.spec_chunk_rel())
                        });
                    } else {
                        if p.spec_chunk().spec_key() == key {
                            ChunkPos::key_injective(p.spec_chunk(), c);
                        }
                        assert(done(cells@, k + 1, p.spec_chunk()) == done(
                            cells@,
                            k as int,
                            p.spec_chunk(),
                        )) by {
                            if done(cells@, k + 1, p.spec_chunk()) {
                                let j = choose|j: int| 0 <= j < k + 1 && cells@[j] == p.spec_chunk();
                                assert(j < k);
                            }
                            if done(cells@, k as int, p.spec_chunk()) {
                                let j = choose|j: int| 0 <= j < k && cells@[j] == p.spec_chunk();
                                assert(0 <= j < k + 1 && cells@[j] == p.spec_chunk());
                            }
                        }
                    }
                }
            }
            k += 1;
        }
        proof {
            assert forall|p: Pos| p.in_height() implies #[trigger] self.block_at(p) == if pos_in_box(
                min,
                max,
                p,
            ) {
                id
            } else {
                start.block_at(p)
            } by {
                lemma_change_box(min, max, p);
                if pos_in_box(min, max, p) {
                    let c = p.spec_chunk();
                    let j = (c.x - rect.min.x) * rect.spec_height() + (c.z - rect.min.z);
                    assert(cells@[j] == c);
                    assert(done(cells@, cells@.len() as int, c));
                }
            }
            assert(out@ =~= spec_changes(min, max));
        }
        Ok(out)
    }

    /// The stored chunk at `c`, if it is stored.
    pub fn get_chunk(&self, c: ChunkPos) -> (r: Option<&MultiChunk>)
        requires
            self.wf(),
        ensures
            r.is_some() == self.loaded(c),
            r.is_some() ==> *r.unwrap() == self.spec_chunks()[c.spec_key()] && r.unwrap().wf(),
    {
        let k = c.key();
        let r = self.chunks.get(&k);
        proof {
            if r.is_some() {
                assert(self.spec_chunks().contains_key(k));
                assert(self.spec_chunks()[k].wf());
            }
        }
        r
    }

    /// Computes the light of the chunk at `c` anew, generating the chunk if
    /// it is not stored. No block changes.
    pub fn relight(&mut self, c: ChunkPos, table: &BlockTable)
        requires
            old(self).wf(),
        ensures
            final(self).wf(),
            final(self).same_but_blocks(*old(self)),
            final(self).loaded(c),
            final(self).spec_chunks()[c.spec_key()].lit,
            final(self).spec_chunks()[c.spec_key()].lit_for(*table),
            forall|p: Pos| p.in_height() ==> #[trigger] final(self).block_at(p) == old(self).block_at(p),
    {
        self.load(c);
        let key = c.key();
        let ghost loaded = *self;
        let mut stored = self.chunks.remove(&key).unwrap();
        stored.relight(table);
        let _ = self.chunks.insert(key, stored);
        proof {
            assert forall|p: Pos| p.in_height() implies #[trigger] self.block_at(p) == old(self).block_at(p) by {
                assert(loaded.block_at(p) == old(self).block_at(p));
            }
        }
    }
}

/// Whether chunk `c` is among the first `k` of `cells`.
pub open spec fn done(cells: Seq<ChunkPos>, k: int, c: ChunkPos) -> bool {
    exists|j: int| 0 <= j < k && cells[j] == c
}

/// What a fill of the box from `min` to `max` reports: for each chunk of the
/// box's rectangle, in order, the part of the box that lies in it. Nothing
/// for an empty box.
pub open spec fn spec_changes(min: Pos, max: Pos) -> Seq<ChunkChange> {
    if min.x > max.x || min.y > max.y || min.z > max.z {
        Seq::<ChunkChange>::empty()
    } else {
        Seq::new(
            spec_fill_rect(min, max).spec_positions().len(),
            |j: int| spec_change(min, max, spec_fill_rect(min, max).spec_positions()[j]),
        )
    }
}

/// The cell of a position inside its chunk is a cell of the chunk.
pub proof fn lemma_rel(p: Pos)
    requires
        p.in_height(),
    ensures
        p.spec_chunk_rel().wf(),
        p.spec_chunk().in_world(),
{
}

} // verus!
