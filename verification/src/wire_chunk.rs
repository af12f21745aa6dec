//! The form in which a chunk travels to a client. The oldest version gets
//! every cell as a number of fixed width; the later ones get each section
//! with its palette and its packed cells. Block ids are translated to the
//! client's numbering on the way.

use vstd::prelude::*;
use crate::chunk::CHUNK_SECTIONS;
use crate::conv::TypeConverter;
use crate::light::LightChunk;
use crate::math::{ChunkPos, RelPos};
use crate::packet::CbPacket;
use crate::section::{Section, SECTION_CELLS};
use crate::varint::{spec_write_varint, write_varint};
use crate::version::BlockVersion;
use crate::world::MultiChunk;

verus! {

/// Bytes of biome data behind the sections of a whole chunk.
pub const BIOME_BYTES: usize = 256;

/// The two bytes of a cell for the oldest version: the low thirteen bits of
/// the block's id there, low byte first.
pub open spec fn spec_fixed_cell(old_id: u32) -> Seq<u8> {
    seq![((old_id % 0x2000) % 256) as u8, ((old_id % 0x2000) / 256) as u8]
}

/// The first `n` cells of a section for the oldest version.
pub open spec fn spec_fixed_cells(cells: Seq<u32>, conv: TypeConverter, n: int) -> Seq<u8>
    decreases n,
{
    if n <= 0 {
        Seq::empty()
    } else {
        spec_fixed_cells(cells, conv, n - 1) + spec_fixed_cell(
            conv.spec_block_to_old(cells[n - 1], BlockVersion::V1_8),
        )
    }
}

/// The first `n` bytes of the light of the section that starts at cell
/// `base`: two cells to a byte, the first in the low half.
pub open spec fn spec_light_bytes(light: Seq<u8>, base: int, n: int) -> Seq<u8>
    decreases n,
{
    if n <= 0 {
        Seq::empty()
    } else {
        spec_light_bytes(light, base, n - 1).push(
            (light[base + 2 * (n - 1)] + 16 * light[base + 2 * (n - 1) + 1]) as u8,
        )
    }
}

/// The eight bytes of a word, the highest first.
pub open spec fn spec_u64_be(w: u64) -> Seq<u8> {
    seq![
        ((w >> 56) & 0xff) as u8,
        ((w >> 48) & 0xff) as u8,
        ((w >> 40) & 0xff) as u8,
        ((w >> 32) & 0xff) as u8,
        ((w >> 24) & 0xff) as u8,
        ((w >> 16) & 0xff) as u8,
        ((w >> 8) & 0xff) as u8,
        (w & 0xff) as u8,
    ]
}

/// The first `n` words, each as eight bytes.
pub open spec fn spec_words_be(words: Seq<u64>, n: int) -> Seq<u8>
    decreases n,
{
    if n <= 0 {
        Seq::empty()
    } else {
        spec_words_be(words, n - 1) + spec_u64_be(words[n - 1])
    }
}

/// The first `n` entries of a palette, each translated to `ver` and written
/// as a varint.
pub open spec fn spec_palette_bytes(
    palette: Seq<u32>,
    conv: TypeConverter,
    ver: BlockVersion,
    n: int,
) -> Seq<u8>
    decreases n,
{
    if n <= 0 {
        Seq::empty()
    } else {
        spec_palette_bytes(palette, conv, ver, n - 1) + spec_write_varint(
            conv.spec_block_to_old(palette[n - 1], ver) as i32,
        )
    }
}

/// Whether sections carry their light with them: up to 1.13.
pub open spec fn spec_has_light(ver: BlockVersion) -> bool {
    ver.spec_index() < BlockVersion::V1_14.spec_index()
}

/// Whether sections start with the number of their cells that are not air:
/// from 1.14 on.
pub open spec fn spec_has_count(ver: BlockVersion) -> bool {
    !spec_has_light(ver)
}

/// The two bytes of a count, the high byte first.
pub open spec fn spec_u16_be(v: u16) -> Seq<u8> {
    seq![(v / 256) as u8, (v % 256) as u8]
}

/// A section with a palette for a version after the oldest: the count of
/// cells that are not air (from 1.14 on), the bits per cell, the length of
/// the palette and its entries, the number of words and the words.
pub open spec fn spec_paletted_section(sec: Section, conv: TypeConverter, ver: BlockVersion) -> Seq<
    u8,
> {
    (if spec_has_count(ver) {
        spec_u16_be(sec.spec_non_air() as u16)
    } else {
        Seq::<u8>::empty()
    }) + seq![sec.spec_bits() as u8] + spec_write_varint(sec.spec_palette().len() as i32)
        + spec_palette_bytes(sec.spec_palette(), conv, ver, sec.spec_palette().len() as int)
        + spec_write_varint(sec.spec_words().len() as i32) + spec_words_be(
        sec.spec_words(),
        sec.spec_words().len() as int,
    )
}

fn push_u64_be(buf: &mut Vec<u8>, w: u64)
    ensures
        final(buf)@ == old(buf)@ + spec_u64_be(w),
{
    buf.push(((w >> 56) & 0xff) as u8);
    buf.push(((w >> 48) & 0xff) as u8);
    buf.push(((w >> 40) & 0xff) as u8);
    buf.push(((w >> 32) & 0xff) as u8);
    buf.push(((w >> 24) & 0xff) as u8);
    buf.push(((w >> 16) & 0xff) as u8);
    buf.push(((w >> 8) & 0xff) as u8);
    buf.push((w & 0xff) as u8);
    assert(buf@ =~= old(buf)@ + spec_u64_be(w));
}

/// Appends every word of `words`, each as eight bytes.
fn push_words(buf: &mut Vec<u8>, words: &Vec<u64>)
    ensures
        final(buf)@ == old(buf)@ + spec_words_be(words@, words@.len() as int),
{
    let mut i: usize = 0;
    assert(old(buf)@ + Seq::<u8>::empty() =~= old(buf)@);
    while i < words.len()
        invariant
            i <= words@.len(),
            buf@ == old(buf)@ + spec_words_be(words@, i as int),
        decreases words@.len() - i,
    {
        push_u64_be(buf, words[i]);
        assert(buf@ =~= old(buf)@ + spec_words_be(words@, i + 1));
        i += 1;
    }
}

/// Appends the light of the section at height `s`.
fn push_light(buf: &mut Vec<u8>, light: &LightChunk, s: usize)
    requires
        light.wf(),
        s < CHUNK_SECTIONS,
    ensures
        final(buf)@ == old(buf)@ + spec_light_bytes(light@, s * 4096, 2048),
{
    let mut i: usize = 0;
    assert(old(buf)@ + Seq::<u8>::empty() =~= old(buf)@);
    proof {
        light.lemma_levels();
    }
    while i < 2048
        invariant
            i <= 2048,
            s < CHUNK_SECTIONS,
            light.wf(),
            light@.len() == 65536,
            forall|j: int| 0 <= j < 65536 ==> #[trigger] light@[j] <= 15,
            buf@ == old(buf)@ + spec_light_bytes(light@, s * 4096, i as int),
        decreases 2048 - i,
    {
        let at = s * 4096 + 2 * i;
        let lo = light.get_light(rel_at(at));
        let hi = light.get_light(rel_at(at + 1));
        assert(light@[at as int] <= 15);
        assert(light@[at + 1] <= 15);
        buf.push(lo + 16 * hi);
        assert(buf@ =~= old(buf)@ + spec_light_bytes(light@, s * 4096, i + 1));
        i += 1;
    }
}

/// The cell with index `i`.
fn rel_at(i: usize) -> (p: RelPos)
    requires
        i < 65536,
    ensures
        p.wf(),
        p.spec_index() == i,
{
    RelPos { x: (i % 16) as u8, y: (i / 256) as u8, z: ((i / 16) % 16) as u8 }
}

/// Appends a section for the oldest version: its cells, then its block
/// light, then its sky light.
fn push_fixed_section(
    buf: &mut Vec<u8>,
    sec: &Section,
    chunk: &MultiChunk,
    s: usize,
    conv: &TypeConverter,
)
    requires
        sec.wf(),
        chunk.wf(),
        conv.wf(),
        s < CHUNK_SECTIONS,
    ensures
        final(buf)@ == old(buf)@ + spec_fixed_section(*sec, *chunk, s as int, *conv),
{
    let mut i: usize = 0;
    assert(old(buf)@ + Seq::<u8>::empty() =~= old(buf)@);
    proof {
        sec.lemma_wf();
    }
    while i < SECTION_CELLS
        invariant
            i <= SECTION_CELLS,
            sec.wf(),
            conv.wf(),
            buf@ == old(buf)@ + spec_fixed_cells(sec@, *conv, i as int),
        decreases SECTION_CELLS - i,
    {
        let old_id = conv.block_to_old(sec.get_block(i), BlockVersion::V1_8) % 0x2000;
        buf.push((old_id % 256) as u8);
        buf.push((old_id / 256) as u8);
        assert(buf@ =~= old(buf)@ + spec_fixed_cells(sec@, *conv, i + 1));
        i += 1;
    }
    push_light(buf, &chunk.block_light.data, s);
    push_light(buf, &chunk.sky_light.data, s);
    assert(buf@ =~= old(buf)@ + spec_fixed_section(*sec, *chunk, s as int, *conv));
}

/// A section for the oldest version.
pub open spec fn spec_fixed_section(sec: Section, chunk: MultiChunk, s: int, conv: TypeConverter) -> Seq<
    u8,
> {
    spec_fixed_cells(sec@, conv, 4096) + spec_light_bytes(chunk.block_light.data@, s * 4096, 2048)
        + spec_light_bytes(chunk.sky_light.data@, s * 4096, 2048)
}

/// A section for a later version: the paletted section, and its light up to
/// 1.13.
pub open spec fn spec_later_section(
    sec: Section,
    chunk: MultiChunk,
    s: int,
    conv: TypeConverter,
    ver: BlockVersion,
) -> Seq<u8> {
    spec_paletted_section(sec, conv, ver) + if spec_has_light(ver) {
        spec_light_bytes(chunk.block_light.data@, s * 4096, 2048) + spec_light_bytes(
            chunk.sky_light.data@,
            s * 4096,
            2048,
        )
    } else {
        Seq::<u8>::empty()
    }
}

/// A section as version `ver` gets it.
pub open spec fn spec_section_bytes(
    sec: Section,
    chunk: MultiChunk,
    s: int,
    conv: TypeConverter,
    ver: BlockVersion,
) -> Seq<u8> {
    if ver == BlockVersion::V1_8 {
        spec_fixed_section(sec, chunk, s, conv)
    } else {
        spec_later_section(sec, chunk, s, conv, ver)
    }
}

/// The sections below height `s` that are stored, from the bottom up.
pub open spec fn spec_sections_bytes(
    chunk: MultiChunk,
    conv: TypeConverter,
    ver: BlockVersion,
    s: int,
) -> Seq<u8>
    decreases s,
{
    if s <= 0 {
        Seq::empty()
    } else {
        spec_sections_bytes(chunk, conv, ver, s - 1) + match chunk.blocks.spec_section(s - 1) {
            Some(sec) => spec_section_bytes(sec, chunk, s - 1, conv, ver),
            None => Seq::<u8>::empty(),
        }
    }
}

/// The data of a whole chunk: its stored sections, and 256 bytes of biomes,
/// all 0.
pub open spec fn spec_chunk_data(chunk: MultiChunk, conv: TypeConverter, ver: BlockVersion) -> Seq<
    u8,
> {
    spec_sections_bytes(chunk, conv, ver, 16) + Seq::new(BIOME_BYTES as nat, |i: int| 0u8)
}

/// Appends a section for a version after the oldest.
fn push_later_section(
    buf: &mut Vec<u8>,
    sec: &Section,
    chunk: &MultiChunk,
    s: usize,
    conv: &TypeConverter,
    ver: BlockVersion,
)
    requires
        sec.wf(),
        chunk.wf(),
        conv.wf(),
        s < CHUNK_SECTIONS,
        ver != BlockVersion::V1_8,
    ensures
        final(buf)@ == old(buf)@ + spec_later_section(*sec, *chunk, s as int, *conv, ver),
{
    let with_light = ver.to_index() < BlockVersion::V1_14.to_index();
    proof {
        sec.lemma_wf();
    }
    let ghost start = buf@;
    if !with_light {
        let n = sec.non_air();
        buf.push((n / 256) as u8);
        buf.push((n % 256) as u8);
        assert(buf@ =~= start + spec_u16_be(n));
    } else {
        assert(buf@ =~= start + Seq::<u8>::empty());
    }
    buf.push(sec.bits());
    let palette = sec.palette();
    write_varint(buf, palette.len() as i32);
    let ghost head = buf@;
    let mut i: usize = 0;
    assert(head + Seq::<u8>::empty() =~= head);
    while i < palette.len()
        invariant
            i <= palette@.len(),
            conv.wf(),
            buf@ == head + spec_palette_bytes(palette@, *conv, ver, i as int),
        decreases palette@.len() - i,
    {
        write_varint(buf, conv.block_to_old(palette[i], ver) as i32);
        assert(buf@ =~= head + spec_palette_bytes(palette@, *conv, ver, i + 1));
        i += 1;
    }
    let words = sec.words();
    write_varint(buf, words.len() as i32);
    push_words(buf, words);
    let ghost body = buf@;
    assert(body =~= start + spec_paletted_section(*sec, *conv, ver));
    if with_light {
        push_light(buf, &chunk.block_light.data, s);
        push_light(buf, &chunk.sky_light.data, s);
    }
    assert(buf@ =~= start + spec_later_section(*sec, *chunk, s as int, *conv, ver));
}

/// Whether `p` is the packet that sends `chunk`, whole, as the chunk at
/// `pos` to a client whose blocks are numbered as in `ver`: the presence
/// bitmap says which sections follow; the data holds them from the bottom
/// up, and the biomes.
pub open spec fn is_chunk_packet(
    p: CbPacket,
    pos: ChunkPos,
    chunk: MultiChunk,
    ver: BlockVersion,
    conv: TypeConverter,
) -> bool {
    p matches CbPacket::MapChunk { x, z, ground_up, bit_map_v1_8, bit_map_v1_9, chunk_data }
            && {
            &&& x == pos.x
            &&& z == pos.z
            &&& ground_up
            &&& chunk_data@ == spec_chunk_data(chunk, conv, ver)
            &&& (ver == BlockVersion::V1_8 ==> bit_map_v1_9.is_none() && bit_map_v1_8.is_some()
                && forall|s: int|
                0 <= s < CHUNK_SECTIONS ==> (crate::chunk::spec_bit(bit_map_v1_8.unwrap(), s)
                    <==> chunk.blocks.present(s)))
            &&& (ver != BlockVersion::V1_8 ==> bit_map_v1_8.is_none() && bit_map_v1_9.is_some()
                && 0 <= bit_map_v1_9.unwrap() <= 0xffff && forall|s: int|
                0 <= s < CHUNK_SECTIONS ==> (crate::chunk::spec_bit(
                    bit_map_v1_9.unwrap() as u16,
                    s,
                ) <==> chunk.blocks.present(s)))
        }
}

/// The packet that sends the chunk at `pos`, whole, to a client whose
/// blocks are numbered as in `ver`: the presence bitmap says which sections
/// follow; the data holds them from the bottom up, and the biomes.
pub fn serialize_chunk(pos: ChunkPos, chunk: &MultiChunk, ver: BlockVersion, conv: &TypeConverter) -> (p:
    CbPacket)
    requires
        chunk.wf(),
        conv.wf(),
    ensures
        is_chunk_packet(p, pos, *chunk, ver, *conv),
{
    let oldest = ver.to_index() == BlockVersion::V1_8.to_index();
    let mut data: Vec<u8> = Vec::new();
    let mut s: usize = 0;
    while s < CHUNK_SECTIONS
        invariant
            s <= CHUNK_SECTIONS,
            chunk.wf(),
            conv.wf(),
            oldest == (ver == BlockVersion::V1_8),
            data@ == spec_sections_bytes(*chunk, *conv, ver, s as int),
        decreases CHUNK_SECTIONS - s,
    {
        let ghost before = data@;
        match chunk.blocks.section(s) {
            Some(sec) => {
                if oldest {
                    push_fixed_section(&mut data, sec, chunk, s, conv);
                } else {
                    push_later_section(&mut data, sec, chunk, s, conv, ver);
                }
            },
            None => {
                assert(before + Seq::<u8>::empty() =~= before);
            },
        }
        s += 1;
    }
    let ghost sections = data@;
    let mut i: usize = 0;
    while i < BIOME_BYTES
        invariant
            i <= BIOME_BYTES,
            data@ == sections + Seq::new(i as nat, |j: int| 0u8),
        decreases BIOME_BYTES - i,
    {
        data.push(0u8);
        assert(data@ =~= sections + Seq::new((i + 1) as nat, |j: int| 0u8));
        i += 1;
    }
    let bits = chunk.blocks.bit_map();
    CbPacket::MapChunk {
        x: pos.x,
        z: pos.z,
        ground_up: true,
        bit_map_v1_8: if oldest {
            Some(bits)
        } else {
            None
        },
        bit_map_v1_9: if oldest {
            None
        } else {
            Some(bits as i32)
        },
        chunk_data: data,
    }
}

} // verus!
