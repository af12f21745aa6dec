use sugarcane::chunk::Chunk;
use sugarcane::conv::{BlockIds, EntityIds, ItemIds, TypeConverter};
use sugarcane::math::{ChunkPos, FPos, Pos, PosError, RelPos};
use sugarcane::packed::PackedArray;
use sugarcane::section::{bits_for, Section};
use sugarcane::session::ChunkRect;
use sugarcane::version::BlockVersion;
use sugarcane::world::{ChunkChange, World, WorldGen};

#[test]
fn packed_array_keeps_every_entry() {
    for bits in [1u8, 4, 5, 7, 8, 13, 32] {
        let max = if bits == 32 { u32::MAX as u64 } else { (1u64 << bits) - 1 };
        let mut a = PackedArray::new(bits, 100);
        assert_eq!(a.max_value(), max);
        for i in 0..100usize {
            assert_eq!(a.get(i), 0);
        }
        for i in 0..100usize {
            a.set(i, (i as u64 * 2654435761) % (max + 1));
        }
        for i in 0..100usize {
            assert_eq!(a.get(i), (i as u64 * 2654435761) % (max + 1), "bits {} entry {}", bits, i);
        }
        a.set(50, max);
        assert_eq!(a.get(49), (49u64 * 2654435761) % (max + 1));
        assert_eq!(a.get(50), max);
        assert_eq!(a.get(51), (51u64 * 2654435761) % (max + 1));
    }
}

#[test]
fn packed_array_layout() {
    // five bits: twelve entries to a word, the first in the lowest bits
    let mut a = PackedArray::new(5, 13);
    a.set(0, 1);
    a.set(1, 31);
    a.set(12, 7);
    assert_eq!(a.words(), &vec![1 | (31 << 5), 7]);
    let w = a.widened(8);
    assert_eq!(w.bits(), 8);
    assert_eq!(w.len(), 13);
    assert_eq!(w.get(1), 31);
    assert_eq!(w.words(), &vec![1 | (31 << 8), 7 << 32]);
}

#[test]
fn bits_follow_the_palette() {
    assert_eq!(bits_for(0), 4);
    assert_eq!(bits_for(1), 4);
    assert_eq!(bits_for(16), 4);
    assert_eq!(bits_for(17), 5);
    assert_eq!(bits_for(32), 5);
    assert_eq!(bits_for(33), 6);
    assert_eq!(bits_for(64), 6);
    assert_eq!(bits_for(128), 7);
    assert_eq!(bits_for(129), 8);
    assert_eq!(bits_for(256), 8);
    assert_eq!(bits_for(257), 32);
}

#[test]
fn section_palette_grows_and_compacts() {
    let mut s = Section::new();
    assert_eq!(s.palette(), &vec![0]);
    assert_eq!(s.bits(), 4);
    assert_eq!(s.non_air(), 0);
    for i in 0..20usize {
        assert_eq!(s.set_block(i, 100 + i as u32), 0);
    }
    assert_eq!(s.palette().len(), 21);
    assert_eq!(s.bits(), 5);
    assert_eq!(s.non_air(), 20);
    for i in 0..20usize {
        assert_eq!(s.get_block(i), 100 + i as u32);
        assert_eq!(s.cell(i), i as u64 + 1);
    }
    assert_eq!(s.get_block(20), 0);
    // overwrite most of them: the palette keeps what is no longer used
    for i in 0..18usize {
        assert_eq!(s.set_block(i, 0), 100 + i as u32);
    }
    assert_eq!(s.palette().len(), 21);
    assert_eq!(s.non_air(), 2);
    s.compact();
    assert_eq!(s.palette(), &vec![0, 118, 119]);
    assert_eq!(s.bits(), 4);
    assert_eq!(s.get_block(18), 118);
    assert_eq!(s.get_block(19), 119);
    assert_eq!(s.get_block(0), 0);
    assert_eq!(s.cell(19), 2);
    assert_eq!(s.non_air(), 2);
}

#[test]
fn section_goes_direct_above_256_blocks() {
    let mut s = Section::new();
    for i in 0..255usize {
        s.set_block(i, 1000 + i as u32);
    }
    assert_eq!(s.bits(), 8);
    assert_eq!(s.palette().len(), 256);
    s.set_block(255, 5000);
    assert_eq!(s.bits(), 32);
    assert_eq!(s.palette().len(), 0);
    for i in 0..255usize {
        assert_eq!(s.get_block(i), 1000 + i as u32);
    }
    assert_eq!(s.get_block(255), 5000);
    assert_eq!(s.get_block(256), 0);
    assert_eq!(s.set_block(3, u32::MAX), 1003);
    assert_eq!(s.get_block(3), u32::MAX);
    assert_eq!(s.non_air(), 256);
    s.compact();
    assert_eq!(s.bits(), 32);
    assert_eq!(s.get_block(255), 5000);
}

fn rel(x: i32, y: i32, z: i32) -> RelPos {
    RelPos::new(x, y, z).unwrap()
}

#[test]
fn chunk_reads_what_was_written_last() {
    let mut c = Chunk::new();
    assert_eq!(c.bit_map(), 0);
    assert_eq!(c.set_block(rel(1, 2, 3), 7), 0);
    assert_eq!(c.set_block(rel(1, 200, 3), 8), 0);
    assert_eq!(c.set_block(rel(1, 2, 3), 9), 7);
    assert_eq!(c.get_block(rel(1, 2, 3)), 9);
    assert_eq!(c.get_block(rel(1, 200, 3)), 8);
    assert_eq!(c.get_block(rel(3, 2, 1)), 0);
    assert_eq!(c.bit_map(), 1 | (1 << 12));
    assert!(c.has_section(0));
    assert!(!c.has_section(1));
    assert!(c.has_section(12));
    // a section that holds nothing but air is dropped
    assert_eq!(c.set_block(rel(1, 200, 3), 0), 8);
    assert_eq!(c.bit_map(), 1);
    assert!(c.section(12).is_none());
    assert_eq!(c.get_block(rel(1, 200, 3)), 0);
    // writing air into nothing stores nothing
    assert_eq!(c.set_block(rel(0, 255, 0), 0), 0);
    assert_eq!(c.bit_map(), 1);
}

#[test]
fn chunk_fill_covers_the_box_and_nothing_else() {
    let mut c = Chunk::new();
    c.set_block(rel(0, 0, 0), 1);
    c.fill(rel(2, 14, 3), rel(4, 18, 5), 6);
    for x in 0..16 {
        for z in 0..16 {
            for y in 0..32 {
                let inside = (2..=4).contains(&x) && (14..=18).contains(&y) && (3..=5).contains(&z);
                let expected = if inside {
                    6
                } else if (x, y, z) == (0, 0, 0) {
                    1
                } else {
                    0
                };
                assert_eq!(c.get_block(rel(x, y, z)), expected, "{} {} {}", x, y, z);
            }
        }
    }
    assert_eq!(c.bit_map(), 0b11);
    // an empty box changes nothing
    c.fill(rel(5, 0, 0), rel(4, 255, 15), 9);
    assert_eq!(c.get_block(rel(4, 0, 0)), 0);
    // filling with air drops the sections
    c.fill(rel(0, 0, 0), rel(15, 255, 15), 0);
    assert_eq!(c.bit_map(), 0);
}

#[test]
fn positions_and_their_chunks() {
    assert_eq!(Pos::new(0, 0, 0).chunk(), ChunkPos::new(0, 0));
    assert_eq!(Pos::new(15, 0, 16).chunk(), ChunkPos::new(0, 1));
    assert_eq!(Pos::new(-1, 0, -16).chunk(), ChunkPos::new(-1, -1));
    assert_eq!(Pos::new(-17, 0, -1).chunk(), ChunkPos::new(-2, -1));
    assert_eq!(Pos::new(i32::MAX, 0, i32::MIN).chunk(), ChunkPos::new(134217727, -134217728));
    assert_eq!(Pos::new(-1, 64, 17).chunk_rel(), Ok(rel(15, 64, 1)));
    assert_eq!(Pos::new(-16, 255, 0).chunk_rel(), Ok(rel(0, 255, 0)));
    let high = Pos::new(1, 256, 1);
    assert_eq!(high.chunk_rel(), Err(PosError { pos: high }));
    let low = Pos::new(1, -1, 1);
    assert_eq!(low.chunk_rel(), Err(PosError { pos: low }));
    assert_eq!(Pos::from_rel(ChunkPos::new(-2, 3), rel(1, 9, 15)), Pos::new(-31, 9, 63));
    assert_eq!(rel(3, 64, 4).index(), 64 * 256 + 4 * 16 + 3);
    assert_eq!(RelPos::new(16, 0, 0), None);
    assert_eq!(RelPos::new(0, 256, 0), None);
    assert_eq!(RelPos::new(0, 0, -1), None);
    assert_ne!(ChunkPos::new(1, 2).key(), ChunkPos::new(2, 1).key());
    assert_eq!(ChunkPos::new(0, 0).key(), 0x8000_0000_8000_0000);
    assert_eq!(ChunkPos::new(-1, 1).key(), 0x7fff_ffff_8000_0001);
}

#[test]
fn fixed_point_positions() {
    let p = FPos::new(1024, 60 * 4096, -1).unwrap();
    assert_eq!(p.block(), Pos::new(0, 60, -1));
    assert_eq!(p.chunk(), ChunkPos::new(0, -1));
    assert_eq!(p.fixed_x(), 8);
    assert_eq!(p.fixed_y(), 60 * 32);
    assert_eq!(p.fixed_z(), -1);
    assert_eq!((p.x(), p.y(), p.z()), (1024, 245760, -1));
    assert_eq!(FPos::default(), FPos::new(0, 0, 0).unwrap());
    assert_eq!(FPos::new(1 << 38, 0, 0), None);
    assert_eq!(FPos::new(0, -(1 << 38) - 1, 0), None);
    assert!(FPos::new((1 << 38) - 1, -(1 << 38), 0).is_some());
    assert_eq!(FPos::from_block(Pos::new(-3, 4, 5)), FPos::new(-3 * 4096, 4 * 4096, 5 * 4096).unwrap());
    let q = FPos::new(4096, 4096, 4096).unwrap();
    assert_eq!(p.checked_add(q), FPos::new(5120, 61 * 4096, 4095));
    assert_eq!(p.checked_sub(q), FPos::new(-3072, 59 * 4096, -4097));
    let far = FPos::new((1 << 38) - 1, 0, 0).unwrap();
    assert_eq!(far.checked_add(q), None);
    let e = p.err("too far".into());
    assert_eq!(e.pos, p);
    assert_eq!(e.msg, "too far");
}

#[test]
fn world_generates_on_first_access() {
    let mut w = World::new(WorldGen::new(vec![7, 1, 1, 2]));
    assert!(w.get_chunk(ChunkPos::new(5, 5)).is_none());
    assert_eq!(w.get_block(Pos::new(80, 0, 80)), Ok(7));
    assert_eq!(w.get_block(Pos::new(80, 3, 95)), Ok(2));
    assert_eq!(w.get_block(Pos::new(80, 4, 80)), Ok(0));
    assert!(w.get_chunk(ChunkPos::new(5, 5)).is_some());
    assert!(w.get_chunk(ChunkPos::new(5, 6)).is_none());
    let out = Pos::new(0, 300, 0);
    assert_eq!(w.get_block(out), Err(PosError { pos: out }));
    assert_eq!(w.set_block(out, 1), Err(PosError { pos: out }));
}

#[test]
fn world_set_block_returns_what_was_there() {
    let mut w = World::new(WorldGen::new(vec![7]));
    let p = Pos::new(-5, 0, 33);
    assert_eq!(w.set_block(p, 9), Ok(7));
    assert_eq!(w.set_block(p, 10), Ok(9));
    assert_eq!(w.get_block(p), Ok(10));
    assert_eq!(w.get_block(Pos::new(-5, 0, 34)), Ok(7));
    assert_eq!(w.get_block(Pos::new(-6, 0, 33)), Ok(7));
}

#[test]
fn world_fill_reports_the_box_of_each_chunk() {
    let mut w = World::new(WorldGen::new(vec![]));
    let changes = w.fill(Pos::new(-2, 10, 14), Pos::new(17, 12, 18), 4).unwrap();
    let rp = |x, y, z| RelPos::new(x, y, z).unwrap();
    assert_eq!(
        changes,
        vec![
            ChunkChange { chunk: ChunkPos::new(-1, 0), min: rp(14, 10, 14), max: rp(15, 12, 15) },
            ChunkChange { chunk: ChunkPos::new(-1, 1), min: rp(14, 10, 0), max: rp(15, 12, 2) },
            ChunkChange { chunk: ChunkPos::new(0, 0), min: rp(0, 10, 14), max: rp(15, 12, 15) },
            ChunkChange { chunk: ChunkPos::new(0, 1), min: rp(0, 10, 0), max: rp(15, 12, 2) },
            ChunkChange { chunk: ChunkPos::new(1, 0), min: rp(0, 10, 14), max: rp(1, 12, 15) },
            ChunkChange { chunk: ChunkPos::new(1, 1), min: rp(0, 10, 0), max: rp(1, 12, 2) },
        ]
    );
    for x in -4..20 {
        for z in 12..21 {
            for y in 9..14 {
                let inside = (-2..=17).contains(&x) && (10..=12).contains(&y) && (14..=18).contains(&z);
                assert_eq!(w.get_block(Pos::new(x, y, z)), Ok(if inside { 4 } else { 0 }));
            }
        }
    }
}

#[test]
fn world_fill_refuses_and_ignores() {
    let mut w = World::new(WorldGen::new(vec![1]));
    let high = Pos::new(0, 256, 0);
    assert_eq!(w.fill(Pos::new(0, 0, 0), high, 5), Err(PosError { pos: high }));
    let low = Pos::new(0, -1, 0);
    assert_eq!(w.fill(low, high, 5), Err(PosError { pos: low }));
    assert_eq!(w.get_block(Pos::new(0, 0, 0)), Ok(1));
    // min beyond max: an empty box
    assert_eq!(w.fill(Pos::new(3, 0, 0), Pos::new(2, 5, 5), 5), Ok(vec![]));
    assert_eq!(w.get_block(Pos::new(2, 0, 0)), Ok(1));
    // a single block
    assert_eq!(
        w.fill(Pos::new(3, 3, 3), Pos::new(3, 3, 3), 5),
        Ok(vec![ChunkChange {
            chunk: ChunkPos::new(0, 0),
            min: RelPos::new(3, 3, 3).unwrap(),
            max: RelPos::new(3, 3, 3).unwrap(),
        }])
    );
    assert_eq!(w.get_block(Pos::new(3, 3, 3)), Ok(5));
}

#[test]
fn world_stores_given_chunks() {
    let mut w = World::new(WorldGen::new(vec![1]));
    let mut c = w.pre_generate_chunk(ChunkPos::new(0, 0));
    c.set_block(RelPos::new(0, 0, 0).unwrap(), 42);
    assert!(w.get_chunk(ChunkPos::new(0, 0)).is_none());
    w.store_chunks(vec![(ChunkPos::new(0, 0), c)]);
    assert_eq!(w.get_block(Pos::new(0, 0, 0)), Ok(42));
    assert_eq!(w.get_block(Pos::new(1, 0, 0)), Ok(1));
}

#[test]
fn entity_ids_count_up() {
    let mut w = World::new(WorldGen::new(vec![]));
    assert_eq!(w.eid(), 1);
    assert_eq!(w.eid(), 2);
    assert_eq!(w.eid(), 3);
}

#[test]
fn rectangles_list_columns_first() {
    let r = ChunkRect::new(ChunkPos::new(-1, 5), ChunkPos::new(1, 8));
    assert_eq!(
        r.positions(),
        vec![
            ChunkPos::new(-1, 5),
            ChunkPos::new(-1, 6),
            ChunkPos::new(-1, 7),
            ChunkPos::new(0, 5),
            ChunkPos::new(0, 6),
            ChunkPos::new(0, 7),
        ]
    );
    assert!(ChunkRect::empty().positions().is_empty());
    assert_eq!(ChunkRect::empty(), ChunkRect::new(ChunkPos::new(0, 0), ChunkPos::new(0, 0)));
    assert!(ChunkRect::new(ChunkPos::new(3, 0), ChunkPos::new(3, 9)).positions().is_empty());
}

fn converter() -> TypeConverter {
    let all = [
        BlockVersion::V1_8,
        BlockVersion::V1_9,
        BlockVersion::V1_10,
        BlockVersion::V1_11,
        BlockVersion::V1_12,
        BlockVersion::V1_13,
        BlockVersion::V1_14,
        BlockVersion::V1_15,
        BlockVersion::V1_16,
    ];
    let blocks = all
        .iter()
        .map(|&ver| BlockIds { to_old: vec![0, 16, 17, 0, 99], to_new: {
            let mut t = vec![0; 18];
            t[16] = 1;
            t[17] = 2;
            t
        }, ver })
        .collect();
    let items = all
        .iter()
        .map(|&ver| ItemIds {
            to_old: vec![(0, 0), (5, 0), (5, 1)],
            to_new: vec![vec![], vec![], vec![], vec![], vec![], vec![1, 2]],
            ver,
        })
        .collect();
    let entities = all
        .iter()
        .map(|&ver| EntityIds { to_old: vec![0, 50], to_new: {
            let mut t = vec![0; 51];
            t[50] = 1;
            t
        }, ver })
        .collect();
    TypeConverter::new(blocks, items, entities).unwrap()
}

#[test]
fn converter_needs_every_version() {
    assert!(TypeConverter::new(vec![], vec![], vec![]).is_none());
}

#[test]
fn converter_translates_both_ways() {
    let c = converter();
    let v = BlockVersion::V1_8;
    assert_eq!(c.block_to_old(1, v), 16);
    assert_eq!(c.block_to_new(16, v), 1);
    assert_eq!(c.block_to_new(c.block_to_old(2, v), v), 2);
    assert!(c.has_block(1, v));
    assert!(c.has_block(2, v));
    // block 3 does not exist in the version, block 4 does not come back
    assert_eq!(c.block_to_old(3, v), 0);
    assert!(!c.has_block(3, v));
    assert!(!c.has_block(4, v));
    // what the tables do not know is air
    assert_eq!(c.block_to_old(1000, v), 0);
    assert_eq!(c.block_to_new(1000, v), 0);
    // air is air
    assert_eq!(c.block_to_old(0, v), 0);
    assert_eq!(c.block_to_new(0, v), 0);
    assert!(c.has_block(0, v));
    // the newest version keeps its ids
    assert_eq!(c.block_to_old(1000, BlockVersion::latest()), 1000);
    assert_eq!(c.block_to_new(1000, BlockVersion::latest()), 1000);
    assert!(c.has_block(1000, BlockVersion::latest()));
    assert_eq!(c.item_to_old(2, v), (5, 1));
    assert_eq!(c.item_to_new(5, 1, v), 2);
    assert_eq!(c.item_to_new(5, 2, v), 0);
    assert_eq!(c.item_to_new(6, 0, v), 0);
    assert_eq!(c.item_to_old(9, v), (0, 0));
    assert_eq!(c.item_to_old(0, v), (0, 0));
    assert_eq!(c.item_to_new(0, 7, v), 0);
    assert_eq!(c.item_to_old(9, BlockVersion::latest()), (9, 0));
    assert_eq!(c.item_to_new(9, 3, BlockVersion::latest()), 9);
    assert_eq!(c.entity_to_old(1, v), 50);
    assert_eq!(c.entity_to_new(50, v), 1);
    assert_eq!(c.entity_to_new(51, v), 0);
    assert_eq!(c.entity_to_old(0, v), 0);
    assert_eq!(c.entity_to_old(7, BlockVersion::latest()), 7);
    assert_eq!(c.entity_to_new(7, BlockVersion::latest()), 7);
}
