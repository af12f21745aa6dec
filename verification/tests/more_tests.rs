use sugarcane::chat::Chat;
use sugarcane::fields::{read_body, Atom, Kind};
use sugarcane::protocol::IntType;
use sugarcane::stream::{Packet, StreamError};
use sugarcane::translate::read_sb;
use sugarcane::chunk::Chunk;
use sugarcane::conv::{BlockIds, EntityIds, ItemIds, TypeConverter};
use sugarcane::light::{BlockInfo, BlockLightChunk, BlockTable, SkyLightChunk};
use sugarcane::manager::WorldManager;
use sugarcane::math::{ChunkPos, Pos, RelPos};
use sugarcane::packet::{CbPacket, UUID};
use sugarcane::plugin::player_username;
use sugarcane::section::Section;
use sugarcane::version::{BlockVersion, ProtocolVersion};
use sugarcane::world::{MultiChunk, World, WorldGen};

fn at(x: i32, y: i32, z: i32) -> RelPos {
    RelPos::new(x, y, z).unwrap()
}

fn converter() -> TypeConverter {
    let all = [
        BlockVersion::V1_8,
        BlockVersion::V1_9,
        BlockVersion::V1_10,
        BlockVersion::V1_11,
        BlockVersion::V1_12,
        BlockVersion::V1_13,
        BlockVersion::V1_14,
        BlockVersion::V1_15,
        BlockVersion::V1_16,
    ];
    let blocks = all.iter().map(|&ver| BlockIds { to_old: vec![0, 16], to_new: vec![0; 17], ver }).collect();
    let items =
        all.iter().map(|&ver| ItemIds { to_old: vec![(0, 0)], to_new: vec![vec![0]], ver }).collect();
    let entities = all.iter().map(|&ver| EntityIds { to_old: vec![0], to_new: vec![0], ver }).collect();
    TypeConverter::new(blocks, items, entities).unwrap()
}

#[test]
fn stored_chunks_come_in_the_order_of_the_list() {
    let mut w = World::new(WorldGen::new(vec![]));
    let here = ChunkPos::new(2, -3);
    let mut first = MultiChunk::new(Chunk::new());
    first.set_block(at(0, 0, 0), 1);
    let mut second = MultiChunk::new(Chunk::new());
    second.set_block(at(0, 0, 0), 2);
    let mut other = MultiChunk::new(Chunk::new());
    other.set_block(at(0, 0, 0), 3);
    w.store_chunks(vec![(here, first), (ChunkPos::new(0, 0), other), (here, second)]);
    // the later of two chunks for one position stays
    assert_eq!(w.get_block(Pos::new(32, 0, -48)), Ok(2));
    assert_eq!(w.get_block(Pos::new(0, 0, 0)), Ok(3));
    assert!(w.get_chunk(ChunkPos::new(1, 1)).is_none());
    w.store_chunks(vec![]);
    assert_eq!(w.get_block(Pos::new(32, 0, -48)), Ok(2));
}

#[test]
fn login_is_pinned_in_every_field() {
    let mut m = WorldManager::new(converter());
    m.add_world(WorldGen::new(vec![]));
    assert_eq!(m.default_world().player_count(), 0);
    assert_eq!(m.default_world().get_chunk(ChunkPos::new(0, 0)).map(|_| ()), None);
    let joined = m.new_player("Alice".into(), UUID(9), ProtocolVersion::V1_14, 4).unwrap();
    assert_eq!(
        joined.packets[0],
        CbPacket::Login {
            entity_id: 1,
            game_mode: 1,
            difficulty: 1,
            dimension: 0,
            level_type: "default".into(),
            max_players: 0,
            reduced_debug_info: false,
        }
    );
    let p = m.default_world().player(0);
    assert_eq!(p.pos.prev, p.pos.curr);
    assert_eq!(p.pos.next, p.pos.curr);
    assert_eq!(p.look(), (0, 0));
    assert_eq!(p.inv.selected_index(), 0);
    for slot in 0..46 {
        assert_eq!((p.inv.get(slot).item, p.inv.get(slot).amount), (0, 0));
    }
    let again = m.new_player("Alice".into(), UUID(9), ProtocolVersion::V1_14, 5).unwrap();
    assert_eq!(again.kicked.len(), 1);
    assert_eq!(again.kicked[0].conn, 4);
    let mut msg = Chat::empty();
    msg.add("Another player with the same id is already connected!".into(), None);
    assert_eq!(again.kicked[0].packet, CbPacket::KickDisconnect { reason: msg.to_json() });
}

#[test]
fn broadcast_goes_world_after_world() {
    let mut m = WorldManager::new(converter());
    m.add_world(WorldGen::new(vec![]));
    m.add_world(WorldGen::new(vec![]));
    m.new_player("a".into(), UUID(1), ProtocolVersion::V1_8, 10).unwrap();
    m.new_player("b".into(), UUID(2), ProtocolVersion::V1_8, 11).unwrap();
    // a player of the second world
    let mut second = m.take_world(1);
    let eid = second.eid();
    let spawn = sugarcane::math::FPos::new(0, 0, 0).unwrap();
    second.new_player(sugarcane::player::Player::new(
        eid,
        "c".into(),
        UUID(3),
        12,
        ProtocolVersion::V1_16_5,
        spawn,
    ));
    m.put_world(1, second);
    let out = m.broadcast(&Chat::new("hi".into()));
    let conns: Vec<u64> = out.iter().map(|d| d.conn).collect();
    assert_eq!(conns, vec![10, 11, 12]);
    for d in &out {
        assert_eq!(
            d.packet,
            CbPacket::Chat {
                message: "{\"text\":\"\",\"extra\":[{\"text\":\"hi\"}]}".into(),
                position: 0,
                sender_v1_16: Some(UUID(0)),
            }
        );
    }
    assert_eq!(m.get_player(UUID(3)).unwrap().username(), "c");
    assert_eq!(m.get_player(UUID(1)).unwrap().conn(), 10);
    assert!(m.get_player(UUID(4)).is_none());
}

#[test]
fn a_plugin_reads_a_name() {
    let mut m = WorldManager::new(converter());
    m.add_world(WorldGen::new(vec![]));
    m.new_player("Zoë".into(), UUID((7u128 << 96) | 5), ProtocolVersion::V1_8, 1).unwrap();
    let id = [5, 0, 0, 7];
    let mut mem = vec![0xaau8; 12];
    // "Zoë" is four bytes long
    assert_eq!(player_username(&m, id, &mut mem, 3, 4), 0);
    assert_eq!(mem, vec![0xaa, 0xaa, 0xaa, b'Z', b'o', 0xc3, 0xab, 0xaa, 0xaa, 0xaa, 0xaa, 0xaa]);
    let before = mem.clone();
    // the buffer is too short
    assert_eq!(player_username(&m, id, &mut mem, 0, 3), 1);
    // the name would reach past the end of the memory
    assert_eq!(player_username(&m, id, &mut mem, 9, 4), 1);
    // nobody has this id
    assert_eq!(player_username(&m, [5, 0, 0, 8], &mut mem, 0, 12), 1);
    assert_eq!(mem, before);
    assert_eq!(player_username(&m, id, &mut mem, 8, 100), 0);
    assert_eq!(&mem[8..], &[b'Z', b'o', 0xc3, 0xab]);
    assert_eq!(player_username(&m, id, &mut mem, u32::MAX, 4), 1);
}

fn table() -> BlockTable {
    BlockTable::new(vec![
        BlockInfo { emit_light: 0, transparent: true },
        BlockInfo { emit_light: 14, transparent: true },
        BlockInfo { emit_light: 9, transparent: true },
        BlockInfo { emit_light: 0, transparent: false },
        BlockInfo { emit_light: 200, transparent: false },
    ])
}

fn dist(a: (i32, i32, i32), b: (i32, i32, i32)) -> i32 {
    (a.0 - b.0).abs() + (a.1 - b.1).abs() + (a.2 - b.2).abs()
}

#[test]
fn block_light_is_the_brightest_that_reaches() {
    let mut chunk = Chunk::new();
    let torch = (3, 64, 3);
    let lamp = (10, 64, 5);
    chunk.set_block(at(torch.0, torch.1, torch.2), 1);
    chunk.set_block(at(lamp.0, lamp.1, lamp.2), 2);
    let mut light = BlockLightChunk::new();
    light.update_all(&chunk, &table());
    for x in 0..16 {
        for y in 48..80 {
            for z in 0..16 {
                let want = (14 - dist(torch, (x, y, z))).max(9 - dist(lamp, (x, y, z))).max(0);
                assert_eq!(light.data.get_light(at(x, y, z)) as i32, want, "{} {} {}", x, y, z);
            }
        }
    }
    // one cell at a time gives the same grid, in whichever order
    let mut one = BlockLightChunk::new();
    one.update(&chunk, &table(), at(lamp.0, lamp.1, lamp.2));
    assert_eq!(one.data.get_light(at(3, 64, 3)), 0);
    one.update(&chunk, &table(), at(torch.0, torch.1, torch.2));
    one.update(&chunk, &table(), at(0, 0, 0));
    for x in 0..16 {
        for z in 0..16 {
            assert_eq!(one.data.get_light(at(x, 64, z)), light.data.get_light(at(x, 64, z)));
        }
    }
}

#[test]
fn light_goes_round_a_wall() {
    let mut chunk = Chunk::new();
    // a wall across the chunk with one gap, and a source behind it
    chunk.fill(at(8, 0, 0), at(8, 255, 15), 3);
    chunk.set_block(at(8, 64, 15), 0);
    chunk.set_block(at(6, 64, 15), 1);
    let mut light = BlockLightChunk::new();
    light.update_all(&chunk, &table());
    let l = |x, y, z| light.data.get_light(at(x, y, z));
    assert_eq!(l(6, 64, 15), 14);
    assert_eq!(l(7, 64, 15), 13);
    assert_eq!(l(8, 64, 15), 12);
    assert_eq!(l(9, 64, 15), 11);
    // behind the wall every step leads away from the gap
    assert_eq!(l(9, 64, 14), 10);
    assert_eq!(l(9, 64, 5), 1);
    assert_eq!(l(9, 64, 4), 0);
    assert_eq!(l(9, 70, 15), 5);
    // the wall itself stays dark
    assert_eq!(l(8, 64, 14), 0);
    assert_eq!(l(8, 65, 15), 0);
    // a block that emits more than the brightest level is held to it, and
    // shines though no light passes through it
    chunk.set_block(at(12, 10, 12), 4);
    light.update(&chunk, &table(), at(12, 10, 12));
    assert_eq!(l_of(&light, 12, 10, 12), 15);
    assert_eq!(l_of(&light, 12, 11, 12), 14);
}

fn l_of(light: &BlockLightChunk, x: i32, y: i32, z: i32) -> u8 {
    light.data.get_light(at(x, y, z))
}

#[test]
fn sky_light_is_exact_under_a_roof() {
    let mut chunk = Chunk::new();
    chunk.fill(at(0, 200, 0), at(15, 200, 15), 3);
    // a shaft through the roof
    chunk.set_block(at(5, 200, 5), 0);
    let mut sky = SkyLightChunk::new();
    sky.update_all(&chunk, &table());
    for x in 0..16 {
        for z in 0..16 {
            assert_eq!(sky.data.get_light(at(x, 255, z)), 15);
            assert_eq!(sky.data.get_light(at(x, 201, z)), 15);
            let away = (x - 5).abs() + (z - 5).abs();
            let want = if away == 0 { 15 } else { (15 - away).max(0) };
            // below the roof the light of the shaft falls without loss and
            // spreads sideways with one level lost per step
            for y in [199, 100, 0] {
                assert_eq!(sky.data.get_light(at(x, y, z)) as i32, want, "{} {} {}", x, y, z);
            }
            if away != 0 {
                assert_eq!(sky.data.get_light(at(x, 200, z)), 0);
            }
        }
    }
}

#[test]
fn the_palette_follows_the_writes() {
    let mut s = Section::new();
    s.set_block(0, 7);
    s.set_block(1, 8);
    s.set_block(2, 7);
    s.set_block(3, 9);
    // a block that the palette holds is not added again
    assert_eq!(s.palette(), &vec![0, 7, 8, 9]);
    s.set_block(1, 0);
    s.set_block(0, 9);
    assert_eq!(s.palette(), &vec![0, 7, 8, 9]);
    s.compact();
    // what stays keeps its order
    assert_eq!(s.palette(), &vec![0, 7, 9]);
    assert_eq!((s.cell(0), s.cell(1), s.cell(2), s.cell(3)), (2, 0, 1, 2));
    s.set_block(2, 0);
    s.set_block(0, 0);
    s.set_block(3, 0);
    s.compact();
    assert_eq!(s.palette(), &vec![0]);
    assert_eq!(s.non_air(), 0);
}

#[test]
fn control_characters_are_escaped() {
    let mut out = String::new();
    sugarcane::chat::escape_into(&mut out, "a\u{0}b\u{1f}\u{8}\u{c}\u{7f} \u{1b}[0m");
    assert_eq!(out, "a\\u0000b\\u001f\\b\\f\u{7f} \\u001b[0m");
    let json = Chat::new("bell\u{7}".into()).to_json();
    assert_eq!(json, "{\"text\":\"\",\"extra\":[{\"text\":\"bell\\u0007\"}]}");
}

#[test]
fn an_enum_without_names_has_no_value() {
    let none = sugarcane::block::Prop {
        name: "kind".into(),
        kind: sugarcane::block::PropKind::Enum(vec![]),
    };
    assert_eq!(none.len(), 0);
}

#[test]
fn a_body_that_does_not_parse_is_invalid_data() {
    let kind = Kind::Container(vec![Kind::Int(IntType::I16)]);
    let whole = Packet::new(9, vec![0, 3]);
    assert_eq!(read_body(&kind, &whole), Ok(vec![Atom::Int(3)]));
    // the body ends too early
    assert_eq!(read_body(&kind, &Packet::new(9, vec![0])), Err(StreamError::InvalidData));
    // bytes are left over
    assert_eq!(read_body(&kind, &Packet::new(9, vec![0, 3, 0])), Err(StreamError::InvalidData));
    assert_eq!(
        read_sb("held_item_slot", &kind, &whole, ProtocolVersion::V1_12_2),
        Ok(sugarcane::packet::SbPacket::HeldItemSlot { slot: 3 })
    );
    assert_eq!(
        read_sb("held_item_slot", &kind, &Packet::new(9, vec![]), ProtocolVersion::V1_12_2),
        Err(StreamError::InvalidData)
    );
    // the values are not those of the packet
    assert_eq!(
        read_sb("keep_alive", &kind, &Packet::new(9, vec![]), ProtocolVersion::V1_12_2),
        Err(StreamError::InvalidData)
    );
}

#[test]
fn light_takes_any_grid() {
    // a grid that is not at rest: one bright cell in the dark
    let chunk = Chunk::new();
    let mut light = BlockLightChunk::new();
    light.data.set_light(at(4, 4, 4), 9);
    let before: Vec<u8> = (0..16).map(|x| light.data.get_light(at(x, 4, 4))).collect();
    // nothing emits at the cell: nothing changes, not even towards rest
    light.update(&chunk, &table(), at(8, 4, 4));
    let after: Vec<u8> = (0..16).map(|x| light.data.get_light(at(x, 4, 4))).collect();
    assert_eq!(before, after);
    let mut lit = Chunk::new();
    lit.set_block(at(8, 4, 4), 1);
    light.update(&lit, &table(), at(8, 4, 4));
    for x in 0..16 {
        let now = light.data.get_light(at(x, 4, 4));
        assert!(now >= before[x as usize] && now <= 15);
    }
    assert_eq!(light.data.get_light(at(8, 4, 4)), 14);
    assert_eq!(light.data.get_light(at(4, 4, 4)), 10);
    assert_eq!(light.data.get_light(at(3, 4, 4)), 9);
}
