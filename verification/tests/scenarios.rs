use sugarcane::conv::{BlockIds, EntityIds, ItemIds, TypeConverter};
use sugarcane::light::{BlockInfo, BlockLightChunk, BlockTable};
use sugarcane::manager::{wait_for_login, WorldManager};
use sugarcane::math::{ChunkPos, FPos, Pos, RelPos};
use sugarcane::packet::{CbPacket, SbPacket, UUID};
use sugarcane::player::{Delivery, Player};
use sugarcane::session::unload_packet;
use sugarcane::stream::StreamError;
use sugarcane::version::{BlockVersion, ProtocolVersion};
use sugarcane::world::{World, WorldGen};

fn versions() -> Vec<BlockVersion> {
    vec![
        BlockVersion::V1_8,
        BlockVersion::V1_9,
        BlockVersion::V1_10,
        BlockVersion::V1_11,
        BlockVersion::V1_12,
        BlockVersion::V1_13,
        BlockVersion::V1_14,
        BlockVersion::V1_15,
        BlockVersion::V1_16,
    ]
}

fn converter() -> TypeConverter {
    let blocks = versions()
        .into_iter()
        .map(|ver| BlockIds { to_old: vec![0, 16, 32, 48], to_new: vec![0; 64], ver })
        .collect();
    let items = versions()
        .into_iter()
        .map(|ver| ItemIds { to_old: vec![(0, 0)], to_new: vec![vec![0]], ver })
        .collect();
    let entities = versions()
        .into_iter()
        .map(|ver| EntityIds { to_old: vec![0], to_new: vec![0], ver })
        .collect();
    TypeConverter::new(blocks, items, entities).unwrap()
}

fn flat() -> WorldGen {
    // stone up to height 59, air above
    WorldGen::new(vec![1; 60])
}

fn manager() -> WorldManager {
    let mut m = WorldManager::new(converter());
    m.add_world(flat());
    m
}

fn block(x: i64) -> i64 {
    x * 4096
}

#[test]
fn scenario_join_sends_login_chunks_and_position() {
    let mut m = manager();
    let first = SbPacket::Login {
        username: "Alice".into(),
        uuid: UUID::from_u128(1),
        protocol_version: 340,
    };
    let login = wait_for_login(first).unwrap();
    assert_eq!(login.ver, ProtocolVersion::V1_12_2);
    assert_eq!(login.username, "Alice");
    let joined = m.new_player(login.username, login.uuid, login.ver, 7).unwrap();
    assert!(joined.kicked.is_empty());
    let packets = joined.packets;
    assert_eq!(packets.len(), 402);
    match &packets[0] {
        CbPacket::Login { entity_id, game_mode, .. } => {
            assert_eq!(*entity_id, 1);
            assert_eq!(*game_mode, 1);
        }
        other => panic!("expected a login, got {:?}", other),
    }
    let mut chunks = 0;
    for p in &packets[1..401] {
        match p {
            CbPacket::MapChunk { x, z, ground_up, bit_map_v1_8, bit_map_v1_9, .. } => {
                assert!(-10 <= *x && *x < 10);
                assert!(-10 <= *z && *z < 10);
                assert!(*ground_up);
                assert_eq!(*bit_map_v1_8, None);
                // stone in the four lowest sections
                assert_eq!(*bit_map_v1_9, Some(0b1111));
                chunks += 1;
            }
            other => panic!("expected a chunk, got {:?}", other),
        }
    }
    assert_eq!(chunks, 400);
    assert_eq!(
        packets[401],
        CbPacket::Position {
            x: 0,
            y: block(60),
            z: 0,
            yaw: 0,
            pitch: 0,
            flags: 0,
            teleport_id_v1_9: Some(1234),
        }
    );
    assert_eq!(m.default_world().player_count(), 1);
    assert_eq!(m.default_world().player(0).eid(), 1);
}

#[test]
fn scenario_join_streams_chunks_in_column_order() {
    let mut m = manager();
    let joined = m.new_player("Alice".into(), UUID::from_u128(1), ProtocolVersion::V1_8, 7).unwrap();
    let mut expected = Vec::new();
    for x in -10..10 {
        for z in -10..10 {
            expected.push((x, z));
        }
    }
    let got: Vec<(i32, i32)> = joined.packets[1..401]
        .iter()
        .map(|p| match p {
            CbPacket::MapChunk { x, z, .. } => (*x, *z),
            other => panic!("expected a chunk, got {:?}", other),
        })
        .collect();
    assert_eq!(got, expected);
}

#[test]
fn login_needs_a_known_version() {
    let unknown = SbPacket::Login {
        username: "Alice".into(),
        uuid: UUID::from_u128(1),
        protocol_version: 5,
    };
    assert!(matches!(wait_for_login(unknown), Err(StreamError::InvalidData)));
    assert!(matches!(
        wait_for_login(SbPacket::KeepAlive { id: 1 }),
        Err(StreamError::InvalidData)
    ));
}

#[test]
fn nobody_joins_without_a_world() {
    let mut m = WorldManager::new(converter());
    assert!(m.new_player("Alice".into(), UUID::from_u128(1), ProtocolVersion::V1_8, 7).is_none());
    assert_eq!(m.world_count(), 0);
}

fn two_players(alice: ProtocolVersion, bob: ProtocolVersion) -> World {
    let mut w = World::new(flat());
    let spawn = FPos::new(0, block(60), 0).unwrap();
    let a = w.eid();
    assert!(w.new_player(Player::new(a, "Alice".into(), UUID::from_u128(1), 10, alice, spawn)).is_empty());
    let b = w.eid();
    assert!(w.new_player(Player::new(b, "Bob".into(), UUID::from_u128(2), 20, bob, spawn)).is_empty());
    w
}

#[test]
fn scenario_quarter_block_move_is_relative() {
    let conv = converter();
    let mut w = two_players(ProtocolVersion::V1_12_2, ProtocolVersion::V1_12_2);
    // Alice moves to x = 0.25
    assert!(w.set_next_pos(0, 1024, block(60), 0));
    let (m, out) = w.tick_player(0, &conv);
    assert!(m.pos_changed);
    assert!(!m.look_changed);
    assert_eq!(
        out.movement,
        vec![Delivery {
            conn: 20,
            packet: CbPacket::RelEntityMove {
                entity_id: 1,
                d_x_v1_8: Some(0),
                d_x_v1_9: Some(1024),
                d_y_v1_8: Some(0),
                d_y_v1_9: Some(0),
                d_z_v1_8: Some(0),
                d_z_v1_9: Some(0),
                on_ground: true,
            },
        }]
    );
    assert!(out.loaded.is_empty());
    assert!(out.unloaded.is_empty());
    // a tick without news sends nothing
    let (m, out) = w.tick_player(0, &conv);
    assert!(!m.pos_changed);
    assert!(out.movement.is_empty());
}

#[test]
fn oldest_version_gets_thirty_seconds_of_a_block() {
    let conv = converter();
    let mut w = two_players(ProtocolVersion::V1_12_2, ProtocolVersion::V1_8);
    assert!(w.set_next_pos(0, 1024, block(60), -block(1)));
    let (_, out) = w.tick_player(0, &conv);
    assert_eq!(
        out.movement,
        vec![Delivery {
            conn: 20,
            packet: CbPacket::RelEntityMove {
                entity_id: 1,
                d_x_v1_8: Some(8),
                d_x_v1_9: Some(0),
                d_y_v1_8: Some(0),
                d_y_v1_9: Some(0),
                d_z_v1_8: Some(-32),
                d_z_v1_9: Some(0),
                on_ground: true,
            },
        }]
    );
}

#[test]
fn scenario_dig_tells_everyone_in_view() {
    let mut m = manager();
    m.new_player("Alice".into(), UUID::from_u128(1), ProtocolVersion::V1_12_2, 10).unwrap();
    m.new_player("Bob".into(), UUID::from_u128(2), ProtocolVersion::V1_8, 20).unwrap();
    m.new_player("Carol".into(), UUID::from_u128(3), ProtocolVersion::V1_16_5, 30).unwrap();
    // Carol walks away: eleven chunks from the origin
    let mut w = m.take_world(0);
    assert!(w.set_next_pos(2, block(16 * 11), block(60), 0));
    w.tick_player(2, m.get_block_converter());
    w.set_block(Pos::new(3, 64, 3), 2).unwrap();
    m.put_world(0, w);
    let pos = Pos::new(3, 64, 3);
    let out = m.dig(0, pos).unwrap();
    assert_eq!(
        out,
        vec![
            Delivery { conn: 10, packet: CbPacket::BlockChange { location: pos, type_: 0 } },
            Delivery { conn: 20, packet: CbPacket::BlockChange { location: pos, type_: 0 } },
        ]
    );
    let mut w = m.take_world(0);
    assert_eq!(w.get_block(pos), Ok(0));
    // the block below was not touched
    assert_eq!(w.get_block(Pos::new(3, 59, 3)), Ok(1));
}

#[test]
fn block_change_carries_the_id_of_each_version() {
    let conv = converter();
    let w = two_players(ProtocolVersion::V1_8, ProtocolVersion::V1_16_5);
    let pos = Pos::new(-1, 10, 5);
    assert_eq!(
        w.block_change(pos, 2, &conv),
        vec![
            Delivery { conn: 10, packet: CbPacket::BlockChange { location: pos, type_: 32 } },
            Delivery { conn: 20, packet: CbPacket::BlockChange { location: pos, type_: 2 } },
        ]
    );
}

#[test]
fn dig_outside_the_world_is_refused() {
    let mut m = manager();
    let pos = Pos::new(0, 256, 0);
    assert!(m.dig(0, pos).is_err());
    let pos = Pos::new(0, -1, 0);
    assert!(m.dig(0, pos).is_err());
}

#[test]
fn scenario_second_connection_evicts_the_first() {
    let mut m = manager();
    let u = UUID::from_u128(0xabcdef);
    let first = m.new_player("Alice".into(), u, ProtocolVersion::V1_12_2, 10).unwrap();
    assert!(first.kicked.is_empty());
    let second = m.new_player("Alice".into(), u, ProtocolVersion::V1_12_2, 11).unwrap();
    assert_eq!(second.kicked.len(), 1);
    assert_eq!(second.kicked[0].conn, 10);
    match &second.kicked[0].packet {
        CbPacket::KickDisconnect { reason } => {
            assert!(reason.contains("Another player with the same id is already connected!"));
            assert_eq!(
                reason,
                "{\"text\":\"\",\"extra\":[{\"text\":\"Another player with the same id is already connected!\"}]}"
            );
        }
        other => panic!("expected a kick, got {:?}", other),
    }
    let w = m.default_world();
    assert_eq!(w.player_count(), 1);
    assert_eq!(w.player(0).conn(), 11);
    assert_eq!(w.player(0).id(), u);
    assert_eq!(w.player(0).eid(), 2);
    assert_eq!(w.find_player(u), Some(0));
}

#[test]
fn scenario_torch_lights_its_surroundings() {
    let mut w = World::new(WorldGen::new(vec![]));
    // block 3 is a torch: it emits 14 and lets light pass
    let table = BlockTable::new(vec![
        BlockInfo { emit_light: 0, transparent: true },
        BlockInfo { emit_light: 0, transparent: false },
        BlockInfo { emit_light: 0, transparent: false },
        BlockInfo { emit_light: 14, transparent: true },
    ]);
    w.set_block(Pos::new(3, 64, 3), 3).unwrap();
    let c = ChunkPos::new(0, 0);
    assert!(!w.get_chunk(c).unwrap().light_valid());
    w.relight(c, &table);
    let chunk = w.get_chunk(c).unwrap();
    assert!(chunk.light_valid());
    let light = |x, y, z| chunk.block_light.data.get_light(RelPos::new(x, y, z).unwrap());
    assert_eq!(light(3, 64, 3), 14);
    assert_eq!(light(3, 64, 4), 13);
    assert_eq!(light(3, 64, 2), 13);
    assert_eq!(light(4, 64, 3), 13);
    assert_eq!(light(3, 65, 3), 13);
    assert_eq!(light(3, 63, 3), 13);
    assert_eq!(light(4, 64, 4), 12);
    assert_eq!(light(3, 64, 15), 2);
    assert_eq!(light(3, 50, 3), 0);
    assert_eq!(light(3, 51, 3), 1);
    // fourteen steps away lies the next chunk, and that is dark
    w.relight(ChunkPos::new(0, 1), &table);
    let next = w.get_chunk(ChunkPos::new(0, 1)).unwrap();
    assert_eq!(next.block_light.data.get_light(RelPos::new(3, 64, 1).unwrap()), 0);
}

fn level(light: &BlockLightChunk, x: i32, y: i32, z: i32) -> u8 {
    light.data.get_light(RelPos::new(x, y, z).unwrap())
}

#[test]
fn light_update_at_one_cell() {
    let mut w = World::new(WorldGen::new(vec![]));
    let table = BlockTable::new(vec![
        BlockInfo { emit_light: 0, transparent: true },
        BlockInfo { emit_light: 15, transparent: false },
        BlockInfo { emit_light: 0, transparent: false },
    ]);
    // a lamp that blocks light, with a wall next to it
    w.set_block(Pos::new(8, 8, 8), 1).unwrap();
    w.set_block(Pos::new(9, 8, 8), 2).unwrap();
    let chunk = w.get_chunk(ChunkPos::new(0, 0)).unwrap();
    let mut light = BlockLightChunk::new();
    light.update(&chunk.blocks, &table, RelPos::new(8, 8, 8).unwrap());
    assert_eq!(level(&light, 8, 8, 8), 15);
    assert_eq!(level(&light, 7, 8, 8), 14);
    // the wall stays dark, and light goes round it
    assert_eq!(level(&light, 9, 8, 8), 0);
    assert_eq!(level(&light, 10, 8, 8), 11);
    assert_eq!(level(&light, 8, 8, 0), 7);
    // a second update changes nothing
    light.update(&chunk.blocks, &table, RelPos::new(8, 8, 8).unwrap());
    assert_eq!(level(&light, 8, 8, 8), 15);
    assert_eq!(level(&light, 10, 8, 8), 11);
}

#[test]
fn scenario_unload_depends_on_the_version() {
    let pos = ChunkPos::new(4, -7);
    assert_eq!(
        unload_packet(ProtocolVersion::V1_8, pos),
        CbPacket::MapChunk {
            x: 4,
            z: -7,
            ground_up: true,
            bit_map_v1_8: Some(0),
            bit_map_v1_9: None,
            chunk_data: vec![0],
        }
    );
    for ver in [ProtocolVersion::V1_9, ProtocolVersion::V1_12_2, ProtocolVersion::V1_16_5] {
        assert_eq!(
            unload_packet(ver, pos),
            CbPacket::UnloadChunk { chunk_x_v1_9: Some(4), chunk_z_v1_9: Some(-7) }
        );
    }
}

#[test]
fn crossing_a_chunk_border_streams_a_column() {
    let conv = converter();
    let mut w = two_players(ProtocolVersion::V1_12_2, ProtocolVersion::V1_8);
    // Bob walks one chunk east
    assert!(w.set_next_pos(1, block(16), block(60), 0));
    let (m, out) = w.tick_player(1, &conv);
    assert_eq!(m.old_chunk, ChunkPos::new(0, 0));
    assert_eq!(m.new_chunk, ChunkPos::new(1, 0));
    assert_eq!(out.loaded.len(), 21);
    assert_eq!(out.unloaded.len(), 21);
    for (i, p) in out.loaded.iter().enumerate() {
        match p {
            CbPacket::MapChunk { x, z, bit_map_v1_8, .. } => {
                assert_eq!(*x, 11);
                assert_eq!(*z, -10 + i as i32);
                assert_eq!(*bit_map_v1_8, Some(0b1111));
            }
            other => panic!("expected a chunk, got {:?}", other),
        }
    }
    for (i, p) in out.unloaded.iter().enumerate() {
        assert_eq!(*p, unload_packet(ProtocolVersion::V1_8, ChunkPos::new(-10, -10 + i as i32)));
    }
    // sixteen blocks are more than a relative move holds: Alice sees a teleport
    assert_eq!(out.movement.len(), 1);
    assert_eq!(out.movement[0].conn, 10);
    assert!(matches!(out.movement[0].packet, CbPacket::EntityTeleport { .. }));
}
