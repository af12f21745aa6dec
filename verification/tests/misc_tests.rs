use sugarcane::behavior::{Axis, Falling, Log};
use sugarcane::block::{Block, Material, Prop, PropKind, State, StateProp, StatePropKind};
use sugarcane::chat::{decimal, escape_into, Chat, Color};
use sugarcane::chunk::Chunk;
use sugarcane::entity::{Behavior, Entity, Vec3};
use sugarcane::item::{generate_items, Data};
use sugarcane::light::{BlockInfo, BlockTable, SkyLightChunk};
use sugarcane::math::{ChunkPos, Face, FPos, Pos, RelPos};
use sugarcane::nbt::Error;
use sugarcane::packet::{CbPacket, UUID};
use sugarcane::player::{Player, PlayerInventory, Stack};
use sugarcane::plugin::{
    enabled, init, instance, log_from_level, module_name, username_fits, Call, Level,
};
use sugarcane::server::{address, keep_alive, mspt_color, mspt_report, unload_rect};
use sugarcane::session::{
    in_view, join_rect, movement_packets, round_div_exec, view_delta, view_rect, view_strips,
    wire_angle, ChunkRect, PlayerPosition,
};
use sugarcane::sl::SlPos;
use sugarcane::version::{BlockVersion, ProtocolVersion};
use sugarcane::world::{World, WorldGen};

#[test]
fn angles_on_the_wire() {
    // a full turn is 256 steps of 5760 fixed-point units
    assert_eq!(wire_angle(0), 0);
    assert_eq!(wire_angle(5760), 1);
    assert_eq!(wire_angle(90 * 4096), 64);
    assert_eq!(wire_angle(180 * 4096), -128);
    assert_eq!(wire_angle(270 * 4096), -64);
    assert_eq!(wire_angle(360 * 4096), 0);
    assert_eq!(wire_angle(360 * 4096 - 1), 0);
    assert_eq!(wire_angle(-90 * 4096), -64);
    assert_eq!(wire_angle(-45 * 4096), -32);
    // halves round away from zero
    assert_eq!(wire_angle(2880), 1);
    assert_eq!(wire_angle(2879), 0);
    assert_eq!(wire_angle(-2880), -1);
    assert_eq!(wire_angle(-2879), 0);
    assert_eq!(wire_angle(i64::MAX), wire_angle(i64::MAX % (256 * 5760)));
    assert_eq!(round_div_exec(7, 2), 4);
    assert_eq!(round_div_exec(-7, 2), -4);
    assert_eq!(round_div_exec(6, 4), 2);
    assert_eq!(round_div_exec(5, 4), 1);
    assert_eq!(round_div_exec(0, 9), 0);
    assert_eq!(round_div_exec(i64::MIN, 1), i64::MIN);
    assert_eq!(round_div_exec(i64::MAX, 1), i64::MAX);
}

fn moved(dx: i64, dy: i64, dz: i64) -> PlayerPosition {
    let prev = FPos::new(4096, 60 * 4096, -4096).unwrap();
    let curr = FPos::new(4096 + dx, 60 * 4096 + dy, -4096 + dz).unwrap();
    PlayerPosition { curr, prev, next: curr, yaw: 90 * 4096, pitch: -45 * 4096, next_yaw: 0, next_pitch: 0 }
}

fn kind(p: &CbPacket) -> &'static str {
    match p {
        CbPacket::RelEntityMove { .. } => "rel",
        CbPacket::EntityMoveLook { .. } => "move_look",
        CbPacket::EntityTeleport { .. } => "teleport",
        CbPacket::EntityLook { .. } => "look",
        CbPacket::EntityHeadRotation { .. } => "head",
        _ => "other",
    }
}

#[test]
fn moves_are_relative_up_to_the_range_of_the_version() {
    let new = ProtocolVersion::V1_9;
    let old = ProtocolVersion::V1_8;
    // 32767 units are the most that sixteen bits hold
    for (d, expected) in [(32767, "rel"), (-32767, "rel"), (32768, "teleport"), (-32768, "teleport")] {
        let out = movement_packets(5, new, &moved(d, 0, 0), true, false);
        assert_eq!(out.len(), 1);
        assert_eq!(kind(&out[0]), expected, "{}", d);
        let out = movement_packets(5, new, &moved(0, 0, d), true, false);
        assert_eq!(kind(&out[0]), expected, "{}", d);
    }
    // 127 steps of 1/32 are the most that eight bits hold
    for (d, expected) in [(127 * 128, "rel"), (-127 * 128, "rel"), (127 * 128 + 1, "teleport"), (-127 * 128 - 1, "teleport")] {
        let out = movement_packets(5, old, &moved(0, d, 0), true, false);
        assert_eq!(kind(&out[0]), expected, "{}", d);
    }
    // eight blocks are too far for every version
    assert_eq!(kind(&movement_packets(5, new, &moved(8 * 4096, 0, 0), true, false)[0]), "teleport");
    assert_eq!(kind(&movement_packets(5, old, &moved(4 * 4096, 0, 0), true, false)[0]), "teleport");
    assert_eq!(
        movement_packets(5, old, &moved(127 * 128, -64, 192), true, false),
        vec![CbPacket::RelEntityMove {
            entity_id: 5,
            d_x_v1_8: Some(127),
            d_x_v1_9: Some(0),
            d_y_v1_8: Some(-1),
            d_y_v1_9: Some(0),
            d_z_v1_8: Some(2),
            d_z_v1_9: Some(0),
            on_ground: true,
        }]
    );
}

#[test]
fn look_and_move_choose_the_packets() {
    let v = ProtocolVersion::V1_12_2;
    assert!(movement_packets(1, v, &moved(0, 0, 0), false, false).is_empty());
    let look = movement_packets(1, v, &moved(0, 0, 0), false, true);
    assert_eq!(
        look,
        vec![
            CbPacket::EntityHeadRotation { entity_id: 1, head_yaw: 64 },
            CbPacket::EntityLook { entity_id: 1, yaw: 64, pitch: -32, on_ground: true },
        ]
    );
    let both = movement_packets(1, v, &moved(1, 2, 3), true, true);
    assert_eq!(both.len(), 2);
    assert_eq!(kind(&both[0]), "head");
    assert_eq!(
        both[1],
        CbPacket::EntityMoveLook {
            entity_id: 1,
            d_x_v1_8: Some(0),
            d_x_v1_9: Some(1),
            d_y_v1_8: Some(0),
            d_y_v1_9: Some(2),
            d_z_v1_8: Some(0),
            d_z_v1_9: Some(3),
            yaw: 64,
            pitch: -32,
            on_ground: true,
        }
    );
    let far = movement_packets(1, ProtocolVersion::V1_8, &moved(20 * 4096, 0, 0), true, false);
    assert_eq!(
        far,
        vec![CbPacket::EntityTeleport {
            entity_id: 1,
            x_v1_8: Some(21 * 32),
            x_v1_9: Some(21 * 4096),
            y_v1_8: Some(60 * 32),
            y_v1_9: Some(60 * 4096),
            z_v1_8: Some(-32),
            z_v1_9: Some(-4096),
            yaw: 64,
            pitch: -32,
            on_ground: true,
        }]
    );
}

#[test]
fn a_tick_commits_the_last_position() {
    let start = FPos::new(0, 60 * 4096, 0).unwrap();
    let mut p = PlayerPosition::new(start);
    assert!(p.set_next_pos(16 * 4096, 61 * 4096, -1).is_ok());
    p.set_next_look(-90 * 4096, 100 * 4096);
    let m = p.tick();
    assert!(m.pos_changed && m.look_changed);
    assert_eq!(m.old_chunk, ChunkPos::new(0, 0));
    assert_eq!(m.new_chunk, ChunkPos::new(1, -1));
    assert_eq!(p.pos_with_prev(), (FPos::new(16 * 4096, 61 * 4096, -1).unwrap(), start));
    // yaw comes into one turn, pitch is held within a quarter turn
    assert_eq!(p.look(), (90 * 4096, 270 * 4096));
    assert_eq!(p.pos_look(), (p.pos(), 90 * 4096, 270 * 4096));
    // a tick without new input is silent, though what arrived was out of
    // range
    let m = p.tick();
    assert!(!m.pos_changed);
    assert!(!m.look_changed);
    p.set_next_look(725 * 4096, -91 * 4096);
    assert!(p.tick().look_changed);
    assert_eq!(p.look(), (-90 * 4096, 5 * 4096));
    assert!(!p.tick().look_changed);
    // a full turn more is the same look
    p.set_next_look(365 * 4096, -200 * 4096);
    assert!(!p.tick().look_changed);
    p.set_next_look(5 * 4096, -89 * 4096);
    assert!(p.tick().look_changed);
    // a position outside the world is refused
    let e = p.set_next_pos(1 << 38, 0, 0).unwrap_err();
    assert_eq!((e.pos.x, e.pos.y, e.pos.z), (1 << 38, 0, 0));
    assert_eq!(p.next, FPos::new(16 * 4096, 61 * 4096, -1).unwrap());
    assert!(p.in_view(ChunkPos::new(11, -11)));
    assert!(!p.in_view(ChunkPos::new(12, 0)));
}

fn cells(r: &ChunkRect) -> Vec<(i32, i32)> {
    r.positions().iter().map(|c| (c.x, c.z)).collect()
}

#[test]
fn view_ring_delta_along_one_axis() {
    let c = ChunkPos::new(5, -3);
    for dx in 1..=21 {
        let to = ChunkPos::new(c.x + dx, c.z);
        let d = view_delta(c, to, 10);
        let mut loaded = cells(&d.load_side);
        loaded.extend(cells(&d.load_cap));
        let mut expected = Vec::new();
        for x in (c.x + 10 + 1)..=(c.x + 10 + dx) {
            for z in (c.z - 10)..=(c.z + 10) {
                expected.push((x, z));
            }
        }
        assert_eq!(loaded, expected, "dx {}", dx);
        let mut unloaded = cells(&d.unload_side);
        unloaded.extend(cells(&d.unload_cap));
        let mut gone = Vec::new();
        for x in (c.x - 10)..=(c.x - 10 + dx - 1) {
            for z in (c.z - 10)..=(c.z + 10) {
                gone.push((x, z));
            }
        }
        assert_eq!(unloaded, gone, "dx {}", dx);
    }
}

#[test]
fn view_ring_delta_is_the_difference_of_the_views() {
    let from = ChunkPos::new(0, 0);
    for (tx, tz) in [(1, 1), (-1, 2), (3, -4), (0, 5), (-7, 0), (25, 1), (-2, -30), (40, 40), (0, 0)] {
        let to = ChunkPos::new(tx, tz);
        let d = view_delta(from, to, 10);
        let mut loaded = cells(&d.load_side);
        loaded.extend(cells(&d.load_cap));
        let mut unloaded = cells(&d.unload_side);
        unloaded.extend(cells(&d.unload_cap));
        let mut want_loaded = Vec::new();
        let mut want_unloaded = Vec::new();
        for x in -60..=60 {
            for z in -60..=60 {
                let p = ChunkPos::new(x, z);
                match (in_view(from, p, 10), in_view(to, p, 10)) {
                    (false, true) => want_loaded.push((x, z)),
                    (true, false) => want_unloaded.push((x, z)),
                    _ => {}
                }
            }
        }
        loaded.sort();
        unloaded.sort();
        want_loaded.sort();
        want_unloaded.sort();
        // nothing twice: the corners belong to the side strip only
        let mut once = loaded.clone();
        once.dedup();
        assert_eq!(once.len(), loaded.len());
        assert_eq!(loaded, want_loaded, "to {} {}", tx, tz);
        assert_eq!(unloaded, want_unloaded, "to {} {}", tx, tz);
        assert_eq!(view_strips(from, to, 10), (d.load_side, d.load_cap));
    }
    assert_eq!(view_rect(from, 10).positions().len(), 441);
    assert_eq!(join_rect(from, 10).positions().len(), 400);
    assert_eq!(unload_rect(ChunkRect::new(from, ChunkPos::new(2, 1)), ProtocolVersion::V1_9).len(), 2);
}

#[test]
fn sky_light_falls_straight_down() {
    let mut chunk = Chunk::new();
    // a roof over half of the chunk
    chunk.fill(RelPos::new(0, 100, 0).unwrap(), RelPos::new(7, 100, 15).unwrap(), 1);
    let table = BlockTable::new(vec![
        BlockInfo { emit_light: 0, transparent: true },
        BlockInfo { emit_light: 0, transparent: false },
    ]);
    let mut sky = SkyLightChunk::new();
    sky.update_all(&chunk, &table);
    let at = |x, y, z| sky.data.get_light(RelPos::new(x, y, z).unwrap());
    assert_eq!(at(12, 255, 3), 15);
    assert_eq!(at(12, 0, 3), 15);
    assert_eq!(at(3, 101, 3), 15);
    // the roof itself is dark, and below it light comes in from the side
    assert_eq!(at(3, 100, 3), 0);
    assert_eq!(at(8, 99, 3), 15);
    assert_eq!(at(7, 99, 3), 14);
    assert_eq!(at(0, 99, 3), 7);
    assert_eq!(at(0, 0, 3), 7);
}

#[test]
fn chat_as_json() {
    assert_eq!(Chat::empty().to_json(), "{\"text\":\"\"}");
    assert_eq!(Chat::new("hi".into()).to_json(), "{\"text\":\"\",\"extra\":[{\"text\":\"hi\"}]}");
    let mut c = Chat::new("a \"b\"\n\\".into());
    c.add("é\t\r".into(), Some(Color::BrightGreen));
    c.add("".into(), Some(Color::Pink));
    assert_eq!(
        c.to_json(),
        "{\"text\":\"\",\"extra\":[{\"text\":\"a \\\"b\\\"\\n\\\\\"},{\"text\":\"é\\t\\r\",\"color\":\"green\"},{\"text\":\"\",\"color\":\"light_purple\"}]}"
    );
    let mut out = String::from("x");
    escape_into(&mut out, "\"");
    assert_eq!(out, "x\\\"");
    assert_eq!(Color::Gold.name(), "gold");
    assert_eq!(Color::DarkAqua.name(), "dark_aqua");
    for (n, text) in [(0, "0"), (7, "7"), (10, "10"), (1234556, "1234556"), (u32::MAX, "4294967295")] {
        assert_eq!(decimal(n), text);
    }
}

#[test]
fn tick_time_report() {
    assert_eq!(mspt_color(0), Color::BrightGreen);
    assert_eq!(mspt_color(10), Color::BrightGreen);
    assert_eq!(mspt_color(11), Color::Yellow);
    assert_eq!(mspt_color(20), Color::Yellow);
    assert_eq!(mspt_color(21), Color::Gold);
    assert_eq!(mspt_color(50), Color::Gold);
    assert_eq!(mspt_color(51), Color::Red);
    assert_eq!(
        mspt_report("big gaming\n", 12),
        CbPacket::PlayerlistHeader {
            header: "{\"text\":\"\",\"extra\":[{\"text\":\"big gaming\\n\",\"color\":\"blue\"}]}".into(),
            footer: "{\"text\":\"\",\"extra\":[{\"text\":\"\\nmspt: \"},{\"text\":\"12\",\"color\":\"yellow\"}]}".into(),
        }
    );
    assert!(keep_alive(1).is_none());
    assert!(keep_alive(19).is_none());
    for tick in [0, 20, 40, 20_000] {
        assert_eq!(
            keep_alive(tick),
            Some(CbPacket::KeepAlive {
                keep_alive_id_v1_8: Some(1234556),
                keep_alive_id_v1_12_2: Some(1234556),
            })
        );
    }
}

fn world_with(n: u64) -> World {
    let mut w = World::new(WorldGen::new(vec![]));
    for i in 0..n {
        let eid = w.eid();
        let spawn = FPos::new(0, 0, 0).unwrap();
        w.new_player(Player::new(eid, format!("p{}", i), UUID(i as u128), 100 + i, ProtocolVersion::V1_8, spawn));
    }
    w
}

#[test]
fn the_world_reports_every_twentieth_tick() {
    let mut w = world_with(2);
    w.add_tick_time(300);
    w.add_tick_time(140);
    let out = w.global_tick("t");
    assert_eq!(out.len(), 2);
    assert_eq!(out[0].conn, 100);
    assert_eq!(out[1].conn, 101);
    // 440 ms over twenty ticks
    assert_eq!(out[0].packet, mspt_report("t", 22));
    for _ in 1..20 {
        w.add_tick_time(1);
        assert!(w.global_tick("t").is_empty());
    }
    // the nineteen milliseconds since the report make a mean of 0
    assert_eq!(w.global_tick("t")[1].packet, mspt_report("t", 0));
    w.add_tick_time(u32::MAX);
    w.add_tick_time(5);
    for _ in 1..20 {
        w.global_tick("t");
    }
    assert_eq!(w.global_tick("t")[0].packet, mspt_report("t", u32::MAX / 20));
}

#[test]
fn broadcast_reaches_everyone() {
    let w = world_with(3);
    let msg = Chat::new("hello".into());
    let out = w.broadcast(&msg);
    assert_eq!(out.len(), 3);
    for (i, d) in out.iter().enumerate() {
        assert_eq!(d.conn, 100 + i as u64);
        assert_eq!(
            d.packet,
            CbPacket::Chat { message: msg.to_json(), position: 0, sender_v1_16: Some(UUID(0)) }
        );
    }
    assert_eq!(w.viewers(ChunkPos::new(10, -10)), vec![0, 1, 2]);
    assert!(w.viewers(ChunkPos::new(11, 0)).is_empty());
    let p = w.player(1);
    assert_eq!(p.username(), "p1");
    assert_eq!(p.ver(), ProtocolVersion::V1_8);
    assert_eq!(p.send_message(&msg).packet, CbPacket::Chat { message: msg.to_json(), position: 0, sender_v1_16: Some(UUID(1)) });
    assert_eq!(p.send_hotbar(&msg).packet, CbPacket::Chat { message: msg.to_json(), position: 2, sender_v1_16: Some(UUID(1)) });
    assert_eq!(p.disconnect(&msg).packet, CbPacket::KickDisconnect { reason: msg.to_json() });
    assert_eq!(p.disconnect(&msg).conn, 101);
    assert_eq!(
        address(9, vec![CbPacket::UnloadChunk { chunk_x_v1_9: None, chunk_z_v1_9: None }])[0].conn,
        9
    );
}

#[test]
fn players_leave() {
    let mut w = world_with(3);
    assert_eq!(w.find_player(UUID(2)), Some(2));
    let gone = w.remove_player(UUID(1)).unwrap();
    assert_eq!(gone.eid(), 2);
    assert_eq!(w.player_count(), 2);
    assert_eq!(w.find_player(UUID(2)), Some(1));
    assert_eq!(w.find_player(UUID(1)), None);
    assert!(w.remove_player(UUID(1)).is_none());
    assert_eq!(w.player_count(), 2);
}

#[test]
fn inventory_slots() {
    let mut inv = PlayerInventory::new();
    assert_eq!(inv.selected_index(), 0);
    assert_eq!(*inv.main_hand(), Stack::empty());
    let packet = inv.set(38, Stack::new(5, 64));
    assert_eq!(packet, CbPacket::SetSlot { window_id: 0, slot: 38, item: 5, amount: 64 });
    assert_eq!(*inv.get(38), Stack::new(5, 64));
    assert_eq!(*inv.get(37), Stack::empty());
    assert!(inv.set_selected(2));
    assert_eq!(*inv.main_hand(), Stack::new(5, 64));
    assert!(inv.set_selected(8));
    assert_eq!(*inv.main_hand(), Stack::empty());
    assert!(!inv.set_selected(9));
    assert_eq!(inv.selected_index(), 8);
    inv.set(44, Stack::new(1, 1));
    assert_eq!(*inv.main_hand(), Stack::new(1, 1));
    inv.set(45, Stack::new(2, 2));
    assert_eq!(*inv.get(45), Stack::new(2, 2));
}

#[test]
fn plugin_surface() {
    assert_eq!(log_from_level(1), Some(Level::Error));
    assert_eq!(log_from_level(2), Some(Level::Warn));
    assert_eq!(log_from_level(3), Some(Level::Info));
    assert_eq!(log_from_level(4), Some(Level::Debug));
    assert_eq!(log_from_level(5), Some(Level::Trace));
    assert_eq!(log_from_level(0), None);
    assert_eq!(log_from_level(6), None);
    assert_eq!(init(), Level::Info);
    assert!(enabled(Level::Error) && enabled(Level::Info));
    assert!(!enabled(Level::Debug) && !enabled(Level::Trace));
    let mut b = instance();
    let pos = Pos::new(1, 2, 3);
    assert_eq!(b.on_block_place(UUID(7), pos), None);
    b.set_on_block_place(11);
    b.set_on_block_place(12);
    assert_eq!(b.on_block_place(UUID(7), pos), Some(Call { handler: 12, player: UUID(7), pos }));
    assert!(username_fits(5, 10, 5, 15));
    assert!(!username_fits(6, 10, 5, 100));
    assert!(!username_fits(5, 11, 5, 15));
    assert!(username_fits(0, u32::MAX, 0, u32::MAX as usize));
    assert_eq!(UUID::from_words([1, 2, 3, 4]), UUID((4u128 << 96) | (3 << 64) | (2 << 32) | 1));
    assert_eq!(UUID::from_u128(5).as_u128(), 5);
    let p = SlPos::new(5, 6, 7);
    assert_eq!((p.x(), p.y(), p.z()), (5, 6, 7));
}

#[test]
fn block_behaviors() {
    assert_eq!(Log.place(Face::West), Axis::X);
    assert_eq!(Log.place(Face::East), Axis::X);
    assert_eq!(Log.place(Face::Top), Axis::Y);
    assert_eq!(Log.place(Face::Bottom), Axis::Y);
    assert_eq!(Log.place(Face::North), Axis::Z);
    assert_eq!(Log.place(Face::South), Axis::Z);
    assert_eq!(Axis::Z.name(), "Z");
    assert!(Falling.update_place(0));
    assert!(!Falling.update_place(1));
    assert!(Falling.update(10, 9, 0));
    assert!(!Falling.update(10, 9, 3));
    assert!(!Falling.update(10, 10, 0));
    assert!(!Falling.update(10, 11, 0));
}

#[test]
fn entities() {
    let at = FPos::new(1, 2, 3).unwrap();
    let mut e = Entity::new(4, 9, at);
    assert_eq!((e.eid(), e.ty(), e.pos(), e.health()), (4, 9, at, 20 * 4096));
    assert!(!e.should_despawn());
    e.health = 0;
    assert!(e.should_despawn());
    assert_eq!(e.exp_count(), 0);
    e.set_vel(Vec3 { x: 1, y: -2, z: 3 });
    assert_eq!(e.pos.vel, Vec3 { x: 1, y: -2, z: 3 });
    assert_eq!(e.pos(), at);
    let orb = Entity::new_custom(5, 2, at, Behavior::ExpOrb { count: 7 });
    assert_eq!(orb.exp_count(), 7);
    assert_eq!(orb.health(), 0);
    assert!(!orb.should_despawn());
    assert!(!Entity::new_custom(6, 3, at, Behavior::FallingBlock { landed: false }).should_despawn());
    assert!(Entity::new_custom(6, 3, at, Behavior::FallingBlock { landed: true }).should_despawn());
}

#[test]
fn states_of_a_block() {
    let b = Block::new(
        1,
        "lever".into(),
        vec![
            Prop { name: "face".into(), kind: PropKind::Enum(vec!["floor".into(), "wall".into(), "ceiling".into()]) },
            Prop { name: "powered".into(), kind: PropKind::Bool },
            Prop { name: "level".into(), kind: PropKind::Int { min: 1, max: 2 } },
        ],
    );
    assert_eq!(b.properties[0].len(), 3);
    assert_eq!(b.properties[1].len(), 2);
    assert_eq!(b.properties[2].len(), 2);
    assert_eq!(b.state_count(), Some(12));
    let states = b.all_states();
    assert_eq!(states.len(), 12);
    // the first property changes fastest
    let face = |s: &State| s.enum_prop("face").to_string();
    assert_eq!(face(&states[0]), "floor");
    assert_eq!(face(&states[1]), "wall");
    assert_eq!(face(&states[2]), "ceiling");
    assert_eq!(face(&states[3]), "floor");
    assert!(!states[2].bool_prop("powered"));
    assert!(states[3].bool_prop("powered"));
    assert_eq!(states[5].prop("level").kind, StatePropKind::Int(0));
    assert_eq!(states[6].prop("level").kind, StatePropKind::Int(1));
    assert_eq!(
        states[11].props,
        vec![
            StateProp { name: "face".into(), kind: StatePropKind::Enum(2, "ceiling".into()) },
            StateProp { name: "powered".into(), kind: StatePropKind::Bool(true) },
            StateProp { name: "level".into(), kind: StatePropKind::Int(1) },
        ]
    );
    assert_eq!(states[0].find("powered"), Some(1));
    assert_eq!(states[0].find("missing"), None);
    assert_eq!(
        b.properties[0].state(1),
        StateProp { name: "face".into(), kind: StatePropKind::Enum(1, "wall".into()) }
    );
    assert_eq!(Material::from_kind("AIR"), Material::Air);
    assert_eq!(Material::from_kind("STONE"), Material::Stone);
    assert_eq!(Material::from_kind("WOOD"), Material::Unknown);
    assert_eq!(Material::default(), Material::Air);
    let huge = Block::new(
        2,
        "huge".into(),
        (0..29).map(|_| Prop { name: "p".into(), kind: PropKind::Bool }).collect(),
    );
    assert_eq!(huge.state_count(), None);
}

#[test]
fn tag_errors_and_items() {
    assert_eq!(Error::custom("broken"), Error::Message("broken".into()));
    assert_eq!(Error::custom("broken").message(), "broken");
    assert_eq!(Error::Eof.message(), "unexpected end of input");
    assert_eq!(Error::NoUnitType.message(), "there is no none type in NBT");
    let items = generate_items(vec![("Air".into(), 0), ("Stone".into(), 64), ("Egg".into(), 16)]);
    assert_eq!(items.len(), 3);
    assert_eq!(items[0].display_name(), "Air");
    assert_eq!(items[1].display_name(), "Stone");
    assert_eq!(items[2].stack_size(), 16);
    assert_eq!(items[1], Data::new("Stone".into(), 64));
    assert!(generate_items(vec![]).is_empty());
}

#[test]
fn versions_are_ordered() {
    assert!(ProtocolVersion::V1_16_5.at_least(ProtocolVersion::V1_16_2));
    assert!(ProtocolVersion::V1_16_2.at_least(ProtocolVersion::V1_16_2));
    assert!(!ProtocolVersion::V1_16_1.at_least(ProtocolVersion::V1_16_2));
    assert!(!ProtocolVersion::V1_8.at_least(ProtocolVersion::V1_9));
    assert_eq!(ProtocolVersion::V1_12_2.id(), 340);
    assert_eq!(ProtocolVersion::from_id(47), Some(ProtocolVersion::V1_8));
    assert_eq!(ProtocolVersion::from_id(754), Some(ProtocolVersion::V1_16_5));
    assert_eq!(ProtocolVersion::from_id(48), None);
    for i in 0..16 {
        assert_eq!(ProtocolVersion::from_index(i).unwrap().to_index(), i);
    }
    assert_eq!(ProtocolVersion::from_index(16), None);
    assert_eq!(ProtocolVersion::V1_8.block(), BlockVersion::V1_8);
    assert_eq!(ProtocolVersion::V1_9_4.block(), BlockVersion::V1_9);
    assert_eq!(ProtocolVersion::V1_12_2.block(), BlockVersion::V1_12);
    assert_eq!(ProtocolVersion::V1_16_5.block(), BlockVersion::V1_16);
    assert_eq!(BlockVersion::latest(), BlockVersion::V1_16);
    assert!(BlockVersion::V1_16.is_latest());
    assert!(!BlockVersion::V1_15.is_latest());
    assert_eq!(BlockVersion::V1_13.to_index(), 5);
}

#[test]
fn scripts_name_their_modules() {
    assert_eq!(module_name("plug"), Some("Plug".to_string()));
    assert_eq!(module_name("a"), Some("A".to_string()));
    assert_eq!(module_name("zebra_crossing"), Some("Zebra_crossing".to_string()));
    assert_eq!(module_name("Plug"), Some("Plug".to_string()));
    assert_eq!(module_name("9lives"), Some("9lives".to_string()));
    assert_eq!(module_name("_x"), Some("_x".to_string()));
    assert_eq!(module_name("{x"), Some("{x".to_string()));
    assert_eq!(module_name("`x"), Some("`x".to_string()));
    assert_eq!(module_name("héllo"), Some("Héllo".to_string()));
    assert_eq!(module_name(""), None);
    assert_eq!(module_name("éa"), None);
}
