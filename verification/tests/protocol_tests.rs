use sugarcane::changes::{serialize_multi_block_change, pack_records, records, section_coord};
use sugarcane::conn::{step, ConnState, Effect, Event};
use sugarcane::conv::{BlockIds, EntityIds, ItemIds, TypeConverter};
use sugarcane::fields::{Atom, Count, Kind};
use sugarcane::idgen::{id_source, pascal_names, render_ids};
use sugarcane::ids::{
    canonical_id, canonical_names, collect_names, generate_ids, generate_wire, has_name, tables_of,
    Generator, PacketVersion,
};
use sugarcane::math::{ChunkPos, Pos, RelPos};
use sugarcane::packet::{BlockRecord, CbPacket, SbPacket, UUID};
use sugarcane::protocol::{CountType, FloatType, IntType, Packet, PacketField, Version};
use sugarcane::stream::{Packet as WirePacket, StreamError};
use sugarcane::translate::{
    cb_atoms, cb_name, double_atom, kind_of, pack_position, packet_kind, sb_packet, single_atom,
    unpack_position,
};
use sugarcane::version::{BlockVersion, ProtocolVersion};
use sugarcane::world::ChunkChange;
use sugarcane::writer::{
    read_type, undo, writer_name, Cond, Expr, Instr, Op, Packet as ProgramPacket, RType, SetResult, Value,
    VarBlock, WriterGen,
};

fn packet(name: &str) -> Packet {
    Packet { name: name.into(), fields: vec![] }
}

fn old_version() -> Version {
    Version {
        to_client: vec![packet("keep_alive"), packet("login"), packet("chat")],
        to_server: vec![packet("keep_alive"), packet("chat")],
    }
}

fn new_version() -> Version {
    Version {
        to_client: vec![packet("unload_chunk"), packet("chat"), packet("keep_alive")],
        to_server: vec![packet("teleport_confirm"), packet("keep_alive")],
    }
}

fn versions() -> Vec<(ProtocolVersion, Version)> {
    vec![(ProtocolVersion::V1_8, old_version()), (ProtocolVersion::V1_16_2, new_version())]
}

fn strings(v: &[&str]) -> Vec<String> {
    v.iter().map(|s| s.to_string()).collect()
}

#[test]
fn canonical_names_are_the_sorted_union() {
    let v = versions();
    assert_eq!(
        collect_names(&v, true),
        strings(&["keep_alive", "login", "chat", "unload_chunk"])
    );
    assert_eq!(canonical_names(&v, true), strings(&["chat", "keep_alive", "login", "unload_chunk"]));
    assert_eq!(canonical_names(&v, false), strings(&["chat", "keep_alive", "teleport_confirm"]));
    assert!(canonical_names(&vec![], true).is_empty());
}

#[test]
fn canonical_ids_count_from_one() {
    let names = strings(&["chat", "keep_alive", "login"]);
    assert_eq!(canonical_id(&names, &"chat".to_string()), 1);
    assert_eq!(canonical_id(&names, &"login".to_string()), 3);
    assert_eq!(canonical_id(&names, &"nothing".to_string()), 0);
    assert!(has_name(&names, &"keep_alive".to_string()));
    assert!(!has_name(&names, &"keep".to_string()));
}

#[test]
fn id_tables_of_a_version() {
    let names = strings(&["chat", "keep_alive", "login", "unload_chunk"]);
    let old = old_version().to_client;
    // canonical id -> id on the wire: nothing for "no packet", chat is 2, keep_alive 0, login 1
    assert_eq!(generate_ids(&old, &names), vec![None, Some(2), Some(0), Some(1)]);
    assert_eq!(generate_wire(&old, &names), vec![Some(2), Some(3), Some(1)]);
    let new = new_version().to_client;
    assert_eq!(generate_ids(&new, &names), vec![None, Some(1), Some(2), None, Some(0)]);
    assert_eq!(generate_wire(&new, &names), vec![Some(4), Some(1), Some(2)]);
    // a name that is not canonical has id 0, and the last of two equal names counts
    let odd = vec![packet("mystery"), packet("chat"), packet("chat")];
    assert_eq!(generate_ids(&odd, &names), vec![Some(0), Some(2)]);
    assert_eq!(generate_wire(&odd, &names), vec![None, Some(1), Some(1)]);
    assert!(generate_ids(&vec![], &names).is_empty());
}

#[test]
fn translation_is_the_identity_on_what_a_version_has() {
    let names = strings(&["chat", "keep_alive", "login", "unload_chunk"]);
    for packets in [old_version().to_client, new_version().to_client] {
        let t = PacketVersion::new(packets, &names);
        for c in 1..=names.len() {
            if let Some(w) = t.to_wire(c) {
                assert_eq!(t.to_canonical(w), Some(c));
            }
        }
        assert_eq!(t.to_wire(99), None);
        assert_eq!(t.to_canonical(99), None);
    }
}

#[test]
fn generator_translates_ids_per_version() {
    let g = Generator::new(versions());
    assert_eq!(g.cb_names, strings(&["chat", "keep_alive", "login", "unload_chunk"]));
    assert_eq!(g.sb_names, strings(&["chat", "keep_alive", "teleport_confirm"]));
    // chat is canonical id 1: id 2 on the old version, id 1 on the new one
    assert_eq!(
        g.clientbound(ProtocolVersion::V1_8, 1, vec![7]),
        Ok(vec![WirePacket::new(2, vec![7])])
    );
    assert_eq!(
        g.clientbound(ProtocolVersion::V1_16_2, 1, vec![7]),
        Ok(vec![WirePacket::new(1, vec![7])])
    );
    // the versions around 1.16.2 share its tables
    assert_eq!(tables_of(ProtocolVersion::V1_16_5), ProtocolVersion::V1_16_2);
    assert_eq!(tables_of(ProtocolVersion::V1_12_2), ProtocolVersion::V1_12_2);
    assert_eq!(
        g.clientbound(ProtocolVersion::V1_16_5, 2, vec![]),
        Ok(vec![WirePacket::new(2, vec![])])
    );
    // a packet that the version does not have is dropped
    assert_eq!(g.clientbound(ProtocolVersion::V1_8, 4, vec![1]), Ok(vec![]));
    assert_eq!(g.clientbound(ProtocolVersion::V1_16_2, 3, vec![1]), Ok(vec![]));
    assert_eq!(g.clientbound(ProtocolVersion::V1_8, 99, vec![1]), Ok(vec![]));
    // a version without tables
    assert_eq!(g.clientbound(ProtocolVersion::V1_12_2, 1, vec![]), Err(StreamError::InvalidData));
    // from the wire
    assert_eq!(g.serverbound(ProtocolVersion::V1_8, WirePacket::new(1, vec![5])), Ok((1, vec![5])));
    assert_eq!(
        g.serverbound(ProtocolVersion::V1_16_3, WirePacket::new(0, vec![5])),
        Ok((3, vec![5]))
    );
    assert_eq!(
        g.serverbound(ProtocolVersion::V1_8, WirePacket::new(2, vec![])),
        Err(StreamError::InvalidData)
    );
    assert_eq!(
        g.serverbound(ProtocolVersion::V1_8, WirePacket::new(-1, vec![])),
        Err(StreamError::InvalidData)
    );
    assert_eq!(
        g.serverbound(ProtocolVersion::V1_9, WirePacket::new(0, vec![])),
        Err(StreamError::InvalidData)
    );
}

#[test]
fn later_description_of_a_version_counts() {
    let twice = vec![
        (ProtocolVersion::V1_8, old_version()),
        (ProtocolVersion::V1_8, new_version()),
    ];
    let g = Generator::new(twice);
    assert_eq!(
        g.cb[0].as_ref().unwrap().packets.iter().map(|p| p.name.clone()).collect::<Vec<_>>(),
        strings(&["unload_chunk", "chat", "keep_alive"])
    );
    assert!(g.cb[1].is_none());
}

#[test]
fn id_source_names_variants_in_pascal_case() {
    let names = strings(&["keep_alive", "chat"]);
    assert_eq!(pascal_names(&names), Some(strings(&["KeepAlive", "Chat"])));
    assert_eq!(
        id_source(&names, false).unwrap(),
        "/// Auto generated packet ids. This is a combination of all packet\n/// names for all versions. Some of these packets are never used.\n#[derive(Clone, Copy, Debug, FromPrimitive, ToPrimitive, PartialEq, Eq, Hash)]\npub enum ID {\n  None,\n  KeepAlive,\n  Chat,\n}\n"
    );
    assert_eq!(
        id_source(&names, true).unwrap(),
        "/// Auto generated packet ids. This is a combination of all packet\n/// names for all versions. Some of these packets are never used.\n#[derive(Clone, Copy, Debug, FromPrimitive, ToPrimitive, PartialEq, Eq, Hash)]\npub enum ID {\n  None,\n  KeepAlive,\n  Chat,\n}\nimpl ID {\n  pub fn from_str(s: &str) -> Self {\n    match s {\n      \"keep_alive\" => ID::KeepAlive,\n      \"chat\" => ID::Chat,\n      _ => ID::None,\n    }\n  }\n}\n"
    );
    assert_eq!(
        render_ids(&strings(&["a"]), &strings(&["B"]), true),
        "/// Auto generated packet ids. This is a combination of all packet\n/// names for all versions. Some of these packets are never used.\n#[derive(Clone, Copy, Debug, FromPrimitive, ToPrimitive, PartialEq, Eq, Hash)]\npub enum ID {\n  None,\n  B,\n}\nimpl ID {\n  pub fn from_str(s: &str) -> Self {\n    match s {\n      \"a\" => ID::B,\n      _ => ID::None,\n    }\n  }\n}\n"
    );
}

#[test]
fn names_that_are_not_ascii_get_no_variant() {
    // a lower case letter before an upper case letter of two bytes
    let odd = strings(&["chat", "a\u{c9}", "keep_alive"]);
    assert_eq!(pascal_names(&odd), None);
    assert_eq!(id_source(&odd, true), None);
    assert_eq!(id_source(&strings(&["\u{e9}"]), false), None);
    assert_eq!(pascal_names(&vec![]), Some(vec![]));
    let plain = strings(&["", "a-b c", "HTTPServer9x", "x_1"]);
    assert_eq!(pascal_names(&plain), Some(strings(&["", "ABC", "HttpServer9X", "X1"])));
}

#[test]
fn packet_fields_unwrap_themselves() {
    let c = PacketField::Container(vec![("a".into(), PacketField::Bool)]);
    assert_eq!(c.into_container(), Some(vec![("a".to_string(), PacketField::Bool)]));
    assert_eq!(PacketField::Bool.into_container(), None);
    assert_eq!(PacketField::CompareTo("x".into()).into_compare(), Some("x".to_string()));
    assert_eq!(PacketField::DefinedType("x".into()).into_compare(), None);
    assert_eq!(PacketField::DefinedType("y".into()).into_defined(), Some("y".to_string()));
    assert_eq!(PacketField::String.into_defined(), None);
}

#[test]
fn descriptions_become_kinds() {
    assert_eq!(kind_of(&PacketField::Bool), Some(Kind::Bool));
    assert_eq!(kind_of(&PacketField::Position), Some(Kind::Int(IntType::I64)));
    assert_eq!(kind_of(&PacketField::String), Some(Kind::Str));
    assert_eq!(kind_of(&PacketField::RestBuffer), Some(Kind::Rest));
    assert_eq!(kind_of(&PacketField::Float(FloatType::F32)), Some(Kind::Float(FloatType::F32)));
    assert_eq!(
        kind_of(&PacketField::Option(Box::new(PacketField::UUID))),
        Some(Kind::Opt(Box::new(Kind::UUID)))
    );
    assert_eq!(
        kind_of(&PacketField::Array {
            count: CountType::Typed(IntType::VarInt),
            value: Box::new(PacketField::Int(IntType::I16)),
        }),
        Some(Kind::Array(Count::Typed(IntType::VarInt), Box::new(Kind::Int(IntType::I16))))
    );
    assert_eq!(
        kind_of(&PacketField::Buffer(CountType::Fixed(4))),
        Some(Kind::Buffer(Count::Fixed(4)))
    );
    assert_eq!(kind_of(&PacketField::Buffer(CountType::Named("n".into()))), None);
    assert_eq!(kind_of(&PacketField::NBT), None);
    assert_eq!(kind_of(&PacketField::Slot), None);
    assert_eq!(kind_of(&PacketField::Native), None);
    assert_eq!(kind_of(&PacketField::Option(Box::new(PacketField::EntityMetadata))), None);
    let p = Packet {
        name: "chat".into(),
        fields: vec![
            ("message".into(), PacketField::String),
            ("position".into(), PacketField::Int(IntType::I8)),
        ],
    };
    assert_eq!(packet_kind(&p), Some(Kind::Container(vec![Kind::Str, Kind::Int(IntType::I8)])));
    let hard = Packet {
        name: "slot".into(),
        fields: vec![("a".into(), PacketField::Bool), ("b".into(), PacketField::Slot)],
    };
    assert_eq!(packet_kind(&hard), None);
    assert_eq!(packet_kind(&packet("empty")), Some(Kind::Container(vec![])));
}

#[test]
fn block_positions_in_64_bits() {
    let old = ProtocolVersion::V1_8;
    let new = ProtocolVersion::V1_14;
    let p = Pos::new(3, 64, 3);
    assert_eq!(pack_position(p, old), (3i64 << 38) | (64 << 26) | 3);
    assert_eq!(pack_position(p, new), (3i64 << 38) | (3 << 12) | 64);
    let q = Pos::new(-1, -1, -1);
    assert_eq!(pack_position(q, old), -1);
    assert_eq!(pack_position(q, new), -1);
    for ver in [old, ProtocolVersion::V1_12_2, new, ProtocolVersion::V1_16_5] {
        for pos in [
            p,
            q,
            Pos::new(0, 0, 0),
            Pos::new(-33554432, -2048, 33554431),
            Pos::new(33554431, 2047, -33554432),
            Pos::new(-30000000, 255, 30000000),
        ] {
            assert_eq!(unpack_position(pack_position(pos, ver), ver), pos, "{:?} {:?}", pos, ver);
        }
    }
    assert_eq!(unpack_position(0x7fff_ffff_ffff_ffff, old), Pos::new(33554431, -1, -1));
    assert_eq!(unpack_position(i64::MIN, old), Pos::new(-33554432, 0, 0));
}

#[test]
fn canonical_packets_become_values() {
    let keep = CbPacket::KeepAlive {
        keep_alive_id_v1_8: Some(1234556),
        keep_alive_id_v1_12_2: Some(1234556),
    };
    assert_eq!(cb_name(&keep), "keep_alive");
    assert_eq!(cb_atoms(&keep, ProtocolVersion::V1_8), Some(vec![Atom::Int(1234556)]));
    assert_eq!(cb_atoms(&keep, ProtocolVersion::V1_16_5), Some(vec![Atom::Int(1234556)]));
    let half = CbPacket::KeepAlive { keep_alive_id_v1_8: Some(1), keep_alive_id_v1_12_2: None };
    assert_eq!(cb_atoms(&half, ProtocolVersion::V1_12), Some(vec![Atom::Int(1)]));
    assert_eq!(cb_atoms(&half, ProtocolVersion::V1_12_2), None);

    let unload = CbPacket::UnloadChunk { chunk_x_v1_9: Some(4), chunk_z_v1_9: Some(-7) };
    assert_eq!(cb_atoms(&unload, ProtocolVersion::V1_8), None);
    assert_eq!(cb_atoms(&unload, ProtocolVersion::V1_9), Some(vec![Atom::Int(4), Atom::Int(-7)]));

    let mv = CbPacket::RelEntityMove {
        entity_id: 1,
        d_x_v1_8: Some(8),
        d_x_v1_9: Some(1024),
        d_y_v1_8: Some(0),
        d_y_v1_9: Some(0),
        d_z_v1_8: Some(-1),
        d_z_v1_9: Some(-128),
        on_ground: true,
    };
    assert_eq!(cb_name(&mv), "rel_entity_move");
    assert_eq!(
        cb_atoms(&mv, ProtocolVersion::V1_8),
        Some(vec![Atom::Int(1), Atom::Int(8), Atom::Int(0), Atom::Int(-1), Atom::Bool(true)])
    );
    assert_eq!(
        cb_atoms(&mv, ProtocolVersion::V1_12_2),
        Some(vec![Atom::Int(1), Atom::Int(1024), Atom::Int(0), Atom::Int(-128), Atom::Bool(true)])
    );

    let pos = CbPacket::Position {
        x: 0,
        y: 60 * 4096,
        z: 1024,
        yaw: 90 * 4096,
        pitch: 0,
        flags: 0,
        teleport_id_v1_9: Some(1234),
    };
    assert_eq!(
        cb_atoms(&pos, ProtocolVersion::V1_12_2),
        Some(vec![
            Atom::Double(0.0f64.to_bits()),
            Atom::Double(60.0f64.to_bits()),
            Atom::Double(0.25f64.to_bits()),
            Atom::Float(90.0f32.to_bits()),
            Atom::Float(0.0f32.to_bits()),
            Atom::Int(0),
            Atom::Int(1234),
        ])
    );
    assert_eq!(cb_atoms(&pos, ProtocolVersion::V1_8).unwrap().len(), 6);
    let far = CbPacket::Position {
        x: 1 << 53,
        y: 0,
        z: 0,
        yaw: 0,
        pitch: 0,
        flags: 0,
        teleport_id_v1_9: Some(1),
    };
    assert_eq!(cb_atoms(&far, ProtocolVersion::V1_9), None);
    assert_eq!(double_atom(-4096), Some(Atom::Double((-1.0f64).to_bits())));
    assert_eq!(double_atom(-(1 << 53)), None);
    assert_eq!(single_atom(2048), Some(Atom::Float(0.5f32.to_bits())));
    assert_eq!(single_atom(1 << 24), None);

    let chat = CbPacket::Chat { message: "hé".into(), position: 2, sender_v1_16: Some(UUID(9)) };
    assert_eq!(
        cb_atoms(&chat, ProtocolVersion::V1_15),
        Some(vec![Atom::Bytes(vec![b'h', 0xc3, 0xa9]), Atom::Int(2)])
    );
    assert_eq!(
        cb_atoms(&chat, ProtocolVersion::V1_16),
        Some(vec![Atom::Bytes(vec![b'h', 0xc3, 0xa9]), Atom::Int(2), Atom::UUID(9)])
    );

    let change = CbPacket::BlockChange { location: Pos::new(3, 64, 3), type_: 0 };
    assert_eq!(
        cb_atoms(&change, ProtocolVersion::V1_12_2),
        Some(vec![Atom::Int((3i64 << 38) | (64 << 26) | 3), Atom::Int(0)])
    );

    let many = CbPacket::MultiBlockChange {
        chunk_x_removed_v1_16_2: Some(1),
        chunk_z_removed_v1_16_2: Some(2),
        chunk_coordinates_v1_16_2: None,
        not_trust_edges_v1_16_2: None,
        records_v1_8: Some(vec![
            BlockRecord { x: 1, y: 2, z: 3, block: 4 },
            BlockRecord { x: 15, y: 255, z: 15, block: 5 },
        ]),
        records_v1_16_2: None,
    };
    assert_eq!(
        cb_atoms(&many, ProtocolVersion::V1_8),
        Some(vec![
            Atom::Int(1),
            Atom::Int(2),
            Atom::Count(2),
            Atom::Int(19),
            Atom::Int(2),
            Atom::Int(4),
            Atom::Int(255),
            Atom::Int(255),
            Atom::Int(5),
        ])
    );
    assert_eq!(cb_atoms(&many, ProtocolVersion::V1_16_2), None);
}

#[test]
fn values_become_canonical_packets() {
    let v = ProtocolVersion::V1_12_2;
    assert_eq!(sb_packet("keep_alive", &vec![Atom::Int(7)], v), Some(SbPacket::KeepAlive { id: 7 }));
    assert_eq!(sb_packet("keep_alive", &vec![Atom::Bool(true)], v), None);
    assert_eq!(sb_packet("keep_alive", &vec![], v), None);
    assert_eq!(sb_packet("unknown", &vec![Atom::Int(7)], v), None);
    assert_eq!(
        sb_packet(
            "position",
            &vec![
                Atom::Double(0.25f64.to_bits()),
                Atom::Double(60.0f64.to_bits()),
                Atom::Double(0.0f64.to_bits()),
                Atom::Bool(true),
            ],
            v
        ),
        Some(SbPacket::PlayerPosition { x: 1024, y: 60 * 4096, z: 0, on_ground: true })
    );
    assert_eq!(
        sb_packet(
            "position",
            &vec![
                Atom::Double(f64::NAN.to_bits()),
                Atom::Double(60.0f64.to_bits()),
                Atom::Double(0.0f64.to_bits()),
                Atom::Bool(true),
            ],
            v
        ),
        None
    );
    assert_eq!(
        sb_packet(
            "look",
            &vec![Atom::Float(45.5f32.to_bits()), Atom::Float((-90.0f32).to_bits()), Atom::Bool(false)],
            v
        ),
        Some(SbPacket::PlayerLook { yaw: 45 * 4096 + 2048, pitch: -90 * 4096, on_ground: false })
    );
    assert_eq!(
        sb_packet(
            "position_look",
            &vec![
                Atom::Double(1.0f64.to_bits()),
                Atom::Double(2.0f64.to_bits()),
                Atom::Double(3.0f64.to_bits()),
                Atom::Float(4.0f32.to_bits()),
                Atom::Float(5.0f32.to_bits()),
                Atom::Bool(true),
            ],
            v
        ),
        Some(SbPacket::PlayerPositionLook {
            x: 4096,
            y: 8192,
            z: 12288,
            yaw: 16384,
            pitch: 20480,
            on_ground: true,
        })
    );
    assert_eq!(
        sb_packet(
            "block_dig",
            &vec![Atom::Int(2), Atom::Int((3i64 << 38) | (64 << 26) | 3), Atom::Int(1)],
            v
        ),
        Some(SbPacket::BlockDig { location: Pos::new(3, 64, 3), status: 2, face: 1 })
    );
    assert_eq!(
        sb_packet("block_dig", &vec![Atom::Int(256), Atom::Int(0), Atom::Int(1)], v),
        None
    );
    assert_eq!(
        sb_packet("teleport_confirm", &vec![Atom::Int(1234)], v),
        Some(SbPacket::TeleportConfirm { teleport_id: 1234 })
    );
    assert_eq!(sb_packet("teleport_confirm", &vec![Atom::Int(1 << 40)], v), None);
    assert_eq!(
        sb_packet("held_item_slot", &vec![Atom::Int(8)], v),
        Some(SbPacket::HeldItemSlot { slot: 8 })
    );
    assert_eq!(
        sb_packet("chat", &vec![Atom::Bytes("grüß".as_bytes().to_vec())], v),
        Some(SbPacket::Chat { message: "grüß".into() })
    );
    assert_eq!(sb_packet("chat", &vec![Atom::Bytes(vec![0xff, 0xfe])], v), None);
    assert_eq!(
        sb_packet(
            "login",
            &vec![Atom::Bytes(b"Alice".to_vec()), Atom::UUID(77), Atom::Int(340)],
            v
        ),
        Some(SbPacket::Login { username: "Alice".into(), uuid: UUID(77), protocol_version: 340 })
    );
}

fn rp(x: i32, y: i32, z: i32) -> RelPos {
    RelPos::new(x, y, z).unwrap()
}

#[test]
fn records_follow_the_order_of_a_fill() {
    let r = records(rp(1, 0, 5), rp(2, 255, 6), 10, 11, 9);
    let expected: Vec<BlockRecord> = [
        (1, 10, 5),
        (1, 11, 5),
        (1, 10, 6),
        (1, 11, 6),
        (2, 10, 5),
        (2, 11, 5),
        (2, 10, 6),
        (2, 11, 6),
    ]
    .iter()
    .map(|&(x, y, z)| BlockRecord { x, y, z, block: 9 })
    .collect();
    assert_eq!(r, expected);
    assert!(records(rp(2, 0, 0), rp(1, 9, 9), 0, 9, 1).is_empty());
    assert!(records(rp(0, 0, 0), rp(1, 9, 9), 5, 4, 1).is_empty());
    assert_eq!(records(rp(0, 0, 0), rp(15, 0, 15), 255, 255, 1).len(), 256);
    assert_eq!(
        pack_records(&vec![BlockRecord { x: 1, y: 18, z: 3, block: 5 }]),
        vec![5 * 4096 + 256 + 48 + 2]
    );
    assert_eq!(section_coord(ChunkPos::new(1, 2), 3), (1i64 << 42) | (2 << 20) | 3);
    assert_eq!(section_coord(ChunkPos::new(-1, -1), 15), ((0x3f_ffffi64 << 42) | (0x3f_ffff << 20) | 15));
    assert!(section_coord(ChunkPos::new(-1, 0), 0) < 0);
}

fn converter() -> TypeConverter {
    let all = [
        BlockVersion::V1_8,
        BlockVersion::V1_9,
        BlockVersion::V1_10,
        BlockVersion::V1_11,
        BlockVersion::V1_12,
        BlockVersion::V1_13,
        BlockVersion::V1_14,
        BlockVersion::V1_15,
        BlockVersion::V1_16,
    ];
    TypeConverter::new(
        all.iter().map(|&ver| BlockIds { to_old: vec![0, 16, 32], to_new: vec![0; 33], ver }).collect(),
        all.iter().map(|&ver| ItemIds { to_old: vec![], to_new: vec![], ver }).collect(),
        all.iter().map(|&ver| EntityIds { to_old: vec![], to_new: vec![], ver }).collect(),
    )
    .unwrap()
}

#[test]
fn a_fill_is_told_per_chunk_or_per_section() {
    let conv = converter();
    let change = ChunkChange { chunk: ChunkPos::new(2, -3), min: rp(0, 14, 0), max: rp(0, 17, 1) };
    let old = serialize_multi_block_change(&change, 2, ProtocolVersion::V1_12_2, &conv);
    assert_eq!(old.len(), 1);
    match &old[0] {
        CbPacket::MultiBlockChange {
            chunk_x_removed_v1_16_2,
            chunk_z_removed_v1_16_2,
            records_v1_8,
            records_v1_16_2,
            ..
        } => {
            assert_eq!(*chunk_x_removed_v1_16_2, Some(2));
            assert_eq!(*chunk_z_removed_v1_16_2, Some(-3));
            assert_eq!(*records_v1_16_2, None);
            let r = records_v1_8.as_ref().unwrap();
            assert_eq!(r.len(), 8);
            assert_eq!(r[0], BlockRecord { x: 0, y: 14, z: 0, block: 32 });
            assert_eq!(r[7], BlockRecord { x: 0, y: 17, z: 1, block: 32 });
        }
        other => panic!("expected a change of many blocks, got {:?}", other),
    }
    let new = serialize_multi_block_change(&change, 2, ProtocolVersion::V1_16_5, &conv);
    assert_eq!(new.len(), 2);
    match (&new[0], &new[1]) {
        (
            CbPacket::MultiBlockChange {
                chunk_coordinates_v1_16_2: Some(low),
                not_trust_edges_v1_16_2: Some(false),
                records_v1_16_2: Some(first),
                records_v1_8: None,
                ..
            },
            CbPacket::MultiBlockChange {
                chunk_coordinates_v1_16_2: Some(high),
                records_v1_16_2: Some(second),
                ..
            },
        ) => {
            assert_eq!(*low, section_coord(ChunkPos::new(2, -3), 0));
            assert_eq!(*high, section_coord(ChunkPos::new(2, -3), 1));
            // heights 14 and 15 in the lower section, 16 and 17 in the upper
            assert_eq!(first, &vec![2 * 4096 + 14, 2 * 4096 + 15, 2 * 4096 + 16 + 14, 2 * 4096 + 16 + 15]);
            assert_eq!(second, &vec![2 * 4096, 2 * 4096 + 1, 2 * 4096 + 16, 2 * 4096 + 16 + 1]);
        }
        other => panic!("expected two changes of sections, got {:?}", other),
    }
    let empty = ChunkChange { chunk: ChunkPos::new(0, 0), min: rp(1, 0, 0), max: rp(0, 0, 0) };
    assert!(serialize_multi_block_change(&empty, 2, ProtocolVersion::V1_8, &conv).is_empty());
    assert!(serialize_multi_block_change(&empty, 2, ProtocolVersion::V1_16_5, &conv).is_empty());
}

#[test]
fn connection_states() {
    let hello = |protocol_version, next_state| Event::Handshake { protocol_version, next_state };
    assert_eq!(step(ConnState::Handshake, hello(340, 1)), (ConnState::Status, Effect::Nothing));
    assert_eq!(step(ConnState::Handshake, hello(340, 2)), (ConnState::Login, Effect::Nothing));
    assert_eq!(step(ConnState::Handshake, hello(5, 2)), (ConnState::Closed, Effect::Nothing));
    assert_eq!(step(ConnState::Handshake, hello(5, 1)), (ConnState::Status, Effect::Nothing));
    assert_eq!(step(ConnState::Handshake, hello(340, 3)), (ConnState::Closed, Effect::Nothing));
    assert_eq!(step(ConnState::Handshake, Event::Game), (ConnState::Closed, Effect::Nothing));
    assert_eq!(step(ConnState::Login, Event::LoginStart), (ConnState::Login, Effect::Nothing));
    assert_eq!(
        step(ConnState::Login, Event::CompressionSet { threshold: 256 }),
        (ConnState::Login, Effect::Compress(256))
    );
    assert_eq!(step(ConnState::Login, Event::EncryptionAccepted), (ConnState::Login, Effect::Encrypt));
    assert_eq!(step(ConnState::Login, Event::LoginSuccess), (ConnState::Play, Effect::Nothing));
    assert_eq!(step(ConnState::Play, Event::Game), (ConnState::Play, Effect::Nothing));
    assert_eq!(
        step(ConnState::Play, Event::CompressionSet { threshold: 1 }),
        (ConnState::Closed, Effect::Nothing)
    );
    assert_eq!(step(ConnState::Play, Event::EncryptionAccepted), (ConnState::Closed, Effect::Nothing));
    assert_eq!(step(ConnState::Play, Event::Failure), (ConnState::Closed, Effect::Nothing));
    assert_eq!(step(ConnState::Status, Event::Game), (ConnState::Closed, Effect::Nothing));
    assert_eq!(step(ConnState::Closed, Event::LoginSuccess), (ConnState::Closed, Effect::Nothing));
}

fn read_call(method: &str, ops: Vec<Op>) -> Expr {
    let mut all = vec![Op::Call("tcp::Packet".into(), method.into(), vec![])];
    all.extend(ops);
    Expr { initial: Value::Var(1), ops: all }
}

fn write_call(method: &str, field: &str, ops: Vec<Op>) -> Instr {
    Instr::Expr(Expr {
        initial: Value::Var(1),
        ops: vec![Op::Call(
            "tcp::Packet".into(),
            method.into(),
            vec![Expr { initial: Value::Field(field.into()), ops }],
        )],
    })
}

#[test]
fn writers_follow_from_readers() {
    assert_eq!(writer_name(&"read_u8".to_string()), "write_u8");
    assert_eq!(writer_name(&"read_".to_string()), "write_");
    assert_eq!(writer_name(&"reads".to_string()), "reads");
    assert_eq!(writer_name(&"peek".to_string()), "peek");
    assert_eq!(read_type(&"read_u8".to_string()), Some("u8".to_string()));
    assert_eq!(read_type(&"read_f64".to_string()), Some("f64".to_string()));
    assert_eq!(read_type(&"read_varint".to_string()), Some("i32".to_string()));
    assert_eq!(read_type(&"read_str".to_string()), None);
    assert_eq!(read_type(&"read_".to_string()), None);
    assert_eq!(read_type(&"u8".to_string()), None);
    // a cast goes back to the type that was read
    let back = Some("u8".to_string());
    assert_eq!(
        undo(
            &vec![Op::Add(1), Op::Cast(RType { name: "i32".into() }), Op::Div(32), Op::BitAnd(15)],
            1,
            &back
        ),
        Some(vec![Op::As(RType { name: "u8".into() }), Op::Mul(32), Op::BitAnd(15)])
    );
    assert_eq!(undo(&vec![Op::Cast(RType { name: "i32".into() })], 0, &None), None);
    assert_eq!(undo(&vec![Op::Div(2)], 0, &None), Some(vec![Op::Mul(2)]));
    assert_eq!(undo(&vec![Op::Div(2), Op::Add(1)], 0, &back), None);
    assert_eq!(undo(&vec![Op::Add(1)], 1, &back), Some(vec![]));

    let reader = VarBlock {
        vars: vec!["this".into(), "buf".into(), "tmp".into()],
        block: vec![
            Instr::SetField("id".into(), read_call("read_varint", vec![])),
            Instr::Let(2, read_call("read_u8", vec![])),
            Instr::SetField("x".into(), read_call("read_i32", vec![Op::Div(32)])),
            Instr::SetField(
                "angle".into(),
                read_call("read_u8", vec![Op::Cast(RType { name: "i32".into() })]),
            ),
            Instr::SetField("unset".into(), Expr { initial: Value::Null, ops: vec![] }),
            Instr::If(
                Cond { field: "has".into(), equals: 1 },
                vec![Instr::SetField("y".into(), read_call("read_u8", vec![Op::BitAnd(7)]))],
                vec![Instr::Return(Expr { initial: Value::Null, ops: vec![] })],
            ),
        ],
    };
    let mut p = ProgramPacket {
        name: "entity".into(),
        reader,
        writer: VarBlock { vars: vec![], block: vec![] },
        manual: false,
    };
    p.generate_writer();
    assert!(!p.manual);
    assert_eq!(
        p.writer.block,
        vec![
            write_call("write_varint", "id", vec![]),
            write_call("write_i32", "x", vec![Op::Mul(32)]),
            write_call("write_u8", "angle", vec![Op::As(RType { name: "u8".into() })]),
            Instr::If(
                Cond { field: "has".into(), equals: 1 },
                vec![write_call("write_u8", "y", vec![Op::BitAnd(7)])],
                vec![],
            ),
        ]
    );
}

#[test]
fn readers_that_cannot_be_turned_round() {
    let gen = WriterGen::new(&VarBlock { vars: vec!["a".into()], block: vec![] }, "p".into());
    let field = "f".to_string();
    // the value does not come from the buffer
    let other = Expr {
        initial: Value::Var(2),
        ops: vec![Op::Call("tcp::Packet".into(), "read_u8".into(), vec![])],
    };
    assert!(matches!(gen.set_expr(&other, &field), SetResult::Manual));
    // a call on another class
    let class = Expr { initial: Value::Var(1), ops: vec![Op::Call("Other".into(), "read".into(), vec![])] };
    assert!(matches!(gen.set_expr(&class, &field), SetResult::Manual));
    // an operation that cannot be undone
    assert!(matches!(gen.set_expr(&read_call("read_u8", vec![Op::Add(1)]), &field), SetResult::Manual));
    // arithmetic without a read
    let plain = Expr { initial: Value::Field("g".into()), ops: vec![Op::Add(1)] };
    assert!(matches!(gen.set_expr(&plain, &field), SetResult::Manual));
    // a value chosen by a condition writes nothing
    let chosen = Expr {
        initial: Value::Null,
        ops: vec![Op::If(
            Cond { field: "c".into(), equals: 0 },
            Box::new(Expr { initial: Value::Null, ops: vec![] }),
        )],
    };
    assert!(matches!(gen.set_expr(&chosen, &field), SetResult::Skip));
    let mut out = Vec::new();
    assert!(!gen.instr(&vec![Instr::Break], &mut out));
    assert!(!gen.instr(&vec![Instr::Expr(Expr { initial: Value::Null, ops: vec![] })], &mut out));
    // a loop and a switch
    assert!(!gen.instr(&vec![Instr::For(0, vec![])], &mut out));
    assert!(!gen.instr(&vec![Instr::Switch("kind".into(), vec![])], &mut out));
    // a cast of a value whose type the method does not name
    let text = read_call("read_str", vec![Op::Cast(RType { name: "i32".into() })]);
    assert!(matches!(gen.set_expr(&text, &field), SetResult::Manual));
    // a variable that the reader does not have
    assert!(!gen.instr(&vec![Instr::Let(1, Expr { initial: Value::Null, ops: vec![] })], &mut out));
    assert!(gen.instr(&vec![Instr::Let(0, Expr { initial: Value::Null, ops: vec![] })], &mut out));
    // a branch with a side that cannot be turned round
    let branch = Instr::If(Cond { field: "c".into(), equals: 0 }, vec![], vec![Instr::Break]);
    assert!(!gen.instr(&vec![branch], &mut out));
    assert!(out.is_empty());
    let mut p = ProgramPacket {
        name: "hard".into(),
        reader: VarBlock { vars: vec![], block: vec![Instr::Break] },
        writer: VarBlock { vars: vec![], block: vec![] },
        manual: false,
    };
    p.generate_writer();
    assert!(p.manual);
    let mut looped = ProgramPacket {
        name: "list".into(),
        reader: VarBlock {
            vars: vec!["this".into(), "buf".into(), "i".into()],
            block: vec![
                Instr::SetField("count".into(), read_call("read_varint", vec![])),
                Instr::For(2, vec![Instr::SetField("item".into(), read_call("read_u8", vec![]))]),
            ],
        },
        writer: VarBlock { vars: vec![], block: vec![] },
        manual: false,
    };
    looped.generate_writer();
    assert!(looped.manual);
}
