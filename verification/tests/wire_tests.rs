use sugarcane::fields::{
    decode, decode_body, encode, encode_body, read_int, write_int, Atom, Count, Kind,
};
use sugarcane::ieee::{from_bits, to_bits, top_bit, Format};
use sugarcane::protocol::{FloatType, IntType};
use sugarcane::wire::{read_be, write_be};

#[test]
fn real_numbers_become_their_bits() {
    let d = Format::double();
    assert_eq!(to_bits(d, 0), 0.0f64.to_bits());
    assert_eq!(to_bits(d, 4096), 1.0f64.to_bits());
    assert_eq!(to_bits(d, -4096), (-1.0f64).to_bits());
    assert_eq!(to_bits(d, 1024), 0.25f64.to_bits());
    assert_eq!(to_bits(d, 1), (1.0f64 / 4096.0).to_bits());
    assert_eq!(to_bits(d, 60 * 4096), 60.0f64.to_bits());
    assert_eq!(to_bits(d, -123456789), (-123456789.0f64 / 4096.0).to_bits());
    assert_eq!(to_bits(d, (1 << 53) - 1), (((1u64 << 53) - 1) as f64 / 4096.0).to_bits());
    let s = Format::single();
    assert_eq!(to_bits(s, 0) as u32, 0.0f32.to_bits());
    assert_eq!(to_bits(s, 90 * 4096) as u32, 90.0f32.to_bits());
    assert_eq!(to_bits(s, -45 * 4096 - 2048) as u32, (-45.5f32).to_bits());
    assert_eq!(to_bits(s, 359 * 4096 + 4095) as u32, (359.0f32 + 4095.0 / 4096.0).to_bits());
}

#[test]
fn bits_become_the_nearest_fixed_point_number() {
    let d = Format::double();
    assert_eq!(from_bits(d, 0.25f64.to_bits()), Some(1024));
    assert_eq!(from_bits(d, (-60.0f64).to_bits()), Some(-60 * 4096));
    assert_eq!(from_bits(d, 0.0f64.to_bits()), Some(0));
    assert_eq!(from_bits(d, (-0.0f64).to_bits()), Some(0));
    // a third is not a whole number of 1/4096: 1365.33 rounds down
    assert_eq!(from_bits(d, (1.0f64 / 3.0).to_bits()), Some(1365));
    assert_eq!(from_bits(d, (2.0f64 / 3.0).to_bits()), Some(2731));
    // halves round away from zero
    assert_eq!(from_bits(d, (1.5f64 / 4096.0).to_bits()), Some(2));
    assert_eq!(from_bits(d, (-2.5f64 / 4096.0).to_bits()), Some(-3));
    assert_eq!(from_bits(d, (0.5f64 / 4096.0).to_bits()), Some(1));
    assert_eq!(from_bits(d, (0.49f64 / 4096.0).to_bits()), Some(0));
    assert_eq!(from_bits(d, 1e-300f64.to_bits()), Some(0));
    assert_eq!(from_bits(d, f64::MIN_POSITIVE.to_bits() / 2), Some(0));
    assert_eq!(from_bits(d, f64::INFINITY.to_bits()), None);
    assert_eq!(from_bits(d, f64::NEG_INFINITY.to_bits()), None);
    assert_eq!(from_bits(d, f64::NAN.to_bits()), None);
    assert_eq!(from_bits(d, 1e300f64.to_bits()), None);
    assert_eq!(from_bits(d, 30_000_000.0f64.to_bits()), Some(30_000_000 * 4096));
    let s = Format::single();
    assert_eq!(from_bits(s, 90.0f32.to_bits() as u64), Some(90 * 4096));
    assert_eq!(from_bits(s, (-0.125f32).to_bits() as u64), Some(-512));
    assert_eq!(from_bits(s, f32::NAN.to_bits() as u64), None);
    for v in [1i64, -1, 7, 4095, 4097, 123456, -8388607, 16777215] {
        assert_eq!(from_bits(s, to_bits(s, v)), Some(v));
        assert_eq!(from_bits(d, to_bits(d, v)), Some(v));
        assert_eq!(f32::from_bits(to_bits(s, v) as u32), v as f32 / 4096.0);
    }
    assert_eq!(top_bit(1), 0);
    assert_eq!(top_bit(255), 7);
    assert_eq!(top_bit(256), 8);
    assert_eq!(top_bit(u64::MAX), 63);
}

#[test]
fn numbers_of_fixed_width() {
    let mut out = vec![9];
    write_be(&mut out, 0x0102_0304, 4);
    assert_eq!(out, vec![9, 1, 2, 3, 4]);
    write_be(&mut out, 0xabcdef, 2);
    assert_eq!(out, vec![9, 1, 2, 3, 4, 0xcd, 0xef]);
    write_be(&mut out, 5, 0);
    assert_eq!(out.len(), 7);
    assert_eq!(read_be(&out, 1, 4), Some(0x0102_0304));
    assert_eq!(read_be(&out, 5, 2), Some(0xcdef));
    assert_eq!(read_be(&out, 6, 2), None);
    assert_eq!(read_be(&out, 7, 0), Some(0));
    assert_eq!(read_be(&out, 8, 0), None);
    let mut wide = Vec::new();
    write_be(&mut wide, u128::MAX - 1, 16);
    assert_eq!(wide.len(), 16);
    assert_eq!(wide[15], 0xfe);
    assert_eq!(read_be(&wide, 0, 16), Some(u128::MAX - 1));
}

#[test]
fn integers_of_every_type() {
    let cases: Vec<(IntType, i64, Vec<u8>)> = vec![
        (IntType::I8, -1, vec![0xff]),
        (IntType::I8, 127, vec![0x7f]),
        (IntType::I8, -128, vec![0x80]),
        (IntType::U8, 255, vec![0xff]),
        (IntType::U16, 25565, vec![0x63, 0xdd]),
        (IntType::I16, -2, vec![0xff, 0xfe]),
        (IntType::I32, -1234556, vec![0xff, 0xed, 0x29, 0x84]),
        (IntType::I64, 1234556, vec![0, 0, 0, 0, 0, 0x12, 0xd6, 0x7c]),
        (IntType::I64, i64::MIN, vec![0x80, 0, 0, 0, 0, 0, 0, 0]),
        (IntType::VarInt, 300, vec![0xac, 0x02]),
        (IntType::VarInt, -1, vec![0xff, 0xff, 0xff, 0xff, 0x0f]),
    ];
    for (t, v, bytes) in cases {
        let mut out = Vec::new();
        assert!(write_int(&mut out, t, v));
        assert_eq!(out, bytes, "{:?} {}", t, v);
        let mut padded = vec![1, 2];
        padded.extend_from_slice(&bytes);
        padded.push(3);
        assert_eq!(read_int(&padded, 2, t), Some((v, 2 + bytes.len())));
    }
    let mut out = Vec::new();
    for (t, v) in [
        (IntType::I8, 128),
        (IntType::I8, -129),
        (IntType::U8, -1),
        (IntType::U8, 256),
        (IntType::U16, 65536),
        (IntType::I16, 32768),
        (IntType::I32, 1 << 31),
        (IntType::VarInt, -(1 << 31) - 1),
        (IntType::OptVarInt, 0),
    ] {
        assert!(!write_int(&mut out, t, v), "{:?} {}", t, v);
    }
    assert!(out.is_empty());
    assert_eq!(read_int(&vec![1], 0, IntType::I16), None);
    assert_eq!(read_int(&vec![0x80], 0, IntType::VarInt), None);
    assert_eq!(read_int(&vec![1], 0, IntType::OptVarInt), None);
    assert_eq!(read_int(&vec![1], 2, IntType::U8), None);
}

fn keep_alive_new() -> Kind {
    Kind::Container(vec![Kind::Int(IntType::I64)])
}

fn chat() -> Kind {
    Kind::Container(vec![Kind::Str, Kind::Int(IntType::I8), Kind::Opt(Box::new(Kind::UUID))])
}

#[test]
fn bodies_are_written_field_by_field() {
    assert_eq!(
        encode_body(&keep_alive_new(), &vec![Atom::Int(1234556)]),
        Some(vec![0, 0, 0, 0, 0, 0x12, 0xd6, 0x7c])
    );
    let atoms = vec![Atom::Bytes(b"hi".to_vec()), Atom::Int(2), Atom::Present, Atom::UUID(1)];
    let body = encode_body(&chat(), &atoms).unwrap();
    assert_eq!(body, vec![2, b'h', b'i', 2, 1, 0, 0, 0, 0, 0, 0, 0, 0, 0, 0, 0, 0, 0, 0, 0, 1]);
    assert_eq!(decode_body(&chat(), &body), Some(atoms));
    let atoms = vec![Atom::Bytes(vec![]), Atom::Int(-1), Atom::Absent];
    let body = encode_body(&chat(), &atoms).unwrap();
    assert_eq!(body, vec![0, 0xff, 0]);
    assert_eq!(decode_body(&chat(), &body), Some(atoms));
}

#[test]
fn bodies_round_trip() {
    let kind = Kind::Container(vec![
        Kind::Bool,
        Kind::Float(FloatType::F32),
        Kind::Float(FloatType::F64),
        Kind::Array(Count::Typed(IntType::VarInt), Box::new(Kind::Container(vec![
            Kind::Int(IntType::U8),
            Kind::Opt(Box::new(Kind::Str)),
        ]))),
        Kind::Array(Count::Fixed(2), Box::new(Kind::Int(IntType::I16))),
        Kind::Buffer(Count::Typed(IntType::I16)),
        Kind::Buffer(Count::Fixed(3)),
        Kind::Rest,
    ]);
    let atoms = vec![
        Atom::Bool(true),
        Atom::Float(0x3f80_0000),
        Atom::Double(0x4000_0000_0000_0000),
        Atom::Count(2),
        Atom::Int(7),
        Atom::Absent,
        Atom::Int(8),
        Atom::Present,
        Atom::Bytes(b"x".to_vec()),
        Atom::Int(-5),
        Atom::Int(5),
        Atom::Bytes(vec![1, 2, 3, 4]),
        Atom::Bytes(vec![9, 9, 9]),
        Atom::Bytes(vec![0xde, 0xad]),
    ];
    let body = encode_body(&kind, &atoms).unwrap();
    assert_eq!(
        body,
        vec![
            1, 0x3f, 0x80, 0, 0, 0x40, 0, 0, 0, 0, 0, 0, 0, 2, 7, 0, 8, 1, 1, b'x', 0xff, 0xfb, 0,
            5, 0, 4, 1, 2, 3, 4, 9, 9, 9, 0xde, 0xad
        ]
    );
    assert_eq!(decode_body(&kind, &body), Some(atoms));
}

#[test]
fn bodies_that_do_not_fit() {
    // a value of the wrong kind
    assert_eq!(encode_body(&keep_alive_new(), &vec![Atom::Bool(true)]), None);
    // too few values, too many values
    assert_eq!(encode_body(&chat(), &vec![Atom::Bytes(vec![])]), None);
    assert_eq!(encode_body(&keep_alive_new(), &vec![Atom::Int(1), Atom::Int(2)]), None);
    // a number that does not fit its type
    assert_eq!(encode_body(&Kind::Int(IntType::U8), &vec![Atom::Int(256)]), None);
    // a buffer of the wrong length
    assert_eq!(encode_body(&Kind::Buffer(Count::Fixed(2)), &vec![Atom::Bytes(vec![1])]), None);
    // bytes that end too early, bytes left over
    assert_eq!(decode_body(&keep_alive_new(), &vec![0, 0, 0]), None);
    assert_eq!(decode_body(&keep_alive_new(), &vec![0; 9]), None);
    assert_eq!(decode_body(&Kind::Str, &vec![5, 1, 2]), None);
    assert_eq!(decode_body(&Kind::Str, &vec![0xff, 0xff, 0xff, 0xff, 0x0f]), None);
    assert_eq!(decode_body(&Kind::Bool, &vec![]), None);
    assert_eq!(decode_body(&Kind::Bool, &vec![2]), Some(vec![Atom::Bool(true)]));
    assert_eq!(
        decode_body(&Kind::Array(Count::Typed(IntType::I8), Box::new(Kind::Bool)), &vec![0xff]),
        None
    );
    let mut out = Vec::new();
    assert_eq!(encode(&Kind::Bool, &vec![], 0, &mut out), None);
    assert_eq!(encode(&Kind::Bool, &vec![], 1, &mut out), None);
    let mut atoms = Vec::new();
    assert_eq!(decode(&Kind::Rest, &vec![1, 2, 3], 1, &mut atoms), Some(3));
    assert_eq!(atoms, vec![Atom::Bytes(vec![2, 3])]);
    assert_eq!(decode(&Kind::Rest, &vec![1], 2, &mut atoms), None);
}
