use sugarcane::cipher::{next_register, Cipher};
use sugarcane::stream::{
    finish_inflate, frame_parts, open_payload, parse_packet, JavaStreamReader, JavaStreamWriter,
    Packet, StreamError,
};
use sugarcane::varint::{read_varint, varint_vec, write_varint};

fn encode(v: i32) -> Vec<u8> {
    let mut buf = Vec::new();
    write_varint(&mut buf, v);
    buf
}

#[test]
fn varint_known_encodings() {
    assert_eq!(encode(0), vec![0x00]);
    assert_eq!(encode(1), vec![0x01]);
    assert_eq!(encode(127), vec![0x7f]);
    assert_eq!(encode(128), vec![0x80, 0x01]);
    assert_eq!(encode(255), vec![0xff, 0x01]);
    assert_eq!(encode(25565), vec![0xdd, 0xc7, 0x01]);
    assert_eq!(encode(2097151), vec![0xff, 0xff, 0x7f]);
    assert_eq!(encode(i32::MAX), vec![0xff, 0xff, 0xff, 0xff, 0x07]);
    assert_eq!(encode(-1), vec![0xff, 0xff, 0xff, 0xff, 0x0f]);
    assert_eq!(encode(i32::MIN), vec![0x80, 0x80, 0x80, 0x80, 0x08]);
    assert_eq!(varint_vec(300), vec![0xac, 0x02]);
}

#[test]
fn varint_round_trip_on_samples() {
    let samples = [
        0, 1, -1, 2, 127, 128, 129, 255, 256, 16383, 16384, 2097151, 2097152, 268435455,
        268435456, i32::MAX, i32::MIN, -2, -128, -129, 1234556, -1234556,
    ];
    for v in samples {
        let bytes = encode(v);
        assert!(bytes.len() >= 1 && bytes.len() <= 5);
        assert_eq!(read_varint(&bytes), (v, bytes.len() as isize));
        let mut longer = bytes.clone();
        longer.extend_from_slice(&[0xaa, 0xbb]);
        assert_eq!(read_varint(&longer), (v, bytes.len() as isize));
    }
}

#[test]
fn varint_incomplete_and_too_long() {
    assert_eq!(read_varint(&[]), (0, 0));
    assert_eq!(read_varint(&[0x80]), (0, 0));
    assert_eq!(read_varint(&[0xff, 0xff, 0xff]), (0, 0));
    assert_eq!(read_varint(&[0x80, 0x80, 0x80, 0x80, 0x80]), (0, -1));
    assert_eq!(read_varint(&[0xff, 0xff, 0xff, 0xff, 0xff, 0x01]), (0, -1));
}

#[test]
fn packet_serializes_id_then_body() {
    let p = Packet::new(0x25, vec![1, 2, 3]);
    assert_eq!(p.serialize(), vec![0x25, 1, 2, 3]);
    let p = Packet::new(300, vec![]);
    assert_eq!(p.serialize(), vec![0xac, 0x02]);
    assert_eq!(parse_packet(&vec![0xac, 0x02, 9, 8]), Ok(Packet::new(300, vec![9, 8])));
    assert_eq!(parse_packet(&vec![]), Err(StreamError::InvalidData));
    assert_eq!(parse_packet(&vec![0x80]), Err(StreamError::InvalidData));
}

#[test]
fn frame_without_compression() {
    let w = JavaStreamWriter::new();
    let p = Packet::new(1, vec![10, 20, 30]);
    assert_eq!(w.frame(&p), Ok(vec![4, 1, 10, 20, 30]));
    assert_eq!(frame_parts(&vec![7], &vec![8, 9]), Ok(vec![3, 7, 8, 9]));
}

#[test]
fn frame_round_trip_plain() {
    let mut w = JavaStreamWriter::new();
    let mut r = JavaStreamReader::new();
    let p = Packet::new(0x0f, vec![0xde, 0xad, 0xbe, 0xef]);
    let bytes = w.write(&p).unwrap();
    assert_eq!(r.feed(&bytes), Ok(bytes.len()));
    assert_eq!(r.read(), Ok(Some(p)));
    assert_eq!(r.read(), Ok(None));
    assert_eq!(r.buffered(), 0);
}

#[test]
fn frame_round_trip_compressed_below_threshold() {
    let mut w = JavaStreamWriter::new();
    let mut r = JavaStreamReader::new();
    w.set_compression(64);
    r.set_compression(64);
    let p = Packet::new(3, vec![1, 2, 3, 4, 5]);
    let bytes = w.write(&p).unwrap();
    // length, zero for "not compressed", then the packet as it is
    assert_eq!(bytes, vec![7, 0, 3, 1, 2, 3, 4, 5]);
    assert_eq!(r.feed(&bytes), Ok(bytes.len()));
    assert_eq!(r.read(), Ok(Some(p)));
}

#[test]
fn frame_round_trip_compressed_above_threshold() {
    let mut w = JavaStreamWriter::new();
    let mut r = JavaStreamReader::new();
    w.set_compression(16);
    r.set_compression(16);
    let body: Vec<u8> = (0..200u32).map(|i| (i % 7) as u8).collect();
    let p = Packet::new(0x21, body);
    let bytes = w.write(&p).unwrap();
    // 201 bytes of packet shrink, and the payload announces 201
    assert!(bytes.len() < 150);
    let (len, used) = read_varint(&bytes);
    assert_eq!(len as usize + used as usize, bytes.len());
    assert_eq!(read_varint(&bytes[used as usize..]), (201, 2));
    assert_eq!(r.feed(&bytes), Ok(bytes.len()));
    assert_eq!(r.read(), Ok(Some(p)));
}

#[test]
fn frame_round_trip_encrypted() {
    let secret = [7u8; 16];
    let mut w = JavaStreamWriter::new();
    let mut r = JavaStreamReader::new();
    w.enable_encryption(&secret);
    r.enable_encryption(&secret);
    let first = Packet::new(1, vec![1, 2, 3, 4, 5, 6, 7, 8, 9]);
    let second = Packet::new(2, vec![42; 40]);
    let a = w.write(&first).unwrap();
    let b = w.write(&second).unwrap();
    assert_ne!(a, vec![10, 1, 1, 2, 3, 4, 5, 6, 7, 8, 9]);
    assert_eq!(a.len(), 11);
    // fed in pieces that do not match the frames
    let mut all = a.clone();
    all.extend_from_slice(&b);
    let (x, y) = all.split_at(5);
    assert_eq!(r.feed(&x.to_vec()), Ok(5));
    assert_eq!(r.read(), Ok(None));
    assert_eq!(r.feed(&y.to_vec()), Ok(y.len()));
    assert_eq!(r.read(), Ok(Some(first)));
    assert_eq!(r.read(), Ok(Some(second)));
    assert_eq!(r.read(), Ok(None));
}

#[test]
fn frame_round_trip_encrypted_and_compressed() {
    let secret = *b"0123456789abcdef";
    let mut w = JavaStreamWriter::new();
    let mut r = JavaStreamReader::new();
    w.set_compression(8);
    r.set_compression(8);
    w.enable_encryption(&secret);
    r.enable_encryption(&secret);
    let p = Packet::new(0x30, vec![9; 300]);
    let q = Packet::new(0x31, vec![1, 2]);
    let mut bytes = w.write(&p).unwrap();
    bytes.extend_from_slice(&w.write(&q).unwrap());
    assert_eq!(r.feed(&bytes), Ok(bytes.len()));
    assert_eq!(r.read(), Ok(Some(p)));
    assert_eq!(r.read(), Ok(Some(q)));
}

#[test]
fn cipher_matches_known_vector() {
    // AES-128 in CFB-8 mode, key and first register as in the mode's
    // published example.
    let key = *b"very secret key.";
    let mut c = Cipher::new(&key);
    let mut data = b"The quick brown fox".to_vec();
    let plain = data.clone();
    c.encrypt(&mut data);
    assert_ne!(data, plain);
    assert_eq!(data.len(), plain.len());
    let mut d = Cipher::new(&key);
    d.decrypt(&mut data);
    assert_eq!(data, plain);
}

#[test]
fn cipher_in_pieces_equals_cipher_at_once() {
    let key = [3u8; 16];
    let plain: Vec<u8> = (0..100u8).collect();
    let mut whole = plain.clone();
    Cipher::new(&key).encrypt(&mut whole);
    let mut c = Cipher::new(&key);
    let mut pieces = Vec::new();
    for chunk in plain.chunks(7) {
        let mut part = chunk.to_vec();
        c.encrypt(&mut part);
        pieces.extend_from_slice(&part);
    }
    assert_eq!(pieces, whole);
    let mut d = Cipher::new(&key);
    let mut back = Vec::new();
    for chunk in whole.chunks(13) {
        let mut part = chunk.to_vec();
        d.decrypt(&mut part);
        back.extend_from_slice(&part);
    }
    assert_eq!(back, plain);
}

#[test]
fn register_is_the_last_sixteen_bytes() {
    let reg: Vec<u8> = (0..16u8).collect();
    assert_eq!(next_register(&reg, &vec![]), reg);
    assert_eq!(
        next_register(&reg, &vec![100, 101]),
        vec![2, 3, 4, 5, 6, 7, 8, 9, 10, 11, 12, 13, 14, 15, 100, 101]
    );
    let long: Vec<u8> = (50..80u8).collect();
    assert_eq!(next_register(&reg, &long), (64..80u8).collect::<Vec<u8>>());
}

#[test]
fn reader_waits_for_whole_frames() {
    let mut r = JavaStreamReader::new();
    assert_eq!(r.read(), Ok(None));
    assert_eq!(r.feed(&vec![5, 1, 2]), Ok(3));
    assert_eq!(r.read(), Ok(None));
    assert_eq!(r.buffered(), 3);
    assert_eq!(r.feed(&vec![3, 4, 5, 2, 9]), Ok(5));
    assert_eq!(r.read(), Ok(Some(Packet::new(1, vec![2, 3, 4, 5]))));
    assert_eq!(r.read(), Ok(None));
    assert_eq!(r.feed(&vec![8]), Ok(1));
    assert_eq!(r.read(), Ok(Some(Packet::new(9, vec![8]))));
}

#[test]
fn reader_reports_closed_connection() {
    let mut r = JavaStreamReader::new();
    assert_eq!(r.feed(&vec![]), Err(StreamError::ConnectionAborted));
}

#[test]
fn reader_rejects_malformed_length() {
    let mut r = JavaStreamReader::new();
    assert_eq!(r.feed(&vec![0xff, 0xff, 0xff, 0xff, 0xff, 0x01]), Ok(6));
    assert_eq!(r.read(), Err(StreamError::InvalidData));
    let mut r = JavaStreamReader::new();
    // a negative length
    assert_eq!(r.feed(&vec![0xff, 0xff, 0xff, 0xff, 0x0f]), Ok(5));
    assert_eq!(r.read(), Err(StreamError::InvalidData));
}

#[test]
fn reader_rejects_frame_without_id() {
    let mut r = JavaStreamReader::new();
    assert_eq!(r.feed(&vec![0, 1, 7]), Ok(3));
    assert_eq!(r.read(), Err(StreamError::InvalidData));
    // the broken frame is gone, the next one is read
    assert_eq!(r.read(), Ok(Some(Packet::new(7, vec![]))));
}

#[test]
fn reader_rejects_bad_zlib() {
    let mut r = JavaStreamReader::new();
    r.set_compression(1);
    // announces 5 inflated bytes, then bytes that are no zlib stream
    assert_eq!(r.feed(&vec![4, 5, 1, 2, 3]), Ok(5));
    assert_eq!(r.read(), Err(StreamError::InvalidData));
}

#[test]
fn reader_rejects_wrong_inflated_length() {
    let mut w = JavaStreamWriter::new();
    w.set_compression(4);
    let p = Packet::new(1, vec![5; 50]);
    let mut frame = w.frame(&p).unwrap();
    // the payload announces 51; say 52 instead
    assert_eq!(frame[1], 51);
    frame[1] = 52;
    let mut r = JavaStreamReader::new();
    r.set_compression(4);
    assert_eq!(r.feed(&frame), Ok(frame.len()));
    assert_eq!(r.read(), Err(StreamError::InvalidData));
}

#[test]
fn inflate_result_is_checked_against_announcement() {
    assert_eq!(finish_inflate(3, Some(vec![1, 2, 3])), Ok(vec![1, 2, 3]));
    assert_eq!(finish_inflate(4, Some(vec![1, 2, 3])), Err(StreamError::InvalidData));
    assert_eq!(finish_inflate(3, None), Err(StreamError::InvalidData));
    assert_eq!(finish_inflate(-1, Some(vec![])), Err(StreamError::InvalidData));
    assert_eq!(open_payload(false, vec![1, 2]), Ok(vec![1, 2]));
    assert_eq!(open_payload(true, vec![0, 1, 2]), Ok(vec![1, 2]));
    assert_eq!(open_payload(true, vec![]), Err(StreamError::InvalidData));
}

#[test]
fn reader_takes_no_more_than_it_holds() {
    let mut r = JavaStreamReader::with_capacity(8);
    let data: Vec<u8> = vec![20, 1, 2, 3, 4, 5, 6, 7, 8, 9];
    assert_eq!(r.feed(&data), Ok(8));
    assert_eq!(r.buffered(), 8);
    assert_eq!(r.feed(&data[8..].to_vec()), Ok(0));
    assert_eq!(r.read(), Ok(None));
}

#[test]
fn negative_threshold_never_compresses() {
    let mut w = JavaStreamWriter::new();
    w.set_compression(-1);
    let p = Packet::new(1, vec![0; 100]);
    let frame = w.frame(&p).unwrap();
    assert_eq!(frame.len(), 1 + 1 + 101);
    assert_eq!(frame[1], 0);
}
