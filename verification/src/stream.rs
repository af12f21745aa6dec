//! The frame pipeline of a client connection. Reading: bytes from the socket
//! are decrypted, queued, cut into frames by their length prefix, inflated
//! where the frame says so, and split into packet id and body. Writing is
//! the inverse.

use vstd::prelude::*;
use crate::cipher::{cfb8_decrypted, Cipher};
use crate::ring::{
    ring_bytes,
    ring_discard,
    ring_len,
    ring_limit,
    ring_new,
    ring_pop,
    ring_push,
    ring_remaining,
    ring_snapshot,
    ByteRing,
};
use crate::varint::{
    lemma_varint_len,
    read_varint,
    spec_read_varint,
    spec_write_varint,
    to_unsigned,
    varint_round_trip,
    write_varint,
};
use crate::zlib::{compress_zlib, decompress_zlib, zlib_deflated, zlib_inflated};

verus! {

/// Bytes that a reader queues unless told otherwise.
pub const DEFAULT_CAPACITY: usize = 1024;

/// The level at which payloads are compressed.
pub const COMPRESSION_LEVEL: u8 = 1;

/// The longest payload a frame can announce.
pub const MAX_FRAME: usize = 0x7fff_ffff;

/// Why a connection is closed.
#[derive(Clone, Copy, Debug, PartialEq, Eq, Structural)]
pub enum StreamError {
    /// A malformed varint, a payload that does not inflate to the length it
    /// announces, or a packet without an id.
    InvalidData,
    /// The peer closed the connection.
    ConnectionAborted,
}

/// A packet as it travels: the on-wire id and the body.
#[derive(Clone, Debug, PartialEq, Eq)]
pub struct Packet {
    pub id: i32,
    pub data: Vec<u8>,
}

/// What a read finds at the head of the queue.
pub enum Outcome {
    /// No whole frame yet.
    Wait,
    /// A frame that cannot be read; `used` bytes of the queue are gone.
    Broken { used: int },
    /// A packet; `used` bytes of the queue are gone.
    Packet { id: i32, body: Seq<u8>, used: int },
}

/// The bytes of a packet before framing: its id, then its body.
pub open spec fn spec_serialize(id: i32, body: Seq<u8>) -> Seq<u8> {
    spec_write_varint(id) + body
}

/// The payload of a frame for the packet bytes `packet`, on a connection
/// with compression threshold `threshold` (0 for none): the packet itself
/// without compression; with it, the length of the packet and its
/// compressed bytes where the packet is longer than the threshold, and a
/// zero and the packet as it is otherwise.
pub open spec fn spec_payload(threshold: int, packet: Seq<u8>) -> Seq<u8> {
    if threshold == 0 {
        packet
    } else if packet.len() > threshold {
        spec_write_varint(packet.len() as i32) + zlib_deflated(packet, COMPRESSION_LEVEL)
    } else {
        spec_write_varint(0) + packet
    }
}

/// A frame: the length of the payload, then the payload.
pub open spec fn spec_frame(payload: Seq<u8>) -> Seq<u8> {
    spec_write_varint(payload.len() as i32) + payload
}

/// The packet bytes inside a payload, given what the compressed part
/// inflates to: the payload itself without compression; with it, what
/// follows a zero, or what the rest inflates to if that is as long as
/// announced.
pub open spec fn spec_open(
    compressed: bool,
    payload: Seq<u8>,
    inflated: Option<Seq<u8>>,
) -> Option<Seq<u8>> {
    if !compressed {
        Some(payload)
    } else {
        let head = spec_read_varint(payload);
        if head.1 <= 0 || head.0 < 0 {
            None
        } else if head.0 == 0 {
            Some(payload.subrange(head.1, payload.len() as int))
        } else {
            match inflated {
                Some(d) => if d.len() == head.0 {
                    Some(d)
                } else {
                    None
                },
                None => None,
            }
        }
    }
}

/// The compressed part of a payload: what follows its first varint.
pub open spec fn spec_compressed_part(payload: Seq<u8>) -> Seq<u8> {
    let head = spec_read_varint(payload);
    if head.1 <= 0 {
        Seq::<u8>::empty()
    } else {
        payload.subrange(head.1, payload.len() as int)
    }
}

/// What a read finds at the head of `queue`: nothing yet where the length
/// prefix or the payload is incomplete; a broken frame where the prefix is
/// malformed or negative (nothing is taken), or where the payload does not
/// open or holds no packet id (the frame is taken); else the packet.
pub open spec fn spec_read(compressed: bool, queue: Seq<u8>) -> Outcome {
    let prefix = spec_read_varint(queue);
    if prefix.1 < 0 || (prefix.1 > 0 && prefix.0 < 0) {
        Outcome::Broken { used: 0 }
    } else if prefix.1 == 0 || prefix.0 > queue.len() - prefix.1 {
        Outcome::Wait
    } else {
        let used = prefix.1 + prefix.0;
        let payload = queue.subrange(prefix.1, used);
        match spec_open(compressed, payload, zlib_inflated(spec_compressed_part(payload))) {
            None => Outcome::Broken { used },
            Some(packet) => {
                let id = spec_read_varint(packet);
                if id.1 <= 0 {
                    Outcome::Broken { used }
                } else {
                    Outcome::Packet {
                        id: id.0,
                        body: packet.subrange(id.1, packet.len() as int),
                        used,
                    }
                }
            },
        }
    }
}

/// The bytes of `v` from `from` on.
pub fn tail(v: &Vec<u8>, from: usize) -> (out: Vec<u8>)
    requires
        from <= v@.len(),
    ensures
        out@ == v@.subrange(from as int, v@.len() as int),
{
    let mut out: Vec<u8> = Vec::new();
    let mut i: usize = from;
    while i < v.len()
        invariant
            from <= i <= v@.len(),
            out@ == v@.subrange(from as int, i as int),
        decreases v@.len() - i,
    {
        out.push(v[i]);
        assert(out@ =~= v@.subrange(from as int, i + 1));
        i += 1;
    }
    out
}

/// Appends `more` to `buf`.
pub fn append(buf: &mut Vec<u8>, more: &Vec<u8>)
    ensures
        final(buf)@ == old(buf)@ + more@,
{
    let mut i: usize = 0;
    while i < more.len()
        invariant
            i <= more@.len(),
            buf@ == old(buf)@ + more@.subrange(0, i as int),
        decreases more@.len() - i,
    {
        buf.push(more[i]);
        assert(buf@ =~= old(buf)@ + more@.subrange(0, i + 1));
        i += 1;
    }
    assert(more@.subrange(0, more@.len() as int) =~= more@);
}

/// The packet bytes of a compressed payload's second half, given what it
/// inflated to: the inflated bytes, if there are any and as many as the
/// payload announced.
pub fn finish_inflate(announced: i32, inflated: Option<Vec<u8>>) -> (r: Result<
    Vec<u8>,
    StreamError,
>)
    ensures
        r == match inflated {
            Some(d) => if d@.len() == announced {
                Ok::<Vec<u8>, StreamError>(d)
            } else {
                Err::<Vec<u8>, StreamError>(StreamError::InvalidData)
            },
            None => Err::<Vec<u8>, StreamError>(StreamError::InvalidData),
        },
{
    match inflated {
        Some(d) => {
            if announced >= 0 && d.len() == announced as usize {
                Ok(d)
            } else {
                Err(StreamError::InvalidData)
            }
        },
        None => Err(StreamError::InvalidData),
    }
}

/// The packet bytes inside `payload` (see [`spec_open`]).
pub fn open_payload(compressed: bool, payload: Vec<u8>) -> (r: Result<Vec<u8>, StreamError>)
    ensures
        r.is_ok() == spec_open(
            compressed,
            payload@,
            zlib_inflated(spec_compressed_part(payload@)),
        ).is_some(),
        r matches Ok(p) ==> p@ == spec_open(
            compressed,
            payload@,
            zlib_inflated(spec_compressed_part(payload@)),
        ).unwrap(),
        r matches Err(e) ==> e == StreamError::InvalidData,
{
    if !compressed {
        return Ok(payload);
    }
    let head = read_varint(payload.as_slice());
    if head.1 <= 0 || head.0 < 0 {
        return Err(StreamError::InvalidData);
    }
    let rest = tail(&payload, head.1 as usize);
    if head.0 == 0 {
        return Ok(rest);
    }
    let inflated = match decompress_zlib(&rest) {
        Ok(d) => Some(d),
        Err(_) => None,
    };
    finish_inflate(head.0, inflated)
}

/// Splits packet bytes into the id and the body.
pub fn parse_packet(bytes: &Vec<u8>) -> (r: Result<Packet, StreamError>)
    ensures
        r.is_ok() == (spec_read_varint(bytes@).1 > 0),
        r matches Ok(p) ==> p.id == spec_read_varint(bytes@).0 && p.data@ == bytes@.subrange(
            spec_read_varint(bytes@).1,
            bytes@.len() as int,
        ),
        r matches Err(e) ==> e == StreamError::InvalidData,
{
    let id = read_varint(bytes.as_slice());
    if id.1 <= 0 {
        return Err(StreamError::InvalidData);
    }
    Ok(Packet { id: id.0, data: tail(bytes, id.1 as usize) })
}

impl Packet {
    pub fn new(id: i32, data: Vec<u8>) -> (p: Packet)
        ensures
            p.id == id,
            p.data == data,
    {
        Packet { id, data }
    }

    /// The bytes of the packet before framing.
    pub fn serialize(&self) -> (out: Vec<u8>)
        ensures
            out@ == spec_serialize(self.id, self.data@),
    {
        let mut out: Vec<u8> = Vec::new();
        write_varint(&mut out, self.id);
        append(&mut out, &self.data);
        assert(Seq::<u8>::empty() + spec_write_varint(self.id) =~= spec_write_varint(self.id));
        out
    }
}

/// The frame around the payload made of `head` followed by `body`, or the
/// error where the payload is too long for its length to be written.
pub fn frame_parts(head: &Vec<u8>, body: &Vec<u8>) -> (r: Result<Vec<u8>, StreamError>)
    ensures
        r.is_ok() == (head@.len() + body@.len() <= MAX_FRAME),
        r matches Ok(f) ==> f@ == spec_frame(head@ + body@),
        r matches Err(e) ==> e == StreamError::InvalidData,
{
    if head.len() > MAX_FRAME || body.len() > MAX_FRAME - head.len() {
        return Err(StreamError::InvalidData);
    }
    let total = head.len() + body.len();
    let mut out: Vec<u8> = Vec::new();
    write_varint(&mut out, total as i32);
    append(&mut out, head);
    append(&mut out, body);
    assert(out@ =~= spec_frame(head@ + body@));
    Ok(out)
}

/// The reading half of a client connection.
pub struct JavaStreamReader {
    ring: ByteRing,
    /// The compression threshold; 0 where payloads are not compressed.
    compression: usize,
    /// The cipher, where the connection is encrypted.
    cipher: Option<Cipher>,
}

/// The writing half of a client connection.
#[derive(Debug)]
pub struct JavaStreamWriter {
    /// The compression threshold; 0 where payloads are not compressed.
    compression: usize,
    /// The cipher, where the connection is encrypted.
    cipher: Option<Cipher>,
}

/// The threshold that a `SetCompression` packet with this value sets: the
/// value itself, or one that no packet exceeds where it is negative.
pub open spec fn spec_threshold(compression: i32) -> usize {
    if compression < 0 {
        usize::MAX
    } else {
        compression as usize
    }
}

fn threshold_of(compression: i32) -> (t: usize)
    ensures
        t == spec_threshold(compression),
{
    if compression < 0 {
        usize::MAX
    } else {
        compression as usize
    }
}

impl JavaStreamReader {
    /// The bytes that wait to be read, oldest first.
    pub closed spec fn queue(self) -> Seq<u8> {
        ring_bytes(self.ring)
    }

    /// How many bytes the reader can queue.
    pub closed spec fn capacity(self) -> nat {
        ring_limit(self.ring)
    }

    pub closed spec fn spec_compression(self) -> usize {
        self.compression
    }

    pub closed spec fn spec_cipher(self) -> Option<Cipher> {
        self.cipher
    }

    pub closed spec fn wf(self) -> bool {
        &&& ring_bytes(self.ring).len() <= ring_limit(self.ring)
        &&& match self.cipher {
            Some(c) => c.wf(),
            None => true,
        }
    }

    /// A reader for a new connection: nothing queued, no compression, no
    /// cipher, room for 1024 bytes.
    pub fn new() -> (r: JavaStreamReader)
        ensures
            r.wf(),
            r.queue() == Seq::<u8>::empty(),
            r.capacity() == DEFAULT_CAPACITY,
            r.spec_compression() == 0,
            r.spec_cipher().is_none(),
    {
        JavaStreamReader { ring: ring_new(DEFAULT_CAPACITY), compression: 0, cipher: None }
    }

    /// A reader that can queue `capacity` bytes.
    pub fn with_capacity(capacity: usize) -> (r: JavaStreamReader)
        requires
            capacity < 0x7fff_ffff,
        ensures
            r.wf(),
            r.queue() == Seq::<u8>::empty(),
            r.capacity() == capacity,
            r.spec_compression() == 0,
            r.spec_cipher().is_none(),
    {
        JavaStreamReader { ring: ring_new(capacity), compression: 0, cipher: None }
    }

    /// Sets the compression threshold for the frames that follow.
    pub fn set_compression(&mut self, compression: i32)
        ensures
            final(self).spec_compression() == spec_threshold(compression),
            final(self).queue() == old(self).queue(),
            final(self).capacity() == old(self).capacity(),
            final(self).spec_cipher() == old(self).spec_cipher(),
            old(self).wf() ==> final(self).wf(),
    {
        self.compression = threshold_of(compression);
    }

    /// Turns on decryption for the bytes that follow, with the shared
    /// secret as key and as first register.
    pub fn enable_encryption(&mut self, secret: &[u8; 16])
        ensures
            final(self).spec_cipher().is_some(),
            final(self).spec_cipher().unwrap().wf(),
            final(self).spec_cipher().unwrap().spec_key() == secret@,
            final(self).spec_cipher().unwrap().spec_register() == secret@,
            final(self).queue() == old(self).queue(),
            final(self).capacity() == old(self).capacity(),
            final(self).spec_compression() == old(self).spec_compression(),
            old(self).wf() ==> final(self).wf(),
    {
        self.cipher = Some(Cipher::new(secret));
    }

    /// How many bytes wait to be read.
    pub fn buffered(&self) -> (n: usize)
        ensures
            n == self.queue().len(),
    {
        ring_len(&self.ring)
    }

    /// Takes bytes that arrived from the socket: as many, from the start of
    /// `data`, as the queue has room for. They are decrypted where the
    /// connection is encrypted, and queued. Returns how many were taken; the
    /// caller offers the others again. No bytes at all means that the peer
    /// has closed the connection.
    pub fn feed(&mut self, data: &Vec<u8>) -> (r: Result<usize, StreamError>)
        requires
            old(self).wf(),
        ensures
            final(self).wf(),
            final(self).capacity() == old(self).capacity(),
            final(self).spec_compression() == old(self).spec_compression(),
            r.is_err() == (data@.len() == 0),
            r matches Err(e) ==> e == StreamError::ConnectionAborted && final(self).queue() == old(self).queue() && final(self).spec_cipher() == old(self).spec_cipher(),
            r matches Ok(n) ==> {
                let taken = data@.subrange(0, n as int);
                &&& n == if data@.len() <= old(self).capacity() - old(self).queue().len() {
                    data@.len() as int
                } else {
                    old(self).capacity() - old(self).queue().len()
                }
                &&& match old(self).spec_cipher() {
                    None => final(self).queue() == old(self).queue() + taken && final(self).spec_cipher().is_none(),
                    Some(c) => {
                        &&& final(self).spec_cipher().is_some()
                        &&& final(self).queue() == old(self).queue() + cfb8_decrypted(
                            c.spec_key(),
                            c.spec_register(),
                            taken,
                        )
                        &&& c.decrypts(
                            taken,
                            cfb8_decrypted(c.spec_key(), c.spec_register(), taken),
                            final(self).spec_cipher().unwrap(),
                        )
                    },
                }
            },
    {
        if data.len() == 0 {
            return Err(StreamError::ConnectionAborted);
        }
        let room = ring_remaining(&self.ring);
        let n: usize = if data.len() <= room {
            data.len()
        } else {
            room
        };
        let mut taken: Vec<u8> = Vec::new();
        let mut i: usize = 0;
        while i < n
            invariant
                i <= n <= data@.len(),
                taken@ == data@.subrange(0, i as int),
            decreases n - i,
        {
            taken.push(data[i]);
            assert(taken@ =~= data@.subrange(0, i + 1));
            i += 1;
        }
        let mut cipher: Option<Cipher> = None;
        std::mem::swap(&mut cipher, &mut self.cipher);
        match cipher {
            Some(c) => {
                let mut c = c;
                c.decrypt(&mut taken);
                self.cipher = Some(c);
            },
            None => {},
        }
        let pushed = ring_push(&mut self.ring, &taken);
        assert(taken@.subrange(0, pushed as int) =~= taken@);
        Ok(n)
    }

    /// Reads the packet at the head of the queue, if a whole frame waits
    /// there (see [`spec_read`]).
    pub fn read(&mut self) -> (r: Result<Option<Packet>, StreamError>)
        requires
            old(self).wf(),
        ensures
            final(self).wf(),
            final(self).capacity() == old(self).capacity(),
            final(self).spec_compression() == old(self).spec_compression(),
            final(self).spec_cipher() == old(self).spec_cipher(),
            match spec_read(old(self).spec_compression() != 0, old(self).queue()) {
                Outcome::Wait => r == Ok::<Option<Packet>, StreamError>(None) && final(self).queue() == old(self).queue(),
                Outcome::Broken { used } => r == Err::<Option<Packet>, StreamError>(
                    StreamError::InvalidData,
                ) && final(self).queue() == old(self).queue().subrange(
                    used,
                    old(self).queue().len() as int,
                ),
                Outcome::Packet { id, body, used } => (r matches Ok(Some(p)) && p.id == id
                    && p.data@ == body) && final(self).queue() == old(self).queue().subrange(
                    used,
                    old(self).queue().len() as int,
                ),
            },
    {
        let queued = ring_snapshot(&self.ring);
        let prefix = read_varint(queued.as_slice());
        if prefix.1 < 0 || (prefix.1 > 0 && prefix.0 < 0) {
            assert(self.queue().subrange(0, self.queue().len() as int) =~= self.queue());
            return Err(StreamError::InvalidData);
        }
        if prefix.1 == 0 || prefix.0 as usize > queued.len() - prefix.1 as usize {
            return Ok(None);
        }
        let ghost before = self.queue();
        let _ = ring_discard(&mut self.ring, prefix.1 as usize);
        let payload = ring_pop(&mut self.ring, prefix.0 as usize);
        proof {
            assert(payload@ =~= before.subrange(prefix.1 as int, prefix.1 + prefix.0));
            assert(self.queue() =~= before.subrange(prefix.1 + prefix.0, before.len() as int));
        }
        let packet = match open_payload(self.compression != 0, payload) {
            Ok(p) => p,
            Err(e) => {
                return Err(e);
            },
        };
        match parse_packet(&packet) {
            Ok(p) => Ok(Some(p)),
            Err(e) => Err(e),
        }
    }
}

impl JavaStreamWriter {
    pub closed spec fn spec_compression(self) -> usize {
        self.compression
    }

    pub closed spec fn spec_cipher(self) -> Option<Cipher> {
        self.cipher
    }

    pub closed spec fn wf(self) -> bool {
        match self.cipher {
            Some(c) => c.wf(),
            None => true,
        }
    }

    /// A writer for a new connection: no compression, no cipher.
    pub fn new() -> (w: JavaStreamWriter)
        ensures
            w.wf(),
            w.spec_compression() == 0,
            w.spec_cipher().is_none(),
    {
        JavaStreamWriter { compression: 0, cipher: None }
    }

    /// Sets the compression threshold for the frames that follow.
    pub fn set_compression(&mut self, compression: i32)
        ensures
            final(self).spec_compression() == spec_threshold(compression),
            final(self).spec_cipher() == old(self).spec_cipher(),
            old(self).wf() ==> final(self).wf(),
    {
        self.compression = threshold_of(compression);
    }

    /// Turns on encryption for the bytes that follow, with the shared
    /// secret as key and as first register.
    pub fn enable_encryption(&mut self, secret: &[u8; 16])
        ensures
            final(self).wf(),
            final(self).spec_cipher().is_some(),
            final(self).spec_cipher().unwrap().spec_key() == secret@,
            final(self).spec_cipher().unwrap().spec_register() == secret@,
            final(self).spec_compression() == old(self).spec_compression(),
    {
        self.cipher = Some(Cipher::new(secret));
    }

    /// The frame for `p`, before encryption: the length of the payload and
    /// the payload (see [`spec_payload`]). The error is returned where the
    /// payload is too long for its length to be written.
    pub fn frame(&self, p: &Packet) -> (r: Result<Vec<u8>, StreamError>)
        ensures
            r.is_ok() == (spec_serialize(p.id, p.data@).len() <= MAX_FRAME - 5 && spec_payload(
                self.spec_compression() as int,
                spec_serialize(p.id, p.data@),
            ).len() <= MAX_FRAME),
            r matches Ok(f) ==> f@ == spec_frame(
                spec_payload(self.spec_compression() as int, spec_serialize(p.id, p.data@)),
            ),
            r matches Err(e) ==> e == StreamError::InvalidData,
    {
        let bytes = p.serialize();
        if bytes.len() > MAX_FRAME - 5 {
            return Err(StreamError::InvalidData);
        }
        let mut head: Vec<u8> = Vec::new();
        proof {
            assert(Seq::<u8>::empty() + bytes@ =~= bytes@);
        }
        if self.compression != 0 {
            if bytes.len() > self.compression {
                let compressed = compress_zlib(&bytes, COMPRESSION_LEVEL);
                write_varint(&mut head, bytes.len() as i32);
                proof {
                    assert(Seq::<u8>::empty() + spec_write_varint(bytes@.len() as i32)
                        =~= spec_write_varint(bytes@.len() as i32));
                    lemma_varint_len(to_unsigned(bytes@.len() as i32), 0);
                }
                frame_parts(&head, &compressed)
            } else {
                write_varint(&mut head, 0);
                proof {
                    assert(Seq::<u8>::empty() + spec_write_varint(0) =~= spec_write_varint(0));
                    lemma_varint_len(to_unsigned(0), 0);
                    assert(spec_write_varint(0).len() == 1) by {
                        reveal_with_fuel(crate::varint::varint_bytes, 2);
                    }
                }
                frame_parts(&head, &bytes)
            }
        } else {
            frame_parts(&head, &bytes)
        }
    }

    /// The bytes to send for `p`: its frame, encrypted where the connection
    /// is encrypted. Where the frame cannot be made nothing changes.
    pub fn write(&mut self, p: &Packet) -> (r: Result<Vec<u8>, StreamError>)
        requires
            old(self).wf(),
        ensures
            final(self).wf(),
            final(self).spec_compression() == old(self).spec_compression(),
            r.is_ok() == (spec_serialize(p.id, p.data@).len() <= MAX_FRAME - 5 && spec_payload(
                old(self).spec_compression() as int,
                spec_serialize(p.id, p.data@),
            ).len() <= MAX_FRAME),
            r matches Err(e) ==> e == StreamError::InvalidData && final(self).spec_cipher() == old(self).spec_cipher(),
            r matches Ok(out) ==> {
                let plain = spec_frame(
                    spec_payload(
                        old(self).spec_compression() as int,
                        spec_serialize(p.id, p.data@),
                    ),
                );
                &&& out@.len() == plain.len()
                &&& match old(self).spec_cipher() {
                    None => out@ == plain && final(self).spec_cipher().is_none(),
                    Some(c) => {
                        &&& final(self).spec_cipher().is_some()
                        &&& c.encrypts(plain, out@, final(self).spec_cipher().unwrap())
                    },
                }
            },
    {
        let mut out = match self.frame(p) {
            Ok(f) => f,
            Err(e) => {
                return Err(e);
            },
        };
        let mut cipher: Option<Cipher> = None;
        std::mem::swap(&mut cipher, &mut self.cipher);
        match cipher {
            Some(c) => {
                let mut c = c;
                c.encrypt(&mut out);
                self.cipher = Some(c);
            },
            None => {},
        }
        Ok(out)
    }
}

/// How many bytes the varint of `v` takes.
pub open spec fn spec_varint_len(v: i32) -> int {
    spec_write_varint(v).len() as int
}

/// Whatever the payload of a frame is, a read finds it: a queue that starts
/// with a frame is cut after the frame, and the payload is what lies
/// between the length and the cut.
pub proof fn lemma_frame_is_cut(payload: Seq<u8>, after: Seq<u8>)
    requires
        payload.len() <= MAX_FRAME,
    ensures
        spec_read_varint(spec_frame(payload) + after) == (
            payload.len() as i32,
            spec_varint_len(payload.len() as i32),
        ),
        (spec_frame(payload) + after).subrange(
            spec_varint_len(payload.len() as i32),
            spec_varint_len(payload.len() as i32) + payload.len(),
        ) == payload,
        spec_frame(payload).len() == spec_varint_len(payload.len() as i32) + payload.len(),
{
    let n = payload.len() as i32;
    varint_round_trip(n, payload + after);
    assert(spec_frame(payload) + after =~= spec_write_varint(n) + (payload + after));
    assert((spec_frame(payload) + after).subrange(
        spec_varint_len(n),
        spec_varint_len(n) + payload.len(),
    ) =~= payload);
}

/// A packet that was framed is read back as it was, whatever follows its
/// frame in the queue: without compression; with compression where the
/// packet is not longer than the threshold; and with compression where it
/// is longer, provided that the compressed bytes inflate to the packet.
pub proof fn frame_round_trip(threshold: int, id: i32, body: Seq<u8>, after: Seq<u8>)
    requires
        0 <= threshold,
        spec_serialize(id, body).len() <= MAX_FRAME - 5,
        spec_payload(threshold, spec_serialize(id, body)).len() <= MAX_FRAME,
    ensures
        ({
            let packet = spec_serialize(id, body);
            let frame = spec_frame(spec_payload(threshold, packet));
            (threshold == 0 || packet.len() <= threshold || zlib_inflated(
                zlib_deflated(packet, COMPRESSION_LEVEL),
            ) == Some(packet)) ==> spec_read(threshold != 0, frame + after) == (Outcome::Packet {
                id,
                body,
                used: frame.len() as int,
            })
        }),
{
    let packet = spec_serialize(id, body);
    let payload = spec_payload(threshold, packet);
    let frame = spec_frame(payload);
    lemma_frame_is_cut(payload, after);
    varint_round_trip(id, body);
    assert(packet.subrange(spec_varint_len(id), packet.len() as int) =~= body);
    if threshold == 0 {
    } else if packet.len() <= threshold {
        varint_round_trip(0, packet);
        assert(payload.subrange(spec_varint_len(0), payload.len() as int) =~= packet);
    } else {
        let n = packet.len() as i32;
        let z = zlib_deflated(packet, COMPRESSION_LEVEL);
        varint_round_trip(n, z);
        assert(payload.subrange(spec_varint_len(n), payload.len() as int) =~= z);
    }
}

/// Encryption does not change what is read. A writer's cipher makes `sent`
/// of `plain` and a reader's cipher, in the same state as the writer's
/// was, makes `got` of `sent`: then `got` is `plain`, and the two ciphers
/// are in the same state again, ready for the bytes that follow.
pub proof fn encryption_round_trip(
    writer: Cipher,
    plain: Seq<u8>,
    sent: Seq<u8>,
    writer_after: Cipher,
    reader: Cipher,
    got: Seq<u8>,
    reader_after: Cipher,
)
    requires
        writer.encrypts(plain, sent, writer_after),
        reader.decrypts(sent, got, reader_after),
        reader.same_state(writer),
    ensures
        got == plain,
        reader_after.same_state(writer_after),
{
}

} // verus!
