//! The byte queue between a socket and the frame reader: a bounded ring
//! buffer of the `ringbuf` crate.

use vstd::prelude::*;
use ringbuf::{Consumer, Producer, RingBuffer};

verus! {

/// `ringbuf::Producer`, the half of a ring buffer that writes. Nothing is
/// said of what a value of it holds.
#[verifier::external_type_specification]
#[verifier::external_body]
#[verifier::reject_recursive_types(T)]
pub struct ExProducer<T>(Producer<T>);

/// `ringbuf::Consumer`, the half of a ring buffer that reads. Nothing is
/// said of what a value of it holds.
#[verifier::external_type_specification]
#[verifier::external_body]
#[verifier::reject_recursive_types(T)]
pub struct ExConsumer<T>(Consumer<T>);

/// The two halves of one ring buffer. They are kept together so that every
/// contract speaks of the one queue that both of them reach.
pub struct ByteRing {
    prod: Producer<u8>,
    cons: Consumer<u8>,
}

/// The bytes that wait in the ring, oldest first.
pub uninterp spec fn ring_bytes(r: ByteRing) -> Seq<u8>;

/// How many bytes the ring was made to hold.
pub uninterp spec fn ring_limit(r: ByteRing) -> nat;

/// Calls `RingBuffer::new` and `split`: an empty ring for `capacity` bytes.
#[verifier::external_body]
pub(crate) fn ring_new(capacity: usize) -> (r: ByteRing)
    requires
        capacity < 0x7fff_ffff,
    ensures
        ring_bytes(r) == Seq::<u8>::empty(),
        ring_limit(r) == capacity,
{
    let (prod, cons) = RingBuffer::<u8>::new(capacity).split();
    ByteRing { prod, cons }
}

/// Calls `Consumer::len`: how many bytes wait.
#[verifier::external_body]
pub(crate) fn ring_len(r: &ByteRing) -> (n: usize)
    ensures
        n == ring_bytes(*r).len(),
        n <= ring_limit(*r),
{
    r.cons.len()
}

/// Calls `Producer::remaining`: how many more bytes fit.
#[verifier::external_body]
pub(crate) fn ring_remaining(r: &ByteRing) -> (n: usize)
    ensures
        n + ring_bytes(*r).len() == ring_limit(*r),
{
    r.prod.remaining()
}

/// Calls `Producer::push_slice`: appends as many bytes of `data`, from its
/// start, as still fit, and returns how many that was.
#[verifier::external_body]
pub(crate) fn ring_push(r: &mut ByteRing, data: &Vec<u8>) -> (n: usize)
    ensures
        n <= data@.len(),
        n == if data@.len() <= ring_limit(*old(r)) - ring_bytes(*old(r)).len() {
            data@.len() as int
        } else {
            ring_limit(*old(r)) - ring_bytes(*old(r)).len()
        },
        ring_bytes(*final(r)) == ring_bytes(*old(r)) + data@.subrange(0, n as int),
        ring_limit(*final(r)) == ring_limit(*old(r)),
{
    r.prod.push_slice(data)
}

/// Calls `Consumer::as_slices` and copies the two slices, the older first:
/// every byte that waits, without removing any.
#[verifier::external_body]
pub(crate) fn ring_snapshot(r: &ByteRing) -> (out: Vec<u8>)
    ensures
        out@ == ring_bytes(*r),
{
    let (older, newer) = r.cons.as_slices();
    let mut out = older.to_vec();
    out.extend_from_slice(newer);
    out
}

/// Calls `Consumer::discard`: removes the `n` oldest bytes, or all of them
/// where fewer wait, and returns how many were removed.
#[verifier::external_body]
pub(crate) fn ring_discard(r: &mut ByteRing, n: usize) -> (count: usize)
    ensures
        count == if n <= ring_bytes(*old(r)).len() {
            n as int
        } else {
            ring_bytes(*old(r)).len() as int
        },
        ring_bytes(*final(r)) == ring_bytes(*old(r)).subrange(
            count as int,
            ring_bytes(*old(r)).len() as int,
        ),
        ring_limit(*final(r)) == ring_limit(*old(r)),
{
    r.cons.discard(n)
}

/// Calls `Consumer::pop_slice` on a buffer of `n` bytes: removes the `n`
/// oldest bytes and returns them.
#[verifier::external_body]
pub(crate) fn ring_pop(r: &mut ByteRing, n: usize) -> (out: Vec<u8>)
    requires
        n <= ring_bytes(*old(r)).len(),
    ensures
        out@ == ring_bytes(*old(r)).subrange(0, n as int),
        ring_bytes(*final(r)) == ring_bytes(*old(r)).subrange(
            n as int,
            ring_bytes(*old(r)).len() as int,
        ),
        ring_limit(*final(r)) == ring_limit(*old(r)),
{
    let mut out = vec![0u8; n];
    r.cons.pop_slice(&mut out);
    out
}

} // verus!
