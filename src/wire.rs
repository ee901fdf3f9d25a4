//! Byte-order primitives shared by every encoding of the protocol.
use vstd::prelude::*;

verus! {

/// The single failure of this codec: the bytes (or a value to encode) do not
/// describe a valid protocol structure.
#[derive(Clone, Copy, Debug, PartialEq, Eq, Structural)]
pub enum Error {
    /// truncated buffer, out-of-range number, invalid text or unknown code
    InvalidData,
}

/// Byte order used when serializing and deserializing multi-byte integers.
#[derive(Clone, Copy, Debug, PartialEq, Eq, Structural)]
pub enum ByteOrder {
    /// least significant byte first
    LittleEndian,
    /// most significant byte first
    BigEndian,
}

/// Puts little-endian digits into the order `bo` asks for.
pub open spec fn ordered(le: Seq<u8>, bo: ByteOrder) -> Seq<u8> {
    match bo {
        ByteOrder::LittleEndian => le,
        ByteOrder::BigEndian => le.reverse(),
    }
}

/// The first `n` bytes of `b`, least significant first, when read in order `bo`.
pub open spec fn le_digits(b: Seq<u8>, n: int, bo: ByteOrder) -> Seq<u8> {
    ordered(b.subrange(0, n), bo)
}

pub open spec fn le_u16(v: u16) -> Seq<u8> {
    seq![(v & 0xff) as u8, ((v >> 8u16) & 0xff) as u8]
}

pub open spec fn le_u32(v: u32) -> Seq<u8> {
    seq![
        (v & 0xff) as u8,
        ((v >> 8u32) & 0xff) as u8,
        ((v >> 16u32) & 0xff) as u8,
        ((v >> 24u32) & 0xff) as u8,
    ]
}

pub open spec fn le_u64(v: u64) -> Seq<u8> {
    seq![
        (v & 0xff) as u8,
        ((v >> 8u64) & 0xff) as u8,
        ((v >> 16u64) & 0xff) as u8,
        ((v >> 24u64) & 0xff) as u8,
        ((v >> 32u64) & 0xff) as u8,
        ((v >> 40u64) & 0xff) as u8,
        ((v >> 48u64) & 0xff) as u8,
        ((v >> 56u64) & 0xff) as u8,
    ]
}

pub open spec fn u16_of_le(d: Seq<u8>) -> u16 {
    (d[0] as u16) | ((d[1] as u16) << 8u16)
}

pub open spec fn u32_of_le(d: Seq<u8>) -> u32 {
    (d[0] as u32) | ((d[1] as u32) << 8u32) | ((d[2] as u32) << 16u32) | ((d[3] as u32) << 24u32)
}

pub open spec fn u64_of_le(d: Seq<u8>) -> u64 {
    (d[0] as u64) | ((d[1] as u64) << 8u64) | ((d[2] as u64) << 16u64) | ((d[3] as u64) << 24u64)
        | ((d[4] as u64) << 32u64) | ((d[5] as u64) << 40u64) | ((d[6] as u64) << 48u64) | ((
    d[7] as u64) << 56u64)
}

/// Wire form of a 16-bit integer in byte order `bo`.
pub open spec fn u16_bytes(v: u16, bo: ByteOrder) -> Seq<u8> {
    ordered(le_u16(v), bo)
}

/// Wire form of a 32-bit integer in byte order `bo`.
pub open spec fn u32_bytes(v: u32, bo: ByteOrder) -> Seq<u8> {
    ordered(le_u32(v), bo)
}

/// Wire form of a 64-bit integer in byte order `bo`.
pub open spec fn u64_bytes(v: u64, bo: ByteOrder) -> Seq<u8> {
    ordered(le_u64(v), bo)
}

/// Wire form of a signed 32-bit integer: its two's complement bits.
pub open spec fn i32_bytes(v: i32, bo: ByteOrder) -> Seq<u8> {
    u32_bytes(v as u32, bo)
}

/// The 16-bit integer held by the first two bytes of `b`.
pub open spec fn u16_value(b: Seq<u8>, bo: ByteOrder) -> u16 {
    u16_of_le(le_digits(b, 2, bo))
}

/// The 32-bit integer held by the first four bytes of `b`.
pub open spec fn u32_value(b: Seq<u8>, bo: ByteOrder) -> u32 {
    u32_of_le(le_digits(b, 4, bo))
}

/// The 64-bit integer held by the first eight bytes of `b`.
pub open spec fn u64_value(b: Seq<u8>, bo: ByteOrder) -> u64 {
    u64_of_le(le_digits(b, 8, bo))
}

/// The signed 32-bit integer held by the first four bytes of `b`.
pub open spec fn i32_value(b: Seq<u8>, bo: ByteOrder) -> i32 {
    u32_value(b, bo) as i32
}

proof fn lemma_le_digits_prefix(d: Seq<u8>, rest: Seq<u8>, bo: ByteOrder)
    ensures
        le_digits(ordered(d, bo) + rest, d.len() as int, bo) == d,
{
    let s = ordered(d, bo) + rest;
    assert(s.subrange(0, d.len() as int) =~= ordered(d, bo));
    if bo == ByteOrder::BigEndian {
        assert(d.reverse().reverse() =~= d);
    }
}

/// Reading back the wire form of `v` gives `v`, whatever bytes follow it.
pub proof fn lemma_u16_round_trip(v: u16, bo: ByteOrder, rest: Seq<u8>)
    ensures
        u16_value(u16_bytes(v, bo) + rest, bo) == v,
        u16_bytes(v, bo).len() == 2,
{
    lemma_le_digits_prefix(le_u16(v), rest, bo);
    assert(u16_of_le(le_u16(v)) == v) by {
        assert(((v & 0xff) as u8 as u16) | ((((v >> 8u16) & 0xff) as u8 as u16) << 8u16) == v)
            by (bit_vector);
    }
}

/// Reading back the wire form of `v` gives `v`, whatever bytes follow it.
pub proof fn lemma_u32_round_trip(v: u32, bo: ByteOrder, rest: Seq<u8>)
    ensures
        u32_value(u32_bytes(v, bo) + rest, bo) == v,
        u32_bytes(v, bo).len() == 4,
{
    lemma_le_digits_prefix(le_u32(v), rest, bo);
    assert(u32_of_le(le_u32(v)) == v) by {
        assert(((v & 0xff) as u8 as u32) | ((((v >> 8u32) & 0xff) as u8 as u32) << 8u32) | (((
        (v >> 16u32) & 0xff) as u8 as u32) << 16u32) | ((((v >> 24u32) & 0xff) as u8 as u32)
            << 24u32) == v) by (bit_vector);
    }
}

/// Reading back the wire form of `v` gives `v`, whatever bytes follow it.
pub proof fn lemma_u64_round_trip(v: u64, bo: ByteOrder, rest: Seq<u8>)
    ensures
        u64_value(u64_bytes(v, bo) + rest, bo) == v,
        u64_bytes(v, bo).len() == 8,
{
    lemma_le_digits_prefix(le_u64(v), rest, bo);
    assert(u64_of_le(le_u64(v)) == v) by {
        assert(((v & 0xff) as u8 as u64) | ((((v >> 8u64) & 0xff) as u8 as u64) << 8u64) | (((
        (v >> 16u64) & 0xff) as u8 as u64) << 16u64) | ((((v >> 24u64) & 0xff) as u8 as u64)
            << 24u64) | ((((v >> 32u64) & 0xff) as u8 as u64) << 32u64) | ((((v >> 40u64) & 0xff)
            as u8 as u64) << 40u64) | ((((v >> 48u64) & 0xff) as u8 as u64) << 48u64) | ((((v
            >> 56u64) & 0xff) as u8 as u64) << 56u64) == v) by (bit_vector);
    }
}

/// Reading back the wire form of `v` gives `v`, whatever bytes follow it.
pub proof fn lemma_i32_round_trip(v: i32, bo: ByteOrder, rest: Seq<u8>)
    ensures
        i32_value(i32_bytes(v, bo) + rest, bo) == v,
        i32_bytes(v, bo).len() == 4,
{
    lemma_u32_round_trip(v as u32, bo, rest);
    assert((v as u32) as i32 == v) by (bit_vector);
}

/// Appends the digits `le` (least significant first) in the order `bo` asks for.
fn put_ordered(out: &mut Vec<u8>, le: &[u8], bo: &ByteOrder)
    ensures
        final(out)@ == old(out)@ + ordered(le@, *bo),
{
    let ghost start = out@;
    let n = le.len();
    let mut i: usize = 0;
    while i < n
        invariant
            n == le@.len(),
            i <= n,
            out@ == start + (match *bo {
                ByteOrder::LittleEndian => le@.subrange(0, i as int),
                ByteOrder::BigEndian => le@.reverse().subrange(0, i as int),
            }),
        decreases n - i,
    {
        match bo {
            ByteOrder::LittleEndian => out.push(le[i]),
            ByteOrder::BigEndian => out.push(le[n - 1 - i]),
        }
        i = i + 1;
        proof {
            match *bo {
                ByteOrder::LittleEndian => {
                    assert(le@.subrange(0, i as int) =~= le@.subrange(0, i - 1) + seq![le@[i - 1]]);
                },
                ByteOrder::BigEndian => {
                    assert(le@.reverse().subrange(0, i as int) =~= le@.reverse().subrange(0, i - 1)
                        + seq![le@[n - i]]);
                },
            }
        }
    }
    proof {
        assert(le@.subrange(0, n as int) =~= le@);
        assert(le@.reverse().subrange(0, n as int) =~= le@.reverse());
    }
}

/// Appends the wire form of a 16-bit integer.
pub fn put_u16(out: &mut Vec<u8>, v: u16, bo: &ByteOrder)
    ensures
        final(out)@ == old(out)@ + u16_bytes(v, *bo),
{
    let le = [(v & 0xff) as u8, ((v >> 8u16) & 0xff) as u8];
    assert(le@ =~= le_u16(v));
    put_ordered(out, &le, bo);
}

/// Appends the wire form of a 32-bit integer.
pub fn put_u32(out: &mut Vec<u8>, v: u32, bo: &ByteOrder)
    ensures
        final(out)@ == old(out)@ + u32_bytes(v, *bo),
{
    let le = [
        (v & 0xff) as u8,
        ((v >> 8u32) & 0xff) as u8,
        ((v >> 16u32) & 0xff) as u8,
        ((v >> 24u32) & 0xff) as u8,
    ];
    assert(le@ =~= le_u32(v));
    put_ordered(out, &le, bo);
}

/// Appends the wire form of a 64-bit integer.
pub fn put_u64(out: &mut Vec<u8>, v: u64, bo: &ByteOrder)
    ensures
        final(out)@ == old(out)@ + u64_bytes(v, *bo),
{
    let le = [
        (v & 0xff) as u8,
        ((v >> 8u64) & 0xff) as u8,
        ((v >> 16u64) & 0xff) as u8,
        ((v >> 24u64) & 0xff) as u8,
        ((v >> 32u64) & 0xff) as u8,
        ((v >> 40u64) & 0xff) as u8,
        ((v >> 48u64) & 0xff) as u8,
        ((v >> 56u64) & 0xff) as u8,
    ];
    assert(le@ =~= le_u64(v));
    put_ordered(out, &le, bo);
}

/// Appends the wire form of a signed 32-bit integer.
pub fn put_i32(out: &mut Vec<u8>, v: i32, bo: &ByteOrder)
    ensures
        final(out)@ == old(out)@ + i32_bytes(v, *bo),
{
    put_u32(out, v as u32, bo);
}

/// Copies the first `n` bytes of `b` into little-endian digit order.
fn digits(b: &[u8], n: usize, bo: &ByteOrder) -> (r: Vec<u8>)
    requires
        n <= b@.len(),
    ensures
        r@ == le_digits(b@, n as int, *bo),
{
    let mut r: Vec<u8> = Vec::new();
    let mut i: usize = 0;
    while i < n
        invariant
            n <= b@.len(),
            i <= n,
            r@ == le_digits(b@, n as int, *bo).subrange(0, i as int),
        decreases n - i,
    {
        match bo {
            ByteOrder::LittleEndian => r.push(b[i]),
            ByteOrder::BigEndian => r.push(b[n - 1 - i]),
        }
        i = i + 1;
        assert(r@ =~= le_digits(b@, n as int, *bo).subrange(0, i as int));
    }
    assert(r@ =~= le_digits(b@, n as int, *bo));
    r
}

/// Reads a 16-bit integer from the start of `b`; fails on fewer than two bytes.
pub fn bytes_to_u16(b: &[u8], bo: &ByteOrder) -> (r: Result<u16, Error>)
    ensures
        b@.len() >= 2 ==> r == Ok::<u16, Error>(u16_value(b@, *bo)),
        b@.len() < 2 ==> r == Err::<u16, Error>(Error::InvalidData),
{
    if b.len() < 2 {
        return Err(Error::InvalidData);
    }
    let d = digits(b, 2, bo);
    Ok((d[0] as u16) | ((d[1] as u16) << 8u16))
}

/// Reads a 32-bit integer from the start of `b`; fails on fewer than four bytes.
pub fn bytes_to_u32(b: &[u8], bo: &ByteOrder) -> (r: Result<u32, Error>)
    ensures
        b@.len() >= 4 ==> r == Ok::<u32, Error>(u32_value(b@, *bo)),
        b@.len() < 4 ==> r == Err::<u32, Error>(Error::InvalidData),
{
    if b.len() < 4 {
        return Err(Error::InvalidData);
    }
    let d = digits(b, 4, bo);
    Ok((d[0] as u32) | ((d[1] as u32) << 8u32) | ((d[2] as u32) << 16u32) | ((d[3] as u32)
        << 24u32))
}

/// Reads a 64-bit integer from the start of `b`; fails on fewer than eight bytes.
pub fn bytes_to_u64(b: &[u8], bo: &ByteOrder) -> (r: Result<u64, Error>)
    ensures
        b@.len() >= 8 ==> r == Ok::<u64, Error>(u64_value(b@, *bo)),
        b@.len() < 8 ==> r == Err::<u64, Error>(Error::InvalidData),
{
    if b.len() < 8 {
        return Err(Error::InvalidData);
    }
    let d = digits(b, 8, bo);
    Ok((d[0] as u64) | ((d[1] as u64) << 8u64) | ((d[2] as u64) << 16u64) | ((d[3] as u64)
        << 24u64) | ((d[4] as u64) << 32u64) | ((d[5] as u64) << 40u64) | ((d[6] as u64)
        << 48u64) | ((d[7] as u64) << 56u64))
}

/// Reads a signed 32-bit integer from the start of `b`; fails on fewer than four bytes.
pub fn bytes_to_i32(b: &[u8], bo: &ByteOrder) -> (r: Result<i32, Error>)
    ensures
        b@.len() >= 4 ==> r == Ok::<i32, Error>(i32_value(b@, *bo)),
        b@.len() < 4 ==> r == Err::<i32, Error>(Error::InvalidData),
{
    match bytes_to_u32(b, bo) {
        Ok(v) => Ok(v as i32),
        Err(e) => Err(e),
    }
}

/// The bytes of `b` from position `n` on.
pub fn tail(b: &[u8], n: usize) -> (r: &[u8])
    requires
        n <= b@.len(),
    ensures
        r@ == b@.skip(n as int),
{
    let (_, rest) = b.split_at(n);
    rest
}

} // verus!
