//! The fixed 20-byte PDU header, the wire enumerations, and the framing and
//! context handling that every PDU shares.
use vstd::prelude::*;

use crate::encodings::context::Context;
use crate::encodings::octetstring::{lemma_octets_round_trip, octets_bytes, octets_fit, octets_parse, octets_size};
use crate::wire::{bytes_to_u16, bytes_to_u32, lemma_u16_round_trip, lemma_u32_round_trip, put_u16, put_u32, tail, u16_bytes, u16_value, u32_bytes, u32_value, ByteOrder, Error};

verus! {

/// Flag bit used in the Register PDU.
pub const INSTANCE_REGISTRATION: u8 = 0;

/// Flag bit used in the IndexAllocate and IndexDeallocate PDUs.
pub const NEW_INDEX: u8 = 1;

/// Flag bit used in the IndexAllocate and IndexDeallocate PDUs.
pub const ANY_INDEX: u8 = 2;

/// Flag bit set when a PDU carries a non-default context.
pub const NON_DEFAULT_CONTEXT: u8 = 3;

/// Flag bit set when every multi-byte integer of the PDU is big endian.
pub const NETWORK_BYTE_ORDER: u8 = 4;

/// The size of the header in bytes.
pub const HEADER_SIZE: usize = 20;

/// The kinds of PDU.
#[derive(Clone, Copy, Debug, PartialEq, Eq, Structural, PartialOrd, Ord, Hash)]
pub enum Type {
    Open,
    Close,
    Register,
    Unregister,
    Get,
    GetNext,
    GetBulk,
    TestSet,
    CommitSet,
    UndoSet,
    CleanupSet,
    Notify,
    Ping,
    IndexAllocate,
    IndexDeallocate,
    AddAgentCaps,
    RemoveAgentCaps,
    Response,
}

/// The wire code of each kind of PDU: 1 to 18.
pub open spec fn type_code(t: Type) -> u8 {
    match t {
        Type::Open => 1,
        Type::Close => 2,
        Type::Register => 3,
        Type::Unregister => 4,
        Type::Get => 5,
        Type::GetNext => 6,
        Type::GetBulk => 7,
        Type::TestSet => 8,
        Type::CommitSet => 9,
        Type::UndoSet => 10,
        Type::CleanupSet => 11,
        Type::Notify => 12,
        Type::Ping => 13,
        Type::IndexAllocate => 14,
        Type::IndexDeallocate => 15,
        Type::AddAgentCaps => 16,
        Type::RemoveAgentCaps => 17,
        Type::Response => 18,
    }
}

/// The kind of PDU a wire code names, if any.
pub open spec fn type_of_code(b: u8) -> Option<Type> {
    if 1 <= b <= 18 {
        Some(choose|t: Type| type_code(t) == b)
    } else {
        None
    }
}

impl Type {
    /// The wire code of this kind of PDU.
    pub fn to_byte(&self) -> (r: u8)
        ensures
            r == type_code(*self),
    {
        match self {
            Type::Open => 1,
            Type::Close => 2,
            Type::Register => 3,
            Type::Unregister => 4,
            Type::Get => 5,
            Type::GetNext => 6,
            Type::GetBulk => 7,
            Type::TestSet => 8,
            Type::CommitSet => 9,
            Type::UndoSet => 10,
            Type::CleanupSet => 11,
            Type::Notify => 12,
            Type::Ping => 13,
            Type::IndexAllocate => 14,
            Type::IndexDeallocate => 15,
            Type::AddAgentCaps => 16,
            Type::RemoveAgentCaps => 17,
            Type::Response => 18,
        }
    }

    /// The kind of PDU of a wire code; codes outside 1 to 18 are an error.
    pub fn from_byte(b: u8) -> (r: Result<Type, Error>)
        ensures
            r is Ok <==> 1 <= b <= 18,
            r matches Ok(t) ==> type_code(t) == b,
            r is Err ==> r == Err::<Type, Error>(Error::InvalidData),
    {
        let t = match b {
            1 => Type::Open,
            2 => Type::Close,
            3 => Type::Register,
            4 => Type::Unregister,
            5 => Type::Get,
            6 => Type::GetNext,
            7 => Type::GetBulk,
            8 => Type::TestSet,
            9 => Type::CommitSet,
            10 => Type::UndoSet,
            11 => Type::CleanupSet,
            12 => Type::Notify,
            13 => Type::Ping,
            14 => Type::IndexAllocate,
            15 => Type::IndexDeallocate,
            16 => Type::AddAgentCaps,
            17 => Type::RemoveAgentCaps,
            18 => Type::Response,
            _ => return Err(Error::InvalidData),
        };
        Ok(t)
    }
}

/// Two kinds of PDU with the same code are the same kind.
pub proof fn lemma_type_code_injective(a: Type, b: Type)
    ensures
        type_code(a) == type_code(b) ==> a == b,
        1 <= type_code(a) <= 18,
        type_of_code(type_code(a)) == Some(a),
{
    if type_code(a) == type_code(b) {
        assert(a == b);
    }
    let t = choose|t: Type| type_code(t) == type_code(a);
    assert(type_code(t) == type_code(a));
    assert(t == a);
}

/// Why a session was closed.
#[derive(Clone, Copy, Debug, PartialEq, Eq, Structural, PartialOrd, Ord, Hash)]
pub enum CloseReason {
    /// none of the following reasons
    Other,
    /// too many parse errors from the peer
    ParseError,
    /// too many protocol errors from the peer
    ProtocolError,
    /// too many timeouts waiting for the peer
    Timeouts,
    /// the sender is shutting down
    Shutdown,
    /// closed by a manager's set operation
    ByManager,
}

/// The wire code of each close reason: 1 to 6.
pub open spec fn reason_code(r: CloseReason) -> u8 {
    match r {
        CloseReason::Other => 1,
        CloseReason::ParseError => 2,
        CloseReason::ProtocolError => 3,
        CloseReason::Timeouts => 4,
        CloseReason::Shutdown => 5,
        CloseReason::ByManager => 6,
    }
}

impl CloseReason {
    /// The wire code of this reason.
    pub fn to_byte(&self) -> (r: u8)
        ensures
            r == reason_code(*self),
    {
        match self {
            CloseReason::Other => 1,
            CloseReason::ParseError => 2,
            CloseReason::ProtocolError => 3,
            CloseReason::Timeouts => 4,
            CloseReason::Shutdown => 5,
            CloseReason::ByManager => 6,
        }
    }

    /// The reason of a wire code; codes outside 1 to 6 are an error.
    pub fn from_byte(b: u8) -> (r: Result<CloseReason, Error>)
        ensures
            r is Ok <==> 1 <= b <= 6,
            r matches Ok(x) ==> reason_code(x) == b,
            r is Err ==> r == Err::<CloseReason, Error>(Error::InvalidData),
    {
        let x = match b {
            1 => CloseReason::Other,
            2 => CloseReason::ParseError,
            3 => CloseReason::ProtocolError,
            4 => CloseReason::Timeouts,
            5 => CloseReason::Shutdown,
            6 => CloseReason::ByManager,
            _ => return Err(Error::InvalidData),
        };
        Ok(x)
    }
}

/// The error status of a Response.
#[derive(Clone, Copy, Debug, PartialEq, Eq, Structural, PartialOrd, Ord, Hash)]
pub enum ResError {
    NoAgentXError,
    OpenFailed,
    NotOpen,
    IndexWrongType,
    IndexAlreadyAllocated,
    IndexNoneAvailable,
    IndexNotAllocated,
    UnsupportedContext,
    DuplicateRegistration,
    UnknownRegistration,
    UnknownAgentCaps,
    ParseError,
    RequestDenied,
    ProcessingError,
}

/// The wire code of each error status: 0, then 256 to 268.
pub open spec fn res_error_code(e: ResError) -> u16 {
    match e {
        ResError::NoAgentXError => 0,
        ResError::OpenFailed => 256,
        ResError::NotOpen => 257,
        ResError::IndexWrongType => 258,
        ResError::IndexAlreadyAllocated => 259,
        ResError::IndexNoneAvailable => 260,
        ResError::IndexNotAllocated => 261,
        ResError::UnsupportedContext => 262,
        ResError::DuplicateRegistration => 263,
        ResError::UnknownRegistration => 264,
        ResError::UnknownAgentCaps => 265,
        ResError::ParseError => 266,
        ResError::RequestDenied => 267,
        ResError::ProcessingError => 268,
    }
}

/// A 16-bit value is the code of some error status.
pub open spec fn is_res_error_code(v: u16) -> bool {
    v == 0 || 256 <= v <= 268
}

impl ResError {
    /// The wire code of this status.
    pub fn code(&self) -> (r: u16)
        ensures
            r == res_error_code(*self),
    {
        match self {
            ResError::NoAgentXError => 0,
            ResError::OpenFailed => 256,
            ResError::NotOpen => 257,
            ResError::IndexWrongType => 258,
            ResError::IndexAlreadyAllocated => 259,
            ResError::IndexNoneAvailable => 260,
            ResError::IndexNotAllocated => 261,
            ResError::UnsupportedContext => 262,
            ResError::DuplicateRegistration => 263,
            ResError::UnknownRegistration => 264,
            ResError::UnknownAgentCaps => 265,
            ResError::ParseError => 266,
            ResError::RequestDenied => 267,
            ResError::ProcessingError => 268,
        }
    }

    /// Serializes the status code in byte order `bo`.
    pub fn to_bytes(&self, bo: &ByteOrder) -> (r: [u8; 2])
        ensures
            r@ == u16_bytes(res_error_code(*self), *bo),
    {
        let mut v: Vec<u8> = Vec::new();
        put_u16(&mut v, self.code(), bo);
        assert(v@.len() == 2) by {
            lemma_u16_round_trip(res_error_code(*self), *bo, Seq::empty());
        }
        let r = [v[0], v[1]];
        assert(r@ =~= v@);
        r
    }

    /// The number of bytes of the wire form.
    pub fn byte_size(&self) -> (r: usize)
        ensures
            r == 2,
    {
        2
    }

    /// Reads a status code from the start of `b`; fewer than two bytes or an
    /// unknown code is an error.
    pub fn from_bytes(b: &[u8], bo: &ByteOrder) -> (r: Result<ResError, Error>)
        ensures
            r is Ok <==> b@.len() >= 2 && is_res_error_code(u16_value(b@, *bo)),
            r matches Ok(e) ==> res_error_code(e) == u16_value(b@, *bo),
            r is Err ==> r == Err::<ResError, Error>(Error::InvalidData),
    {
        let e = match bytes_to_u16(b, bo)? {
            0 => ResError::NoAgentXError,
            256 => ResError::OpenFailed,
            257 => ResError::NotOpen,
            258 => ResError::IndexWrongType,
            259 => ResError::IndexAlreadyAllocated,
            260 => ResError::IndexNoneAvailable,
            261 => ResError::IndexNotAllocated,
            262 => ResError::UnsupportedContext,
            263 => ResError::DuplicateRegistration,
            264 => ResError::UnknownRegistration,
            265 => ResError::UnknownAgentCaps,
            266 => ResError::ParseError,
            267 => ResError::RequestDenied,
            268 => ResError::ProcessingError,
            _ => return Err(Error::InvalidData),
        };
        Ok(e)
    }
}

/// Two error statuses with the same code are the same status.
pub proof fn lemma_res_error_code_injective(a: ResError, b: ResError)
    ensures
        res_error_code(a) == res_error_code(b) ==> a == b,
        is_res_error_code(res_error_code(a)),
{
}

/// Two close reasons with the same code are the same reason.
pub proof fn lemma_reason_code_injective(a: CloseReason, b: CloseReason)
    ensures
        reason_code(a) == reason_code(b) ==> a == b,
        1 <= reason_code(a) <= 6,
{
}

/// The header that starts every PDU.
#[derive(Clone, Copy, Debug, PartialEq, Eq, Structural, PartialOrd, Ord, Hash)]
pub struct Header {
    /// protocol version (1)
    pub version: u8,
    /// the kind of PDU
    pub ty: Type,
    /// flag bits; bit 4 selects big endian for the whole PDU
    pub flags: u8,
    /// session identifier
    pub session_id: u32,
    /// transaction identifier
    pub transaction_id: u32,
    /// packet identifier
    pub packet_id: u32,
    /// bytes of payload after the header; set when the PDU is serialized
    pub payload_length: u32,
}

/// A version 1 header of kind `ty`, with no flags, zero identifiers and no payload.
pub open spec fn default_header(ty: Type) -> Header {
    Header {
        version: 1,
        ty,
        flags: 0,
        session_id: 0,
        transaction_id: 0,
        packet_id: 0,
        payload_length: 0,
    }
}

/// Flag bit `bit` is set.
pub open spec fn bit_set(flags: u8, bit: u8) -> bool {
    flags & (1u8 << bit) == (1u8 << bit)
}

/// The byte order that a PDU with these flags uses.
pub open spec fn order_of_flags(flags: u8) -> ByteOrder {
    if bit_set(flags, NETWORK_BYTE_ORDER) {
        ByteOrder::BigEndian
    } else {
        ByteOrder::LittleEndian
    }
}

/// A PDU with these flags carries a context.
pub open spec fn context_flag(flags: u8) -> bool {
    bit_set(flags, NON_DEFAULT_CONTEXT)
}

/// Wire form: version, type code, flags, a reserved byte, then the four
/// identifiers and the payload length in the header's byte order.
pub open spec fn header_bytes(h: Header) -> Seq<u8> {
    let bo = order_of_flags(h.flags);
    seq![h.version, type_code(h.ty), h.flags, 0u8] + u32_bytes(h.session_id, bo) + u32_bytes(
        h.transaction_id,
        bo,
    ) + u32_bytes(h.packet_id, bo) + u32_bytes(h.payload_length, bo)
}

/// The header at the start of `b`, if the bytes hold one.
pub open spec fn header_parse(b: Seq<u8>) -> Option<Header> {
    if b.len() < 20 {
        None
    } else {
        match type_of_code(b[1]) {
            None => None,
            Some(ty) => {
                let bo = order_of_flags(b[2]);
                Some(
                    Header {
                        version: b[0],
                        ty,
                        flags: b[2],
                        session_id: u32_value(b.skip(4), bo),
                        transaction_id: u32_value(b.skip(8), bo),
                        packet_id: u32_value(b.skip(12), bo),
                        payload_length: u32_value(b.skip(16), bo),
                    },
                )
            },
        }
    }
}

/// `h` with its payload length set to `n`.
pub open spec fn stamp(h: Header, n: nat) -> Header {
    Header { payload_length: n as u32, ..h }
}

/// A whole PDU: the header, stamped with the payload's length, then the payload.
pub open spec fn framed(h: Header, payload: Seq<u8>) -> Seq<u8> {
    header_bytes(stamp(h, payload.len())) + payload
}

/// Decoding the wire form of a header gives it back, whatever follows it.
pub proof fn lemma_header_round_trip(h: Header, rest: Seq<u8>)
    ensures
        header_parse(header_bytes(h) + rest) == Some(h),
        header_bytes(h).len() == 20,
{
    let bo = order_of_flags(h.flags);
    let s = u32_bytes(h.session_id, bo);
    let t = u32_bytes(h.transaction_id, bo);
    let p = u32_bytes(h.packet_id, bo);
    let l = u32_bytes(h.payload_length, bo);
    lemma_u32_round_trip(h.session_id, bo, t + p + l + rest);
    lemma_u32_round_trip(h.transaction_id, bo, p + l + rest);
    lemma_u32_round_trip(h.packet_id, bo, l + rest);
    lemma_u32_round_trip(h.payload_length, bo, rest);
    lemma_type_code_injective(h.ty, h.ty);
    let b = header_bytes(h) + rest;
    assert(b.skip(4) =~= s + (t + p + l + rest));
    assert(b.skip(8) =~= t + (p + l + rest));
    assert(b.skip(12) =~= p + (l + rest));
    assert(b.skip(16) =~= l + rest);
    assert(b[1] == type_code(h.ty) && b[2] == h.flags && b[0] == h.version);
}

/// The header at the start of `b` and the payload it announces: exactly
/// `payload_length` bytes after the header, all of which must be present.
#[verifier::opaque]
pub open spec fn pdu_body(b: Seq<u8>) -> Option<(Header, Seq<u8>)> {
    match header_parse(b) {
        None => None,
        Some(h) => if b.len() < 20 + h.payload_length {
            None
        } else {
            Some((h, b.subrange(20, 20 + h.payload_length)))
        },
    }
}

/// A written PDU splits back into its stamped header and its payload.
pub proof fn lemma_pdu_body_round_trip(h: Header, p: Seq<u8>)
    requires
        p.len() <= u32::MAX,
    ensures
        pdu_body(framed(h, p)) == Some((stamp(h, p.len()), p)),
{
    reveal(pdu_body);
    let g = stamp(h, p.len());
    lemma_header_round_trip(g, p);
    assert((header_bytes(g) + p).subrange(20, 20 + p.len() as int) =~= p);
}

/// A written PDU cut off anywhere before its last byte has no complete
/// payload.
pub proof fn lemma_pdu_body_truncated(h: Header, p: Seq<u8>, k: int)
    requires
        p.len() <= u32::MAX,
        0 <= k < 20 + p.len(),
    ensures
        pdu_body(framed(h, p).take(k)) is None,
{
    reveal(pdu_body);
    let g = stamp(h, p.len());
    let t = framed(h, p).take(k);
    if k >= 20 {
        lemma_header_round_trip(g, p.take(k - 20));
        assert(t =~= header_bytes(g) + p.take(k - 20));
    }
}

/// Reads the header and returns it with the payload it announces; a buffer
/// shorter than the header and that payload is an error. Bytes after the
/// payload are not read.
pub fn header_and_body<'a>(b: &'a [u8]) -> (r: Result<(Header, &'a [u8]), Error>)
    ensures
        r is Ok <==> pdu_body(b@) is Some,
        r matches Ok((h, body)) ==> pdu_body(b@) == Some((h, body@)),
        r is Err ==> r == Err::<(Header, &'a [u8]), Error>(Error::InvalidData),
{
    proof {
        reveal(pdu_body);
    }
    let header = Header::from_bytes(b)?;
    let rest = tail(b, 20);
    let n = header.payload_length as usize;
    if rest.len() < n {
        return Err(Error::InvalidData);
    }
    let (body, _) = rest.split_at(n);
    assert(body@ =~= b@.subrange(20, 20 + n));
    Ok((header, body))
}

/// A header cut off before its twentieth byte does not decode.
pub proof fn lemma_header_truncated(h: Header, k: int)
    requires
        0 <= k < 20,
    ensures
        header_parse(header_bytes(h).take(k)) is None,
{
    lemma_header_round_trip(h, Seq::empty());
}

/// Tests the bits of `mask` in `flags`.
fn is_set(flags: u8, mask: u8) -> (r: bool)
    ensures
        r == (flags & mask == mask),
{
    flags & mask == mask
}

/// The byte order that a PDU with these flags uses.
fn header_byte_order(flags: u8) -> (r: ByteOrder)
    ensures
        r == order_of_flags(flags),
{
    if is_set(flags, 1u8 << NETWORK_BYTE_ORDER) {
        ByteOrder::BigEndian
    } else {
        ByteOrder::LittleEndian
    }
}

impl Header {
    /// A version 1 header of kind `ty`, with no flags, zero identifiers and no payload.
    pub fn new(ty: Type) -> (r: Header)
        ensures
            r == default_header(ty),
    {
        Header {
            version: 1,
            ty,
            flags: 0,
            session_id: 0,
            transaction_id: 0,
            packet_id: 0,
            payload_length: 0,
        }
    }

    /// The byte order of the PDU this header starts.
    pub fn byte_order(&self) -> (r: ByteOrder)
        ensures
            r == order_of_flags(self.flags),
    {
        header_byte_order(self.flags)
    }

    /// Whether the PDU carries a non-default context.
    pub fn has_context(&self) -> (r: bool)
        ensures
            r == context_flag(self.flags),
    {
        is_set(self.flags, 1u8 << NON_DEFAULT_CONTEXT)
    }

    /// Serializes to the 20 header bytes.
    pub fn to_bytes(&self) -> (r: Vec<u8>)
        ensures
            r@ == header_bytes(*self),
    {
        let mut result: Vec<u8> = Vec::new();
        result.push(self.version);
        result.push(self.ty.to_byte());
        result.push(self.flags);
        result.push(0);
        let bo = self.byte_order();
        put_u32(&mut result, self.session_id, &bo);
        put_u32(&mut result, self.transaction_id, &bo);
        put_u32(&mut result, self.packet_id, &bo);
        put_u32(&mut result, self.payload_length, &bo);
        assert(result@ =~= header_bytes(*self));
        result
    }

    /// Deserializes from the start of `b`; fewer than 20 bytes or an unknown
    /// type code is an error.
    pub fn from_bytes(b: &[u8]) -> (r: Result<Header, Error>)
        ensures
            r is Ok <==> header_parse(b@) is Some,
            r matches Ok(h) ==> h == header_parse(b@).unwrap(),
            r is Err ==> r == Err::<Header, Error>(Error::InvalidData),
    {
        if b.len() < HEADER_SIZE {
            return Err(Error::InvalidData);
        }
        let version = b[0];
        let ty = Type::from_byte(b[1])?;
        proof {
            lemma_type_code_injective(ty, ty);
        }
        let flags = b[2];
        let bo = header_byte_order(flags);
        let session_id = bytes_to_u32(tail(b, 4), &bo)?;
        let transaction_id = bytes_to_u32(tail(b, 8), &bo)?;
        let packet_id = bytes_to_u32(tail(b, 12), &bo)?;
        let payload_length = bytes_to_u32(tail(b, 16), &bo)?;
        Ok(Header { version, ty, flags, session_id, transaction_id, packet_id, payload_length })
    }

    /// The number of bytes of the header.
    pub fn byte_size(&self) -> (r: usize)
        ensures
            r == 20,
    {
        HEADER_SIZE
    }

    /// Records the payload length; fails when it does not fit 32 bits.
    pub fn set_payload_len(&mut self, len: usize) -> (r: Result<(), Error>)
        ensures
            r is Ok <==> len <= u32::MAX,
            r is Ok ==> *final(self) == stamp(*old(self), len as nat),
            r is Err ==> *final(self) == *old(self) && r == Err::<(), Error>(Error::InvalidData),
    {
        if len > 0xffff_ffffusize {
            return Err(Error::InvalidData);
        }
        self.payload_length = len as u32;
        Ok(())
    }
}

/// Stamps the payload length into the header and puts the header in front of
/// the payload; fails when the payload is too long for the length field.
pub fn frame(header: &mut Header, payload: Vec<u8>) -> (r: Result<Vec<u8>, Error>)
    ensures
        r is Ok <==> payload@.len() <= u32::MAX,
        r is Ok ==> *final(header) == stamp(*old(header), payload@.len()),
        r matches Ok(v) ==> v@ == framed(*old(header), payload@),
        r is Err ==> *final(header) == *old(header) && r == Err::<Vec<u8>, Error>(Error::InvalidData),
{
    let mut payload = payload;
    header.set_payload_len(payload.len())?;
    let mut result = header.to_bytes();
    result.append(&mut payload);
    Ok(result)
}

/// What an optional context holds.
pub open spec fn context_view(c: Option<Context>) -> Option<Seq<char>> {
    match c {
        Some(x) => Some(x@),
        None => None,
    }
}

/// The wire form of an optional context: nothing when there is none.
pub open spec fn context_bytes(c: Option<Seq<char>>, bo: ByteOrder) -> Seq<u8> {
    match c {
        Some(s) => octets_bytes(s, bo),
        None => Seq::empty(),
    }
}

/// The number of bytes of an optional context, padding included.
pub open spec fn context_size(c: Option<Seq<char>>) -> nat {
    match c {
        Some(s) => octets_size(s),
        None => 0,
    }
}

/// An optional context can be written: its name fits the length field.
pub open spec fn context_fit(c: Option<Seq<char>>) -> bool {
    match c {
        Some(s) => octets_fit(s),
        None => true,
    }
}

/// A PDU carries a context exactly when its header's flag says so.
pub open spec fn context_agrees(h: Header, c: Option<Seq<char>>) -> bool {
    c is Some <==> context_flag(h.flags)
}

/// The context at the start of a payload, read when the header's flag asks
/// for one.
pub open spec fn context_parse(h: Header, b: Seq<u8>) -> Option<Option<Seq<char>>> {
    if context_flag(h.flags) {
        match octets_parse(b, order_of_flags(h.flags)) {
            Some(s) => Some(Some(s)),
            None => None,
        }
    } else {
        Some(None)
    }
}

/// The context at the start of a payload and the bytes after it, padding
/// included; padding cut short is an error.
pub open spec fn context_split(h: Header, b: Seq<u8>) -> Option<(Option<Seq<char>>, Seq<u8>)> {
    match context_parse(h, b) {
        None => None,
        Some(c) => if context_size(c) > b.len() {
            None
        } else {
            Some((c, b.skip(context_size(c) as int)))
        },
    }
}

/// Reading back an optional context that agrees with the header's flag gives
/// it back, and the bytes after it.
pub proof fn lemma_context_round_trip(h: Header, c: Option<Seq<char>>, rest: Seq<u8>)
    requires
        context_fit(c),
        context_agrees(h, c),
    ensures
        context_parse(h, context_bytes(c, order_of_flags(h.flags)) + rest) == Some(c),
        context_split(h, context_bytes(c, order_of_flags(h.flags)) + rest) == Some((c, rest)),
        context_bytes(c, order_of_flags(h.flags)).len() == context_size(c),
{
    let bo = order_of_flags(h.flags);
    match c {
        Some(s) => {
            lemma_octets_round_trip(s, bo, rest);
            assert((octets_bytes(s, bo) + rest).skip(octets_size(s) as int) =~= rest);
        },
        None => {
            assert(Seq::<u8>::empty() + rest =~= rest);
            assert(rest.skip(0) =~= rest);
        },
    }
}

/// Appends the wire form of an optional context; fails when its name is too
/// long for the length field.
pub fn put_context(payload: &mut Vec<u8>, c: &Option<Context>, bo: &ByteOrder) -> (r: Result<
    (),
    Error,
>)
    ensures
        r is Ok <==> context_fit(context_view(*c)),
        r is Ok ==> final(payload)@ == old(payload)@ + context_bytes(context_view(*c), *bo),
        r is Err ==> r == Err::<(), Error>(Error::InvalidData),
{
    match c {
        Some(ctx) => {
            let mut bytes = ctx.to_bytes(bo)?;
            payload.append(&mut bytes);
        },
        None => {
            assert(payload@ + Seq::<u8>::empty() =~= payload@);
        },
    }
    Ok(())
}

/// Reads the context at the start of a payload when the header's flag asks for one.
pub fn context_from_bytes(header: &Header, b: &[u8]) -> (r: Result<Option<Context>, Error>)
    ensures
        r is Ok <==> context_parse(*header, b@) is Some,
        r matches Ok(c) ==> context_view(c) == context_parse(*header, b@).unwrap(),
        r is Err ==> r == Err::<Option<Context>, Error>(Error::InvalidData),
{
    let bo = header.byte_order();
    if header.has_context() {
        Ok(Some(Context::from_bytes(b, &bo)?))
    } else {
        Ok(None)
    }
}

/// Reads the optional context at the start of a payload and returns the bytes
/// after it, padding included.
pub fn context_and_rest<'a>(header: &Header, b: &'a [u8]) -> (r: Result<
    (Option<Context>, &'a [u8]),
    Error,
>)
    ensures
        r is Ok <==> context_split(*header, b@) is Some,
        r matches Ok((c, rest)) ==> context_split(*header, b@) == Some((context_view(c), rest@)),
        r is Err ==> r == Err::<(Option<Context>, &'a [u8]), Error>(Error::InvalidData),
{
    let context = context_from_bytes(header, b)?;
    let avail = b.len();
    match &context {
        Some(c) => {
            let size = match c.0.checked_byte_size() {
                Some(size) => size,
                None => return Err(Error::InvalidData),
            };
            if size > avail {
                return Err(Error::InvalidData);
            }
            let rest = tail(b, size);
            Ok((context, rest))
        },
        None => {
            assert(b@.skip(0) =~= b@);
            Ok((context, b))
        },
    }
}

} // verus!
