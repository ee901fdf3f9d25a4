//! The PDUs that open and close a session and register what a subagent
//! serves: Open, Close, Register, Unregister, Ping, AddAgentCaps and
//! RemoveAgentCaps.
use vstd::prelude::*;

use crate::encodings::context::Context;
use crate::encodings::id::{id_bytes, id_canonical, id_parse, id_size, lemma_id_round_trip, IdView, ID};
use crate::encodings::octetstring::{lemma_octets_round_trip, octets_bytes, octets_fit, octets_parse, OctetString};
use crate::pdu::header::{
    context_agrees, context_and_rest, context_bytes, context_fit, context_from_bytes, context_parse, context_split, context_view, default_header, frame, framed, header_and_body, lemma_context_round_trip, lemma_pdu_body_round_trip, lemma_reason_code_injective, order_of_flags, pdu_body, put_context, reason_code, stamp, CloseReason, Header, Type,
};
use crate::time::{Duration, DurationView};
use crate::wire::{bytes_to_u32, lemma_u32_round_trip, put_u32, tail, u32_bytes, u32_value, ByteOrder, Error};

verus! {

/// A timeout as the wire holds it: whole seconds, at most 255.
pub open spec fn timeout_fit(d: DurationView) -> bool {
    d.secs <= 255
}

/// A timeout that comes back unchanged from its wire form.
pub open spec fn timeout_exact(d: DurationView) -> bool {
    timeout_fit(d) && d.nanos == 0
}

/// The timeout of a wire byte.
pub open spec fn timeout_of_byte(b: u8) -> DurationView {
    DurationView { secs: b as u64, nanos: 0 }
}

/// The wire byte of a timeout; fails above 255 seconds.
fn timeout_byte(d: &Duration) -> (r: Result<u8, Error>)
    ensures
        r is Ok <==> timeout_fit(d@),
        r matches Ok(b) ==> b == d@.secs,
        r is Err ==> r == Err::<u8, Error>(Error::InvalidData),
{
    let secs = d.as_secs();
    if secs > 255 {
        return Err(Error::InvalidData);
    }
    Ok(secs as u8)
}

/// The optional upper bound of a registered range.
pub open spec fn upper_bound_bytes(u: Option<u32>, bo: ByteOrder) -> Seq<u8> {
    match u {
        Some(v) => u32_bytes(v, bo),
        None => Seq::empty(),
    }
}

/// A subtree and, when `range_subid` is not zero, the upper bound after it.
pub open spec fn subtree_parse(range_subid: u8, b: Seq<u8>, bo: ByteOrder) -> Option<(IdView, Option<u32>)> {
    match id_parse(b, bo) {
        None => None,
        Some(t) => if id_size(t) > b.len() {
            None
        } else {
            let after = b.skip(id_size(t) as int);
            if range_subid == 0 {
                Some((t, None))
            } else if after.len() >= 4 {
                Some((t, Some(u32_value(after, bo))))
            } else {
                None
            }
        },
    }
}

/// Reading back a subtree and its upper bound gives them back.
proof fn lemma_subtree_round_trip(range_subid: u8, t: IdView, u: Option<u32>, bo: ByteOrder)
    requires
        id_canonical(t),
        u is Some <==> range_subid != 0,
    ensures
        subtree_parse(range_subid, id_bytes(t, bo) + upper_bound_bytes(u, bo), bo) == Some((t, u)),
{
    let ub = upper_bound_bytes(u, bo);
    lemma_id_round_trip(t, bo, ub);
    assert((id_bytes(t, bo) + ub).skip(id_size(t) as int) =~= ub);
    if let Some(v) = u {
        lemma_u32_round_trip(v, bo, Seq::empty());
        assert(ub + Seq::<u8>::empty() =~= ub);
    }
}

/// Reads a subtree and, when `range_subid` is not zero, the upper bound after it.
fn subtree_from_bytes(range_subid: u8, b: &[u8], bo: &ByteOrder) -> (r: Result<(ID, Option<u32>), Error>)
    ensures
        r is Ok <==> subtree_parse(range_subid, b@, *bo) is Some,
        r matches Ok((t, u)) ==> subtree_parse(range_subid, b@, *bo) == Some((t@, u)),
        r is Err ==> r == Err::<(ID, Option<u32>), Error>(Error::InvalidData),
{
    let subtree = ID::from_bytes(b, bo)?;
    let size = subtree.byte_size();
    if size > b.len() {
        return Err(Error::InvalidData);
    }
    let after = tail(b, size);
    let upper_bound = if range_subid != 0 {
        Some(bytes_to_u32(after, bo)?)
    } else {
        None
    };
    Ok((subtree, upper_bound))
}

/// Writes a subtree and its optional upper bound.
fn put_subtree(payload: &mut Vec<u8>, subtree: &ID, upper_bound: &Option<u32>, bo: &ByteOrder)
    ensures
        final(payload)@ == old(payload)@ + id_bytes(subtree@, *bo) + upper_bound_bytes(*upper_bound, *bo),
{
    let mut t = subtree.to_bytes(bo);
    payload.append(&mut t);
    if let Some(u) = upper_bound {
        put_u32(payload, *u, bo);
    } else {
        assert(payload@ + Seq::<u8>::empty() =~= payload@);
    }
}

/// What an Open PDU holds.
pub struct OpenView {
    pub header: Header,
    pub context: Option<Seq<char>>,
    pub timeout: DurationView,
    pub id: IdView,
    pub descr: Seq<char>,
}

/// Payload of Open: the optional context, the timeout and three reserved
/// bytes, the subagent's identifier, then its description.
pub open spec fn open_payload(v: OpenView) -> Seq<u8> {
    let bo = order_of_flags(v.header.flags);
    context_bytes(v.context, bo) + seq![v.timeout.secs as u8, 0u8, 0u8, 0u8] + id_bytes(v.id, bo)
        + octets_bytes(v.descr, bo)
}

/// An Open PDU can be written.
pub open spec fn open_fit(v: OpenView) -> bool {
    context_fit(v.context) && timeout_fit(v.timeout) && octets_fit(v.descr) && open_payload(v).len()
        <= u32::MAX
}

/// The fields of an Open PDU after its context: timeout, identifier and description.
pub open spec fn open_fields_parse(rest: Seq<u8>, bo: ByteOrder) -> Option<(DurationView, IdView, Seq<char>)> {
    if rest.len() < 4 {
        None
    } else {
        let r = rest.skip(4);
        match id_parse(r, bo) {
            None => None,
            Some(id) => if id_size(id) > r.len() {
                None
            } else {
                match octets_parse(r.skip(id_size(id) as int), bo) {
                    None => None,
                    Some(descr) => Some((timeout_of_byte(rest[0]), id, descr)),
                }
            },
        }
    }
}

/// An Open PDU at the start of `b`.
pub open spec fn open_parse(b: Seq<u8>) -> Option<OpenView> {
    match pdu_body(b) {
        None => None,
        Some((h, body)) => match context_split(h, body) {
            None => None,
            Some((c, rest)) => match open_fields_parse(rest, order_of_flags(h.flags)) {
                None => None,
                Some((timeout, id, descr)) => Some(OpenView { header: h, context: c, timeout, id, descr }),
            },
        },
    }
}

/// Decoding a written Open PDU gives it back, with the payload length it was
/// stamped with.
pub proof fn lemma_open_round_trip(v: OpenView)
    requires
        open_fit(v),
        timeout_exact(v.timeout),
        context_agrees(v.header, v.context),
        id_canonical(v.id),
    ensures
        open_parse(framed(v.header, open_payload(v))) == Some(
            OpenView { header: stamp(v.header, open_payload(v).len()), ..v },
        ),
{
    let p = open_payload(v);
    let h = stamp(v.header, p.len());
    let bo = order_of_flags(h.flags);
    let fixed = seq![v.timeout.secs as u8, 0u8, 0u8, 0u8];
    let ib = id_bytes(v.id, bo);
    let db = octets_bytes(v.descr, bo);
    lemma_pdu_body_round_trip(v.header, p);
    assert(p =~= context_bytes(v.context, bo) + (fixed + ib + db));
    lemma_context_round_trip(h, v.context, fixed + ib + db);
    let rest = fixed + ib + db;
    assert(rest.skip(4) =~= ib + db);
    lemma_id_round_trip(v.id, bo, db);
    assert((ib + db).skip(id_size(v.id) as int) =~= db);
    lemma_octets_round_trip(v.descr, bo, Seq::empty());
    assert(db + Seq::<u8>::empty() =~= db);
    assert(timeout_of_byte(rest[0]) == v.timeout);
}

/// Open PDU: a subagent opens a session.
#[derive(Clone, Debug, PartialEq, Eq, PartialOrd, Hash)]
pub struct Open {
    /// header of type Open
    pub header: Header,
    /// optional non-default context
    pub context: Option<Context>,
    /// how long the master agent waits for this subagent before it gives up
    pub timeout: Duration,
    /// identifier of the subagent; may be the null identifier
    pub id: ID,
    /// description of the subagent
    pub descr: OctetString,
}

impl View for Open {
    type V = OpenView;

    open spec fn view(&self) -> OpenView {
        OpenView {
            header: self.header,
            context: context_view(self.context),
            timeout: self.timeout@,
            id: self.id@,
            descr: self.descr@,
        }
    }
}

impl Default for Open {
    fn default() -> (r: Open)
        ensures
            r.header == default_header(Type::Open),
            r.context is None,
            r.timeout@ == (DurationView { secs: 0, nanos: 0 }),
            r.id@.sub_ids.len() == 0,
            r.descr@.len() == 0,
    {
        Open {
            header: Header::new(Type::Open),
            context: None,
            timeout: Duration::from_secs(0),
            id: ID::null(),
            descr: OctetString(String::new()),
        }
    }
}

impl Open {
    /// An Open PDU for identifier `id` and description `descr`, with a default
    /// header, no context and a zero timeout.
    pub fn new(id: ID, descr: &str) -> (r: Open)
        ensures
            r@ == (OpenView {
                header: default_header(Type::Open),
                context: None,
                timeout: DurationView { secs: 0, nanos: 0 },
                id: id@,
                descr: descr@,
            }),
    {
        Open {
            header: Header::new(Type::Open),
            context: None,
            timeout: Duration::from_secs(0),
            id,
            descr: OctetString(descr.to_string()),
        }
    }

    /// Serializes to bytes, stamping the payload length into the header; fails
    /// when the timeout exceeds 255 seconds or a text or the payload is too
    /// long for its length field.
    pub fn to_bytes(&mut self) -> (r: Result<Vec<u8>, Error>)
        ensures
            r is Ok <==> open_fit(old(self)@),
            r matches Ok(v) ==> v@ == framed(old(self).header, open_payload(old(self)@)),
            r is Ok ==> final(self)@ == (OpenView {
                header: stamp(old(self).header, open_payload(old(self)@).len()),
                ..old(self)@
            }),
            r is Err ==> *final(self) == *old(self) && r == Err::<Vec<u8>, Error>(Error::InvalidData),
    {
        let bo = self.header.byte_order();
        let mut payload: Vec<u8> = Vec::new();
        put_context(&mut payload, &self.context, &bo)?;
        let timeout = timeout_byte(&self.timeout)?;
        payload.push(timeout);
        payload.push(0);
        payload.push(0);
        payload.push(0);
        let mut id = self.id.to_bytes(&bo);
        payload.append(&mut id);
        let mut descr = self.descr.to_bytes(&bo)?;
        payload.append(&mut descr);
        assert(payload@ =~= open_payload(self@));
        frame(&mut self.header, payload)
    }

    /// Deserializes from bytes.
    pub fn from_bytes(b: &[u8]) -> (r: Result<Open, Error>)
        ensures
            r is Ok <==> open_parse(b@) is Some,
            r matches Ok(p) ==> p@ == open_parse(b@).unwrap(),
            r is Err ==> r == Err::<Open, Error>(Error::InvalidData),
    {
        let (header, body) = header_and_body(b)?;
        let bo = header.byte_order();
        let (context, rest) = context_and_rest(&header, body)?;
        if rest.len() < 4 {
            return Err(Error::InvalidData);
        }
        let timeout = Duration::from_secs(rest[0] as u64);
        let r = tail(rest, 4);
        let id = ID::from_bytes(r, &bo)?;
        let size = id.byte_size();
        if size > r.len() {
            return Err(Error::InvalidData);
        }
        let descr = OctetString::from_bytes(tail(r, size), &bo)?;
        Ok(Open { header, context, timeout, id, descr })
    }
}

/// Payload of Close: the reason code and three reserved bytes.
pub open spec fn close_payload(reason: CloseReason) -> Seq<u8> {
    seq![reason_code(reason), 0u8, 0u8, 0u8]
}

/// A Close PDU at the start of `b`: a payload of at least the reason and its
/// three reserved bytes, of which the reason is read.
pub open spec fn close_parse(b: Seq<u8>) -> Option<Close> {
    match pdu_body(b) {
        None => None,
        Some((h, body)) => if body.len() < 4 || !(1 <= body[0] <= 6) {
            None
        } else {
            Some(Close { header: h, reason: choose|r: CloseReason| reason_code(r) == body[0] })
        },
    }
}

/// Decoding a written Close PDU gives it back, with the payload length it was
/// stamped with.
pub proof fn lemma_close_round_trip(c: Close)
    ensures
        close_parse(framed(c.header, close_payload(c.reason))) == Some(
            Close { header: stamp(c.header, 4), ..c },
        ),
{
    let p = close_payload(c.reason);
    lemma_pdu_body_round_trip(c.header, p);
    assert(p[0] == reason_code(c.reason));
    lemma_reason_code_injective(c.reason, c.reason);
    let r = choose|r: CloseReason| reason_code(r) == p[0];
    lemma_reason_code_injective(r, c.reason);
}

/// Close PDU: ends a session.
#[derive(Clone, Copy, Debug, PartialEq, Eq, Structural, PartialOrd, Hash)]
pub struct Close {
    /// header of type Close
    pub header: Header,
    /// why the session ends
    pub reason: CloseReason,
}

impl Default for Close {
    fn default() -> (r: Close)
        ensures
            r == (Close { header: default_header(Type::Close), reason: CloseReason::Other }),
    {
        Close { header: Header::new(Type::Close), reason: CloseReason::Other }
    }
}

impl Close {
    /// A Close PDU for `reason`, with a default header.
    pub fn new(reason: CloseReason) -> (r: Close)
        ensures
            r == (Close { header: default_header(Type::Close), reason }),
    {
        Close { header: Header::new(Type::Close), reason }
    }

    /// Serializes to bytes, stamping the payload length (4) into the header.
    pub fn to_bytes(&mut self) -> (r: Result<Vec<u8>, Error>)
        ensures
            r matches Ok(v) && v@ == framed(old(self).header, close_payload(old(self).reason)),
            *final(self) == (Close { header: stamp(old(self).header, 4), ..*old(self) }),
    {
        let mut payload: Vec<u8> = Vec::new();
        payload.push(self.reason.to_byte());
        payload.push(0);
        payload.push(0);
        payload.push(0);
        assert(payload@ =~= close_payload(self.reason));
        frame(&mut self.header, payload)
    }

    /// Deserializes from bytes; an unknown reason code is an error.
    pub fn from_bytes(b: &[u8]) -> (r: Result<Close, Error>)
        ensures
            r is Ok <==> close_parse(b@) is Some,
            r matches Ok(p) ==> p == close_parse(b@).unwrap(),
            r is Err ==> r == Err::<Close, Error>(Error::InvalidData),
    {
        let (header, body) = header_and_body(b)?;
        if body.len() < 4 {
            return Err(Error::InvalidData);
        }
        let reason = CloseReason::from_byte(body[0])?;
        proof {
            let r = choose|r: CloseReason| reason_code(r) == body@[0];
            lemma_reason_code_injective(r, reason);
        }
        Ok(Close { header, reason })
    }
}

/// What a Register PDU holds.
pub struct RegisterView {
    pub header: Header,
    pub context: Option<Seq<char>>,
    pub timeout: DurationView,
    pub priority: u8,
    pub range_subid: u8,
    pub subtree: IdView,
    pub upper_bound: Option<u32>,
}

/// Payload of Register: the optional context, timeout, priority, range
/// sub-identifier and a reserved byte, the subtree, then the optional upper bound.
pub open spec fn register_payload(v: RegisterView) -> Seq<u8> {
    let bo = order_of_flags(v.header.flags);
    context_bytes(v.context, bo) + seq![v.timeout.secs as u8, v.priority, v.range_subid, 0u8]
        + id_bytes(v.subtree, bo) + upper_bound_bytes(v.upper_bound, bo)
}

/// A Register PDU can be written.
pub open spec fn register_fit(v: RegisterView) -> bool {
    context_fit(v.context) && timeout_fit(v.timeout) && register_payload(v).len() <= u32::MAX
}

/// A Register PDU at the start of `b`: the upper bound is read exactly when
/// the range sub-identifier is not zero.
pub open spec fn register_parse(b: Seq<u8>) -> Option<RegisterView> {
    match pdu_body(b) {
        None => None,
        Some((h, body)) => match context_split(h, body) {
            None => None,
            Some((c, rest)) => if rest.len() < 4 {
                None
            } else {
                match subtree_parse(rest[2], rest.skip(4), order_of_flags(h.flags)) {
                    None => None,
                    Some((t, u)) => Some(
                        RegisterView {
                            header: h,
                            context: c,
                            timeout: timeout_of_byte(rest[0]),
                            priority: rest[1],
                            range_subid: rest[2],
                            subtree: t,
                            upper_bound: u,
                        },
                    ),
                }
            },
        },
    }
}

/// Decoding a written Register PDU gives it back, with the payload length it
/// was stamped with.
pub proof fn lemma_register_round_trip(v: RegisterView)
    requires
        register_fit(v),
        timeout_exact(v.timeout),
        context_agrees(v.header, v.context),
        id_canonical(v.subtree),
        v.upper_bound is Some <==> v.range_subid != 0,
    ensures
        register_parse(framed(v.header, register_payload(v))) == Some(
            RegisterView { header: stamp(v.header, register_payload(v).len()), ..v },
        ),
{
    let p = register_payload(v);
    let h = stamp(v.header, p.len());
    let bo = order_of_flags(h.flags);
    let fixed = seq![v.timeout.secs as u8, v.priority, v.range_subid, 0u8];
    let tb = id_bytes(v.subtree, bo) + upper_bound_bytes(v.upper_bound, bo);
    lemma_pdu_body_round_trip(v.header, p);
    assert(p =~= context_bytes(v.context, bo) + (fixed + tb));
    lemma_context_round_trip(h, v.context, fixed + tb);
    assert((fixed + tb).skip(4) =~= tb);
    lemma_subtree_round_trip(v.range_subid, v.subtree, v.upper_bound, bo);
}

/// Register PDU: a subagent registers a region of the MIB.
#[derive(Clone, Debug, PartialEq, Eq, PartialOrd, Hash)]
pub struct Register {
    /// header of type Register
    pub header: Header,
    /// optional non-default context
    pub context: Option<Context>,
    /// a timeout for this region that overrides the session's; 0 keeps the session's
    pub timeout: Duration,
    /// ranks identical or overlapping registrations of different sessions
    pub priority: u8,
    /// the sub-identifier of `subtree` that is a range; 0 for none
    pub range_subid: u8,
    /// the identifier of the region
    pub subtree: ID,
    /// the upper bound of the range; present exactly when `range_subid` is not 0
    pub upper_bound: Option<u32>,
}

impl View for Register {
    type V = RegisterView;

    open spec fn view(&self) -> RegisterView {
        RegisterView {
            header: self.header,
            context: context_view(self.context),
            timeout: self.timeout@,
            priority: self.priority,
            range_subid: self.range_subid,
            subtree: self.subtree@,
            upper_bound: self.upper_bound,
        }
    }
}

impl Register {
    /// A Register PDU for `subtree`, with a default header, no context, a zero
    /// timeout and priority, and no range.
    pub fn new(subtree: ID) -> (r: Register)
        ensures
            r@ == (RegisterView {
                header: default_header(Type::Register),
                context: None,
                timeout: DurationView { secs: 0, nanos: 0 },
                priority: 0,
                range_subid: 0,
                subtree: subtree@,
                upper_bound: None,
            }),
    {
        Register {
            header: Header::new(Type::Register),
            context: None,
            timeout: Duration::from_secs(0),
            priority: 0,
            range_subid: 0,
            subtree,
            upper_bound: None,
        }
    }

    /// Serializes to bytes, stamping the payload length into the header; fails
    /// when the timeout exceeds 255 seconds or a text or the payload is too
    /// long for its length field.
    pub fn to_bytes(&mut self) -> (r: Result<Vec<u8>, Error>)
        ensures
            r is Ok <==> register_fit(old(self)@),
            r matches Ok(v) ==> v@ == framed(old(self).header, register_payload(old(self)@)),
            r is Ok ==> final(self)@ == (RegisterView {
                header: stamp(old(self).header, register_payload(old(self)@).len()),
                ..old(self)@
            }),
            r is Err ==> *final(self) == *old(self) && r == Err::<Vec<u8>, Error>(Error::InvalidData),
    {
        let bo = self.header.byte_order();
        let mut payload: Vec<u8> = Vec::new();
        put_context(&mut payload, &self.context, &bo)?;
        let timeout = timeout_byte(&self.timeout)?;
        payload.push(timeout);
        payload.push(self.priority);
        payload.push(self.range_subid);
        payload.push(0);
        put_subtree(&mut payload, &self.subtree, &self.upper_bound, &bo);
        assert(payload@ =~= register_payload(self@));
        frame(&mut self.header, payload)
    }

    /// Deserializes from bytes.
    pub fn from_bytes(b: &[u8]) -> (r: Result<Register, Error>)
        ensures
            r is Ok <==> register_parse(b@) is Some,
            r matches Ok(p) ==> p@ == register_parse(b@).unwrap(),
            r is Err ==> r == Err::<Register, Error>(Error::InvalidData),
    {
        let (header, body) = header_and_body(b)?;
        let bo = header.byte_order();
        let (context, rest) = context_and_rest(&header, body)?;
        if rest.len() < 4 {
            return Err(Error::InvalidData);
        }
        let timeout = Duration::from_secs(rest[0] as u64);
        let priority = rest[1];
        let range_subid = rest[2];
        let (subtree, upper_bound) = subtree_from_bytes(range_subid, tail(rest, 4), &bo)?;
        Ok(Register { header, context, timeout, priority, range_subid, subtree, upper_bound })
    }
}

/// What an Unregister PDU holds.
pub struct UnregisterView {
    pub header: Header,
    pub context: Option<Seq<char>>,
    pub priority: u8,
    pub range_subid: u8,
    pub subtree: IdView,
    pub upper_bound: Option<u32>,
}

/// Payload of Unregister: the optional context, a reserved byte, priority,
/// range sub-identifier and a reserved byte, the subtree, then the optional
/// upper bound.
pub open spec fn unregister_payload(v: UnregisterView) -> Seq<u8> {
    let bo = order_of_flags(v.header.flags);
    context_bytes(v.context, bo) + seq![0u8, v.priority, v.range_subid, 0u8] + id_bytes(v.subtree, bo)
        + upper_bound_bytes(v.upper_bound, bo)
}

/// An Unregister PDU can be written.
pub open spec fn unregister_fit(v: UnregisterView) -> bool {
    context_fit(v.context) && unregister_payload(v).len() <= u32::MAX
}

/// An Unregister PDU at the start of `b`.
pub open spec fn unregister_parse(b: Seq<u8>) -> Option<UnregisterView> {
    match pdu_body(b) {
        None => None,
        Some((h, body)) => match context_split(h, body) {
            None => None,
            Some((c, rest)) => if rest.len() < 4 {
                None
            } else {
                match subtree_parse(rest[2], rest.skip(4), order_of_flags(h.flags)) {
                    None => None,
                    Some((t, u)) => Some(
                        UnregisterView {
                            header: h,
                            context: c,
                            priority: rest[1],
                            range_subid: rest[2],
                            subtree: t,
                            upper_bound: u,
                        },
                    ),
                }
            },
        },
    }
}

/// Decoding a written Unregister PDU gives it back, with the payload length
/// it was stamped with.
pub proof fn lemma_unregister_round_trip(v: UnregisterView)
    requires
        unregister_fit(v),
        context_agrees(v.header, v.context),
        id_canonical(v.subtree),
        v.upper_bound is Some <==> v.range_subid != 0,
    ensures
        unregister_parse(framed(v.header, unregister_payload(v))) == Some(
            UnregisterView { header: stamp(v.header, unregister_payload(v).len()), ..v },
        ),
{
    let p = unregister_payload(v);
    let h = stamp(v.header, p.len());
    let bo = order_of_flags(h.flags);
    let fixed = seq![0u8, v.priority, v.range_subid, 0u8];
    let tb = id_bytes(v.subtree, bo) + upper_bound_bytes(v.upper_bound, bo);
    lemma_pdu_body_round_trip(v.header, p);
    assert(p =~= context_bytes(v.context, bo) + (fixed + tb));
    lemma_context_round_trip(h, v.context, fixed + tb);
    assert((fixed + tb).skip(4) =~= tb);
    lemma_subtree_round_trip(v.range_subid, v.subtree, v.upper_bound, bo);
}

/// Unregister PDU: a subagent withdraws a registered region.
#[derive(Clone, Debug, PartialEq, Eq, PartialOrd, Hash)]
pub struct Unregister {
    /// header of type Unregister
    pub header: Header,
    /// optional non-default context
    pub context: Option<Context>,
    /// the priority the region was registered with
    pub priority: u8,
    /// the sub-identifier of `subtree` that is a range; 0 for none
    pub range_subid: u8,
    /// the identifier of the region
    pub subtree: ID,
    /// the upper bound of the range; present exactly when `range_subid` is not 0
    pub upper_bound: Option<u32>,
}

impl View for Unregister {
    type V = UnregisterView;

    open spec fn view(&self) -> UnregisterView {
        UnregisterView {
            header: self.header,
            context: context_view(self.context),
            priority: self.priority,
            range_subid: self.range_subid,
            subtree: self.subtree@,
            upper_bound: self.upper_bound,
        }
    }
}

impl Unregister {
    /// An Unregister PDU for `subtree` registered at `priority`, with a default
    /// header, no context and no range.
    pub fn new(subtree: ID, priority: u8) -> (r: Unregister)
        ensures
            r@ == (UnregisterView {
                header: default_header(Type::Unregister),
                context: None,
                priority,
                range_subid: 0,
                subtree: subtree@,
                upper_bound: None,
            }),
    {
        Unregister {
            header: Header::new(Type::Unregister),
            context: None,
            priority,
            range_subid: 0,
            subtree,
            upper_bound: None,
        }
    }

    /// Serializes to bytes, stamping the payload length into the header; fails
    /// when a text or the payload is too long for its length field.
    pub fn to_bytes(&mut self) -> (r: Result<Vec<u8>, Error>)
        ensures
            r is Ok <==> unregister_fit(old(self)@),
            r matches Ok(v) ==> v@ == framed(old(self).header, unregister_payload(old(self)@)),
            r is Ok ==> final(self)@ == (UnregisterView {
                header: stamp(old(self).header, unregister_payload(old(self)@).len()),
                ..old(self)@
            }),
            r is Err ==> *final(self) == *old(self) && r == Err::<Vec<u8>, Error>(Error::InvalidData),
    {
        let bo = self.header.byte_order();
        let mut payload: Vec<u8> = Vec::new();
        put_context(&mut payload, &self.context, &bo)?;
        payload.push(0);
        payload.push(self.priority);
        payload.push(self.range_subid);
        payload.push(0);
        put_subtree(&mut payload, &self.subtree, &self.upper_bound, &bo);
        assert(payload@ =~= unregister_payload(self@));
        frame(&mut self.header, payload)
    }

    /// Deserializes from bytes.
    pub fn from_bytes(b: &[u8]) -> (r: Result<Unregister, Error>)
        ensures
            r is Ok <==> unregister_parse(b@) is Some,
            r matches Ok(p) ==> p@ == unregister_parse(b@).unwrap(),
            r is Err ==> r == Err::<Unregister, Error>(Error::InvalidData),
    {
        let (header, body) = header_and_body(b)?;
        let bo = header.byte_order();
        let (context, rest) = context_and_rest(&header, body)?;
        if rest.len() < 4 {
            return Err(Error::InvalidData);
        }
        let priority = rest[1];
        let range_subid = rest[2];
        let (subtree, upper_bound) = subtree_from_bytes(range_subid, tail(rest, 4), &bo)?;
        Ok(Unregister { header, context, priority, range_subid, subtree, upper_bound })
    }
}

/// What a Ping PDU holds.
pub struct PingView {
    pub header: Header,
    pub context: Option<Seq<char>>,
}

/// Payload of Ping: the optional context alone.
pub open spec fn ping_payload(v: PingView) -> Seq<u8> {
    context_bytes(v.context, order_of_flags(v.header.flags))
}

/// A Ping PDU can be written.
pub open spec fn ping_fit(v: PingView) -> bool {
    context_fit(v.context) && ping_payload(v).len() <= u32::MAX
}

/// A Ping PDU at the start of `b`; the context's padding is not read.
pub open spec fn ping_parse(b: Seq<u8>) -> Option<PingView> {
    match pdu_body(b) {
        None => None,
        Some((h, body)) => match context_parse(h, body) {
            None => None,
            Some(c) => Some(PingView { header: h, context: c }),
        },
    }
}

/// Decoding a written Ping PDU gives it back, with the payload length it was
/// stamped with.
pub proof fn lemma_ping_round_trip(v: PingView)
    requires
        ping_fit(v),
        context_agrees(v.header, v.context),
    ensures
        ping_parse(framed(v.header, ping_payload(v))) == Some(
            PingView { header: stamp(v.header, ping_payload(v).len()), ..v },
        ),
{
    let p = ping_payload(v);
    let h = stamp(v.header, p.len());
    lemma_pdu_body_round_trip(v.header, p);
    lemma_context_round_trip(h, v.context, Seq::empty());
    assert(p + Seq::<u8>::empty() =~= p);
}

/// Ping PDU: a subagent checks that the master agent is still there.
#[derive(Clone, Debug, PartialEq, Eq, PartialOrd, Hash)]
pub struct Ping {
    /// header of type Ping
    pub header: Header,
    /// optional non-default context
    pub context: Option<Context>,
}

impl View for Ping {
    type V = PingView;

    open spec fn view(&self) -> PingView {
        PingView { header: self.header, context: context_view(self.context) }
    }
}

impl Default for Ping {
    fn default() -> (r: Ping)
        ensures
            r@ == (PingView { header: default_header(Type::Ping), context: None }),
    {
        Ping { header: Header::new(Type::Ping), context: None }
    }
}

impl Ping {
    /// A Ping PDU with a default header and no context.
    pub fn new() -> (r: Ping)
        ensures
            r@ == (PingView { header: default_header(Type::Ping), context: None }),
    {
        Ping { header: Header::new(Type::Ping), context: None }
    }

    /// Serializes to bytes, stamping the payload length into the header; fails
    /// when the context is too long for its length field.
    pub fn to_bytes(&mut self) -> (r: Result<Vec<u8>, Error>)
        ensures
            r is Ok <==> ping_fit(old(self)@),
            r matches Ok(v) ==> v@ == framed(old(self).header, ping_payload(old(self)@)),
            r is Ok ==> final(self)@ == (PingView {
                header: stamp(old(self).header, ping_payload(old(self)@).len()),
                ..old(self)@
            }),
            r is Err ==> *final(self) == *old(self) && r == Err::<Vec<u8>, Error>(Error::InvalidData),
    {
        let bo = self.header.byte_order();
        let mut payload: Vec<u8> = Vec::new();
        put_context(&mut payload, &self.context, &bo)?;
        assert(payload@ =~= ping_payload(self@));
        frame(&mut self.header, payload)
    }

    /// Deserializes from bytes.
    pub fn from_bytes(b: &[u8]) -> (r: Result<Ping, Error>)
        ensures
            r is Ok <==> ping_parse(b@) is Some,
            r matches Ok(p) ==> p@ == ping_parse(b@).unwrap(),
            r is Err ==> r == Err::<Ping, Error>(Error::InvalidData),
    {
        let (header, body) = header_and_body(b)?;
        let context = context_from_bytes(&header, body)?;
        Ok(Ping { header, context })
    }
}

/// What an AddAgentCaps PDU holds.
pub struct AddAgentCapsView {
    pub header: Header,
    pub context: Option<Seq<char>>,
    pub id: IdView,
    pub descr: Seq<char>,
}

/// Payload of AddAgentCaps: the optional context, the identifier, then the
/// description.
pub open spec fn add_caps_payload(v: AddAgentCapsView) -> Seq<u8> {
    let bo = order_of_flags(v.header.flags);
    context_bytes(v.context, bo) + id_bytes(v.id, bo) + octets_bytes(v.descr, bo)
}

/// An AddAgentCaps PDU can be written.
pub open spec fn add_caps_fit(v: AddAgentCapsView) -> bool {
    context_fit(v.context) && octets_fit(v.descr) && add_caps_payload(v).len() <= u32::MAX
}

/// An AddAgentCaps PDU at the start of `b`.
pub open spec fn add_caps_parse(b: Seq<u8>) -> Option<AddAgentCapsView> {
    match pdu_body(b) {
        None => None,
        Some((h, body)) => match context_split(h, body) {
            None => None,
            Some((c, rest)) => {
                let bo = order_of_flags(h.flags);
                match id_parse(rest, bo) {
                    None => None,
                    Some(id) => if id_size(id) > rest.len() {
                        None
                    } else {
                        match octets_parse(rest.skip(id_size(id) as int), bo) {
                            None => None,
                            Some(descr) => Some(AddAgentCapsView { header: h, context: c, id, descr }),
                        }
                    },
                }
            },
        },
    }
}

/// Decoding a written AddAgentCaps PDU gives it back, with the payload length
/// it was stamped with.
pub proof fn lemma_add_caps_round_trip(v: AddAgentCapsView)
    requires
        add_caps_fit(v),
        context_agrees(v.header, v.context),
        id_canonical(v.id),
    ensures
        add_caps_parse(framed(v.header, add_caps_payload(v))) == Some(
            AddAgentCapsView { header: stamp(v.header, add_caps_payload(v).len()), ..v },
        ),
{
    let p = add_caps_payload(v);
    let h = stamp(v.header, p.len());
    let bo = order_of_flags(h.flags);
    let ib = id_bytes(v.id, bo);
    let db = octets_bytes(v.descr, bo);
    lemma_pdu_body_round_trip(v.header, p);
    assert(p =~= context_bytes(v.context, bo) + (ib + db));
    lemma_context_round_trip(h, v.context, ib + db);
    lemma_id_round_trip(v.id, bo, db);
    assert((ib + db).skip(id_size(v.id) as int) =~= db);
    lemma_octets_round_trip(v.descr, bo, Seq::empty());
    assert(db + Seq::<u8>::empty() =~= db);
}

/// AddAgentCaps PDU: a subagent announces a capability.
#[derive(Clone, Debug, PartialEq, Eq, PartialOrd, Hash)]
pub struct AddAgentCaps {
    /// header of type AddAgentCaps
    pub header: Header,
    /// optional non-default context
    pub context: Option<Context>,
    /// identifier of the capability
    pub id: ID,
    /// description of the capability
    pub descr: OctetString,
}

impl View for AddAgentCaps {
    type V = AddAgentCapsView;

    open spec fn view(&self) -> AddAgentCapsView {
        AddAgentCapsView {
            header: self.header,
            context: context_view(self.context),
            id: self.id@,
            descr: self.descr@,
        }
    }
}

impl AddAgentCaps {
    /// An AddAgentCaps PDU for `id` and `descr`, with a default header and no context.
    pub fn new(id: ID, descr: &str) -> (r: AddAgentCaps)
        ensures
            r@ == (AddAgentCapsView {
                header: default_header(Type::AddAgentCaps),
                context: None,
                id: id@,
                descr: descr@,
            }),
    {
        AddAgentCaps {
            header: Header::new(Type::AddAgentCaps),
            context: None,
            id,
            descr: OctetString(descr.to_string()),
        }
    }

    /// Serializes to bytes, stamping the payload length into the header; fails
    /// when a text or the payload is too long for its length field.
    pub fn to_bytes(&mut self) -> (r: Result<Vec<u8>, Error>)
        ensures
            r is Ok <==> add_caps_fit(old(self)@),
            r matches Ok(v) ==> v@ == framed(old(self).header, add_caps_payload(old(self)@)),
            r is Ok ==> final(self)@ == (AddAgentCapsView {
                header: stamp(old(self).header, add_caps_payload(old(self)@).len()),
                ..old(self)@
            }),
            r is Err ==> *final(self) == *old(self) && r == Err::<Vec<u8>, Error>(Error::InvalidData),
    {
        let bo = self.header.byte_order();
        let mut payload: Vec<u8> = Vec::new();
        put_context(&mut payload, &self.context, &bo)?;
        let mut id = self.id.to_bytes(&bo);
        payload.append(&mut id);
        let mut descr = self.descr.to_bytes(&bo)?;
        payload.append(&mut descr);
        assert(payload@ =~= add_caps_payload(self@));
        frame(&mut self.header, payload)
    }

    /// Deserializes from bytes.
    pub fn from_bytes(b: &[u8]) -> (r: Result<AddAgentCaps, Error>)
        ensures
            r is Ok <==> add_caps_parse(b@) is Some,
            r matches Ok(p) ==> p@ == add_caps_parse(b@).unwrap(),
            r is Err ==> r == Err::<AddAgentCaps, Error>(Error::InvalidData),
    {
        let (header, body) = header_and_body(b)?;
        let bo = header.byte_order();
        let (context, rest) = context_and_rest(&header, body)?;
        let id = ID::from_bytes(rest, &bo)?;
        let size = id.byte_size();
        if size > rest.len() {
            return Err(Error::InvalidData);
        }
        let descr = OctetString::from_bytes(tail(rest, size), &bo)?;
        Ok(AddAgentCaps { header, context, id, descr })
    }
}

/// What a RemoveAgentCaps PDU holds.
pub struct RemoveAgentCapsView {
    pub header: Header,
    pub context: Option<Seq<char>>,
    pub id: IdView,
}

/// Payload of RemoveAgentCaps: the optional context, then the identifier.
pub open spec fn remove_caps_payload(v: RemoveAgentCapsView) -> Seq<u8> {
    let bo = order_of_flags(v.header.flags);
    context_bytes(v.context, bo) + id_bytes(v.id, bo)
}

/// A RemoveAgentCaps PDU can be written.
pub open spec fn remove_caps_fit(v: RemoveAgentCapsView) -> bool {
    context_fit(v.context) && remove_caps_payload(v).len() <= u32::MAX
}

/// A RemoveAgentCaps PDU at the start of `b`.
pub open spec fn remove_caps_parse(b: Seq<u8>) -> Option<RemoveAgentCapsView> {
    match pdu_body(b) {
        None => None,
        Some((h, body)) => match context_split(h, body) {
            None => None,
            Some((c, rest)) => match id_parse(rest, order_of_flags(h.flags)) {
                None => None,
                Some(id) => Some(RemoveAgentCapsView { header: h, context: c, id }),
            },
        },
    }
}

/// Decoding a written RemoveAgentCaps PDU gives it back, with the payload
/// length it was stamped with.
pub proof fn lemma_remove_caps_round_trip(v: RemoveAgentCapsView)
    requires
        remove_caps_fit(v),
        context_agrees(v.header, v.context),
        id_canonical(v.id),
    ensures
        remove_caps_parse(framed(v.header, remove_caps_payload(v))) == Some(
            RemoveAgentCapsView { header: stamp(v.header, remove_caps_payload(v).len()), ..v },
        ),
{
    let p = remove_caps_payload(v);
    let h = stamp(v.header, p.len());
    let bo = order_of_flags(h.flags);
    let ib = id_bytes(v.id, bo);
    lemma_pdu_body_round_trip(v.header, p);
    lemma_context_round_trip(h, v.context, ib);
    lemma_id_round_trip(v.id, bo, Seq::empty());
    assert(ib + Seq::<u8>::empty() =~= ib);
}

/// RemoveAgentCaps PDU: a subagent withdraws a capability.
#[derive(Clone, Debug, PartialEq, Eq, PartialOrd, Hash)]
pub struct RemoveAgentCaps {
    /// header of type RemoveAgentCaps
    pub header: Header,
    /// optional non-default context
    pub context: Option<Context>,
    /// identifier of the capability
    pub id: ID,
}

impl View for RemoveAgentCaps {
    type V = RemoveAgentCapsView;

    open spec fn view(&self) -> RemoveAgentCapsView {
        RemoveAgentCapsView { header: self.header, context: context_view(self.context), id: self.id@ }
    }
}

impl RemoveAgentCaps {
    /// A RemoveAgentCaps PDU for `id`, with a default header and no context.
    pub fn new(id: ID) -> (r: RemoveAgentCaps)
        ensures
            r@ == (RemoveAgentCapsView {
                header: default_header(Type::RemoveAgentCaps),
                context: None,
                id: id@,
            }),
    {
        RemoveAgentCaps { header: Header::new(Type::RemoveAgentCaps), context: None, id }
    }

    /// Serializes to bytes, stamping the payload length into the header; fails
    /// when a text or the payload is too long for its length field.
    pub fn to_bytes(&mut self) -> (r: Result<Vec<u8>, Error>)
        ensures
            r is Ok <==> remove_caps_fit(old(self)@),
            r matches Ok(v) ==> v@ == framed(old(self).header, remove_caps_payload(old(self)@)),
            r is Ok ==> final(self)@ == (RemoveAgentCapsView {
                header: stamp(old(self).header, remove_caps_payload(old(self)@).len()),
                ..old(self)@
            }),
            r is Err ==> *final(self) == *old(self) && r == Err::<Vec<u8>, Error>(Error::InvalidData),
    {
        let bo = self.header.byte_order();
        let mut payload: Vec<u8> = Vec::new();
        put_context(&mut payload, &self.context, &bo)?;
        let mut id = self.id.to_bytes(&bo);
        payload.append(&mut id);
        frame(&mut self.header, payload)
    }

    /// Deserializes from bytes.
    pub fn from_bytes(b: &[u8]) -> (r: Result<RemoveAgentCaps, Error>)
        ensures
            r is Ok <==> remove_caps_parse(b@) is Some,
            r matches Ok(p) ==> p@ == remove_caps_parse(b@).unwrap(),
            r is Err ==> r == Err::<RemoveAgentCaps, Error>(Error::InvalidData),
    {
        let (header, body) = header_and_body(b)?;
        let bo = header.byte_order();
        let (context, rest) = context_and_rest(&header, body)?;
        let id = ID::from_bytes(rest, &bo)?;
        Ok(RemoveAgentCaps { header, context, id })
    }
}

} // verus!
