//! Values (a tagged union of thirteen kinds), variable bindings (a name and a
//! value) and lists of bindings, which run to the end of the buffer.
use vstd::prelude::*;
use vstd::utf8::encode_utf8;

use crate::encodings::id::{id_bytes, id_canonical, id_parse, id_size, id_wf, lemma_id_round_trip, IdView, ID};
use crate::encodings::octetstring::{
    lemma_octets_parse_content, lemma_octets_round_trip, lemma_octets_truncated, octets_bytes, octets_fit, octets_parse, octets_size, OctetString,
};
use crate::wire::{
    bytes_to_i32, bytes_to_u16, bytes_to_u32, bytes_to_u64, i32_bytes, i32_value, lemma_i32_round_trip,
    lemma_u16_round_trip, lemma_u32_round_trip, lemma_u64_round_trip, put_i32, put_u16, put_u32, put_u64,
    tail, u16_bytes, u16_value, u32_bytes, u32_value, u64_bytes, u64_value, ByteOrder, Error,
};

verus! {

/// A typed management value.
#[derive(Clone, Debug, PartialEq, Eq, PartialOrd, Hash, Default)]
pub enum Value {
    /// 4 byte signed integer
    Integer(i32),
    /// text
    OctetString(OctetString),
    /// no value (no payload bytes)
    #[default]
    Null,
    /// an object identifier
    ObjectIdentifier(ID),
    /// an IP address, its octets most significant first
    IpAddress(OctetString),
    /// 4 byte unsigned counter
    Counter32(u32),
    /// 4 byte unsigned gauge
    Gauge32(u32),
    /// 4 byte signed time ticks
    TimeTicks(i32),
    /// opaque data held as an octet string
    Opaque(OctetString),
    /// 8 byte unsigned counter
    Counter64(u64),
    /// no such object (no payload bytes)
    NoSuchObject,
    /// no such instance (no payload bytes)
    NoSuchInstance,
    /// end of the MIB view (no payload bytes)
    EndOfMibView,
}

/// What a value holds.
pub enum ValueView {
    Integer(i32),
    OctetString(Seq<char>),
    Null,
    ObjectIdentifier(IdView),
    IpAddress(Seq<char>),
    Counter32(u32),
    Gauge32(u32),
    TimeTicks(i32),
    Opaque(Seq<char>),
    Counter64(u64),
    NoSuchObject,
    NoSuchInstance,
    EndOfMibView,
}

impl View for Value {
    type V = ValueView;

    open spec fn view(&self) -> ValueView {
        match self {
            Value::Integer(i) => ValueView::Integer(*i),
            Value::OctetString(s) => ValueView::OctetString(s@),
            Value::Null => ValueView::Null,
            Value::ObjectIdentifier(i) => ValueView::ObjectIdentifier(i@),
            Value::IpAddress(s) => ValueView::IpAddress(s@),
            Value::Counter32(c) => ValueView::Counter32(*c),
            Value::Gauge32(g) => ValueView::Gauge32(*g),
            Value::TimeTicks(t) => ValueView::TimeTicks(*t),
            Value::Opaque(s) => ValueView::Opaque(s@),
            Value::Counter64(c) => ValueView::Counter64(*c),
            Value::NoSuchObject => ValueView::NoSuchObject,
            Value::NoSuchInstance => ValueView::NoSuchInstance,
            Value::EndOfMibView => ValueView::EndOfMibView,
        }
    }
}

/// The numeric wire tag of each kind of value.
pub open spec fn value_tag(v: ValueView) -> u16 {
    match v {
        ValueView::Integer(_) => 2,
        ValueView::OctetString(_) => 4,
        ValueView::Null => 5,
        ValueView::ObjectIdentifier(_) => 6,
        ValueView::IpAddress(_) => 64,
        ValueView::Counter32(_) => 65,
        ValueView::Gauge32(_) => 66,
        ValueView::TimeTicks(_) => 67,
        ValueView::Opaque(_) => 68,
        ValueView::Counter64(_) => 70,
        ValueView::NoSuchObject => 128,
        ValueView::NoSuchInstance => 129,
        ValueView::EndOfMibView => 130,
    }
}

/// The bytes that follow the tag: nothing for the four empty kinds.
pub open spec fn value_payload(v: ValueView, bo: ByteOrder) -> Seq<u8> {
    match v {
        ValueView::Integer(i) => i32_bytes(i, bo),
        ValueView::OctetString(s) => octets_bytes(s, bo),
        ValueView::ObjectIdentifier(i) => id_bytes(i, bo),
        ValueView::IpAddress(s) => octets_bytes(s, bo),
        ValueView::Counter32(c) => u32_bytes(c, bo),
        ValueView::Gauge32(g) => u32_bytes(g, bo),
        ValueView::TimeTicks(t) => i32_bytes(t, bo),
        ValueView::Opaque(s) => octets_bytes(s, bo),
        ValueView::Counter64(c) => u64_bytes(c, bo),
        _ => Seq::empty(),
    }
}

/// The number of bytes of the tag, the reserved bytes and the payload.
pub open spec fn value_size(v: ValueView) -> nat {
    4 + match v {
        ValueView::Integer(_) => 4,
        ValueView::OctetString(s) => octets_size(s),
        ValueView::ObjectIdentifier(i) => id_size(i),
        ValueView::IpAddress(s) => octets_size(s),
        ValueView::Counter32(_) => 4,
        ValueView::Gauge32(_) => 4,
        ValueView::TimeTicks(_) => 4,
        ValueView::Opaque(s) => octets_size(s),
        ValueView::Counter64(_) => 8,
        _ => 0nat,
    }
}

/// The value can be written: each text fits its length field.
pub open spec fn value_fit(v: ValueView) -> bool {
    match v {
        ValueView::OctetString(s) => octets_fit(s),
        ValueView::IpAddress(s) => octets_fit(s),
        ValueView::Opaque(s) => octets_fit(s),
        _ => true,
    }
}

/// The value can be written, and an identifier in it was built from its
/// sub-identifiers alone.
pub open spec fn value_canonical(v: ValueView) -> bool {
    value_fit(v) && match v {
        ValueView::ObjectIdentifier(i) => id_canonical(i),
        _ => true,
    }
}

/// The value of kind `tag` at the start of `b`; an unknown tag is an error.
#[verifier::opaque]
pub open spec fn value_parse(tag: u16, b: Seq<u8>, bo: ByteOrder) -> Option<ValueView> {
    if tag == 2 {
        if b.len() >= 4 { Some(ValueView::Integer(i32_value(b, bo))) } else { None }
    } else if tag == 4 {
        match octets_parse(b, bo) {
            Some(s) => Some(ValueView::OctetString(s)),
            None => None,
        }
    } else if tag == 5 {
        Some(ValueView::Null)
    } else if tag == 6 {
        match id_parse(b, bo) {
            Some(i) => Some(ValueView::ObjectIdentifier(i)),
            None => None,
        }
    } else if tag == 64 {
        match octets_parse(b, bo) {
            Some(s) => Some(ValueView::IpAddress(s)),
            None => None,
        }
    } else if tag == 65 {
        if b.len() >= 4 { Some(ValueView::Counter32(u32_value(b, bo))) } else { None }
    } else if tag == 66 {
        if b.len() >= 4 { Some(ValueView::Gauge32(u32_value(b, bo))) } else { None }
    } else if tag == 67 {
        if b.len() >= 4 { Some(ValueView::TimeTicks(i32_value(b, bo))) } else { None }
    } else if tag == 68 {
        match octets_parse(b, bo) {
            Some(s) => Some(ValueView::Opaque(s)),
            None => None,
        }
    } else if tag == 70 {
        if b.len() >= 8 { Some(ValueView::Counter64(u64_value(b, bo))) } else { None }
    } else if tag == 128 {
        Some(ValueView::NoSuchObject)
    } else if tag == 129 {
        Some(ValueView::NoSuchInstance)
    } else if tag == 130 {
        Some(ValueView::EndOfMibView)
    } else {
        None
    }
}

/// Decoding the payload of a value under its own tag gives it back.
pub proof fn lemma_value_round_trip(v: ValueView, bo: ByteOrder, rest: Seq<u8>)
    requires
        value_canonical(v),
    ensures
        value_parse(value_tag(v), value_payload(v, bo) + rest, bo) == Some(v),
        value_payload(v, bo).len() + 4 == value_size(v),
{
    reveal(value_parse);
    match v {
        ValueView::Integer(i) => lemma_i32_round_trip(i, bo, rest),
        ValueView::OctetString(s) => lemma_octets_round_trip(s, bo, rest),
        ValueView::ObjectIdentifier(i) => lemma_id_round_trip(i, bo, rest),
        ValueView::IpAddress(s) => lemma_octets_round_trip(s, bo, rest),
        ValueView::Counter32(c) => lemma_u32_round_trip(c, bo, rest),
        ValueView::Gauge32(g) => lemma_u32_round_trip(g, bo, rest),
        ValueView::TimeTicks(t) => lemma_i32_round_trip(t, bo, rest),
        ValueView::Opaque(s) => lemma_octets_round_trip(s, bo, rest),
        ValueView::Counter64(c) => lemma_u64_round_trip(c, bo, rest),
        _ => {
            assert(Seq::<u8>::empty() + rest =~= rest);
        },
    }
}

impl Value {
    /// The numeric wire tag of this kind of value.
    pub fn tag(&self) -> (r: u16)
        ensures
            r == value_tag(self@),
    {
        match self {
            Value::Integer(_) => 2,
            Value::OctetString(_) => 4,
            Value::Null => 5,
            Value::ObjectIdentifier(_) => 6,
            Value::IpAddress(_) => 64,
            Value::Counter32(_) => 65,
            Value::Gauge32(_) => 66,
            Value::TimeTicks(_) => 67,
            Value::Opaque(_) => 68,
            Value::Counter64(_) => 70,
            Value::NoSuchObject => 128,
            Value::NoSuchInstance => 129,
            Value::EndOfMibView => 130,
        }
    }

    /// Serializes the payload that follows the tag; fails when a text is too
    /// long for its length field.
    pub fn payload_bytes(&self, bo: &ByteOrder) -> (r: Result<Vec<u8>, Error>)
        ensures
            r is Ok <==> value_fit(self@),
            r matches Ok(v) ==> v@ == value_payload(self@, *bo),
            r is Err ==> r == Err::<Vec<u8>, Error>(Error::InvalidData),
    {
        let mut out: Vec<u8> = Vec::new();
        match self {
            Value::Integer(i) => put_i32(&mut out, *i, bo),
            Value::OctetString(s) => return s.to_bytes(bo),
            Value::ObjectIdentifier(i) => return Ok(i.to_bytes(bo)),
            Value::IpAddress(s) => return s.to_bytes(bo),
            Value::Counter32(c) => put_u32(&mut out, *c, bo),
            Value::Gauge32(g) => put_u32(&mut out, *g, bo),
            Value::TimeTicks(t) => put_i32(&mut out, *t, bo),
            Value::Opaque(s) => return s.to_bytes(bo),
            Value::Counter64(c) => put_u64(&mut out, *c, bo),
            _ => {},
        }
        assert(out@ =~= value_payload(self@, *bo));
        Ok(out)
    }

    /// The number of bytes of tag, reserved bytes and payload, if a `usize`
    /// can hold it.
    pub fn byte_size(&self) -> (r: Option<usize>)
        ensures
            r == (if value_size(self@) <= usize::MAX {
                Some(value_size(self@) as usize)
            } else {
                None::<usize>
            }),
    {
        let payload: usize = match self {
            Value::Integer(_) => 4,
            Value::OctetString(s) => match s.checked_byte_size() {
                Some(n) => n,
                None => return None,
            },
            Value::ObjectIdentifier(i) => i.byte_size(),
            Value::IpAddress(s) => match s.checked_byte_size() {
                Some(n) => n,
                None => return None,
            },
            Value::Counter32(_) => 4,
            Value::Gauge32(_) => 4,
            Value::TimeTicks(_) => 4,
            Value::Opaque(s) => match s.checked_byte_size() {
                Some(n) => n,
                None => return None,
            },
            Value::Counter64(_) => 8,
            _ => 0,
        };
        if payload > usize::MAX - 4 {
            None
        } else {
            Some(4 + payload)
        }
    }

    /// Decodes the payload of a value of kind `tag` from the start of `b`.
    pub fn from_tag_and_bytes(tag: u16, b: &[u8], bo: &ByteOrder) -> (r: Result<Value, Error>)
        ensures
            r is Ok <==> value_parse(tag, b@, *bo) is Some,
            r matches Ok(v) ==> v@ == value_parse(tag, b@, *bo).unwrap(),
            r is Err ==> r == Err::<Value, Error>(Error::InvalidData),
    {
        proof {
            reveal(value_parse);
        }
        if tag == 2 {
            Ok(Value::Integer(bytes_to_i32(b, bo)?))
        } else if tag == 4 {
            Ok(Value::OctetString(OctetString::from_bytes(b, bo)?))
        } else if tag == 5 {
            Ok(Value::Null)
        } else if tag == 6 {
            Ok(Value::ObjectIdentifier(ID::from_bytes(b, bo)?))
        } else if tag == 64 {
            Ok(Value::IpAddress(OctetString::from_bytes(b, bo)?))
        } else if tag == 65 {
            Ok(Value::Counter32(bytes_to_u32(b, bo)?))
        } else if tag == 66 {
            Ok(Value::Gauge32(bytes_to_u32(b, bo)?))
        } else if tag == 67 {
            Ok(Value::TimeTicks(bytes_to_i32(b, bo)?))
        } else if tag == 68 {
            Ok(Value::Opaque(OctetString::from_bytes(b, bo)?))
        } else if tag == 70 {
            Ok(Value::Counter64(bytes_to_u64(b, bo)?))
        } else if tag == 128 {
            Ok(Value::NoSuchObject)
        } else if tag == 129 {
            Ok(Value::NoSuchInstance)
        } else if tag == 130 {
            Ok(Value::EndOfMibView)
        } else {
            Err(Error::InvalidData)
        }
    }
}

/// A variable binding: a name and its value.
#[derive(Clone, Debug, PartialEq, Eq, PartialOrd, Hash)]
pub struct VarBind {
    /// the identifier that names the variable
    pub name: ID,
    /// the variable's value
    pub data: Value,
}

/// What a variable binding holds.
pub struct VarBindView {
    pub name: IdView,
    pub data: ValueView,
}

impl View for VarBind {
    type V = VarBindView;

    open spec fn view(&self) -> VarBindView {
        VarBindView { name: self.name@, data: self.data@ }
    }
}

/// Wire form: the value's tag, two reserved bytes, the name, then the payload.
pub open spec fn varbind_bytes(v: VarBindView, bo: ByteOrder) -> Seq<u8> {
    u16_bytes(value_tag(v.data), bo) + seq![0u8, 0u8] + id_bytes(v.name, bo) + value_payload(
        v.data,
        bo,
    )
}

/// The number of bytes the binding took on the wire.
pub open spec fn varbind_size(v: VarBindView) -> nat {
    id_size(v.name) + value_size(v.data)
}

/// The binding can be written, and reads back as itself.
pub open spec fn varbind_canonical(v: VarBindView) -> bool {
    id_canonical(v.name) && value_canonical(v.data)
}

/// The binding at the start of `b`, if the bytes hold one. The name is read
/// from exactly the bytes its count announces.
#[verifier::opaque]
pub open spec fn varbind_parse(b: Seq<u8>, bo: ByteOrder) -> Option<VarBindView> {
    if b.len() < 4 {
        None
    } else {
        let r = b.skip(4);
        if r.len() < 1 || r.len() < 4 + 4 * (r[0] as int) {
            None
        } else {
            let n = 4 + 4 * (r[0] as int);
            match id_parse(r.take(n), bo) {
                None => None,
                Some(name) => match value_parse(u16_value(b, bo), r.skip(n), bo) {
                    None => None,
                    Some(data) => Some(VarBindView { name, data }),
                },
            }
        }
    }
}

/// The bytes of a payload up to the end of its content: a text's padding is
/// not counted, since a decoder does not read it.
pub open spec fn value_content_len(v: ValueView, bo: ByteOrder) -> nat {
    match v {
        ValueView::OctetString(s) => 4 + encode_utf8(s).len(),
        ValueView::IpAddress(s) => 4 + encode_utf8(s).len(),
        ValueView::Opaque(s) => 4 + encode_utf8(s).len(),
        _ => value_payload(v, bo).len(),
    }
}

/// The parts of a binding's wire form, as a decoder sees them.
proof fn lemma_varbind_layout(v: VarBindView, bo: ByteOrder, rest: Seq<u8>)
    requires
        id_wf(v.name),
    ensures
        ({
            let b = varbind_bytes(v, bo) + rest;
            let nb = id_bytes(v.name, bo);
            &&& b.len() >= 4
            &&& u16_value(b, bo) == value_tag(v.data)
            &&& b.skip(4) == nb + (value_payload(v.data, bo) + rest)
            &&& nb.len() == 4 + 4 * v.name.sub_ids.len()
            &&& nb[0] as int == v.name.sub_ids.len()
        }),
{
    let nb = id_bytes(v.name, bo);
    let pb = value_payload(v.data, bo);
    let b = varbind_bytes(v, bo) + rest;
    lemma_u16_round_trip(value_tag(v.data), bo, seq![0u8, 0u8] + nb + pb + rest);
    assert(b =~= u16_bytes(value_tag(v.data), bo) + (seq![0u8, 0u8] + nb + pb + rest));
    lemma_id_round_trip(v.name, bo, Seq::empty());
    assert(b.skip(4) =~= nb + (pb + rest));
}

/// Decoding the wire form of a binding gives it back, whatever follows it.
pub proof fn lemma_varbind_round_trip(v: VarBindView, bo: ByteOrder, rest: Seq<u8>)
    requires
        varbind_canonical(v),
    ensures
        varbind_parse(varbind_bytes(v, bo) + rest, bo) == Some(v),
        varbind_bytes(v, bo).len() == varbind_size(v),
        varbind_size(v) >= 8,
{
    reveal(varbind_parse);
    let nb = id_bytes(v.name, bo);
    let pb = value_payload(v.data, bo);
    let b = varbind_bytes(v, bo) + rest;
    lemma_varbind_layout(v, bo, rest);
    lemma_id_round_trip(v.name, bo, Seq::empty());
    lemma_value_round_trip(v.data, bo, rest);
    let r = b.skip(4);
    let n: int = nb.len() as int;
    assert(r[0] == nb[0]);
    assert(r.take(n) =~= nb + Seq::<u8>::empty());
    assert(r.skip(n) =~= pb + rest);
    assert(id_parse(r.take(n), bo) == Some(v.name));
    assert(value_parse(u16_value(b, bo), r.skip(n), bo) == Some(v.data));
}

/// A binding cut off before the end of its content does not decode.
pub proof fn lemma_varbind_truncated(v: VarBindView, bo: ByteOrder, k: int)
    requires
        varbind_canonical(v),
        0 <= k < 4 + id_bytes(v.name, bo).len() + value_content_len(v.data, bo),
    ensures
        varbind_parse(varbind_bytes(v, bo).take(k), bo) is None,
{
    reveal(varbind_parse);
    let nb = id_bytes(v.name, bo);
    let pb = value_payload(v.data, bo);
    let full = varbind_bytes(v, bo);
    lemma_varbind_layout(v, bo, Seq::empty());
    lemma_value_round_trip(v.data, bo, Seq::empty());
    assert(full + Seq::<u8>::empty() =~= full);
    assert(pb + Seq::<u8>::empty() =~= pb);
    let b = full.take(k);
    let n: int = nb.len() as int;
    if k >= 5 {
        assert(b.skip(4)[0] == full.skip(4)[0]);
    }
    if k >= 4 + n {
        assert(u16_value(b, bo) == u16_value(full, bo)) by {
            assert(b.subrange(0, 2) =~= full.subrange(0, 2));
        }
        let r = b.skip(4);
        assert(r.skip(n) =~= pb.take(k - 4 - n));
        lemma_value_truncated(v.data, bo, k - 4 - n);
    }
}

/// A payload cut off before the end of its content does not decode.
pub proof fn lemma_value_truncated(v: ValueView, bo: ByteOrder, k: int)
    requires
        value_canonical(v),
        0 <= k < value_content_len(v, bo),
    ensures
        value_parse(value_tag(v), value_payload(v, bo).take(k), bo) is None,
{
    reveal(value_parse);
    lemma_value_round_trip(v, bo, Seq::empty());
    let p = value_payload(v, bo);
    let b = p.take(k);
    match v {
        ValueView::OctetString(s) => lemma_octets_truncated(s, bo, k),
        ValueView::IpAddress(s) => lemma_octets_truncated(s, bo, k),
        ValueView::Opaque(s) => lemma_octets_truncated(s, bo, k),
        ValueView::ObjectIdentifier(i) => {
            lemma_id_round_trip(i, bo, Seq::empty());
            if k >= 4 {
                assert(b[0] == p[0]);
            }
        },
        _ => {},
    }
}

impl VarBind {
    /// Builds a binding from a name and a value.
    pub fn new(name: ID, data: Value) -> (r: VarBind)
        ensures
            r@ == (VarBindView { name: name@, data: data@ }),
    {
        VarBind { name, data }
    }

    /// Serializes to bytes; fails when a text in the value is too long for its
    /// length field.
    pub fn to_bytes(&self, bo: &ByteOrder) -> (r: Result<Vec<u8>, Error>)
        ensures
            r is Ok <==> value_fit(self@.data),
            r matches Ok(v) ==> v@ == varbind_bytes(self@, *bo),
            r is Err ==> r == Err::<Vec<u8>, Error>(Error::InvalidData),
    {
        let mut data = self.data.payload_bytes(bo)?;
        let mut result: Vec<u8> = Vec::new();
        put_u16(&mut result, self.data.tag(), bo);
        result.push(0);
        result.push(0);
        let mut name = self.name.to_bytes(bo);
        result.append(&mut name);
        result.append(&mut data);
        assert(result@ =~= varbind_bytes(self@, *bo));
        Ok(result)
    }

    /// The number of bytes the binding took on the wire, if a `usize` can hold it.
    pub fn byte_size(&self) -> (r: Option<usize>)
        ensures
            r == (if varbind_size(self@) <= usize::MAX {
                Some(varbind_size(self@) as usize)
            } else {
                None::<usize>
            }),
    {
        let name = self.name.byte_size();
        match self.data.byte_size() {
            Some(d) => if d > usize::MAX - name {
                None
            } else {
                Some(name + d)
            },
            None => None,
        }
    }

    /// Deserializes from the start of `b`; an unknown value tag is an error.
    pub fn from_bytes(b: &[u8], bo: &ByteOrder) -> (r: Result<VarBind, Error>)
        ensures
            r is Ok <==> varbind_parse(b@, *bo) is Some,
            r matches Ok(v) ==> v@ == varbind_parse(b@, *bo).unwrap(),
            r is Err ==> r == Err::<VarBind, Error>(Error::InvalidData),
    {
        proof {
            reveal(varbind_parse);
        }
        if b.len() < 4 {
            return Err(Error::InvalidData);
        }
        let ty = bytes_to_u16(b, bo)?;
        let r = tail(b, 4);
        if r.len() < 1 {
            return Err(Error::InvalidData);
        }
        let len = 4 + 4 * (r[0] as usize);
        if r.len() < len {
            return Err(Error::InvalidData);
        }
        let (head, rest) = r.split_at(len);
        assert(head@ =~= r@.take(len as int));
        let name = ID::from_bytes(head, bo)?;
        let data = Value::from_tag_and_bytes(ty, rest, bo)?;
        Ok(VarBind { name, data })
    }
}

/// A list of variable bindings.
#[derive(Clone, Debug, PartialEq, Eq, PartialOrd, Hash, Default)]
pub struct VarBindList(pub Vec<VarBind>);

impl View for VarBindList {
    type V = Seq<VarBindView>;

    open spec fn view(&self) -> Seq<VarBindView> {
        self.0@.map_values(|v: VarBind| v@)
    }
}

/// Wire form of a list of bindings: their wire forms one after another.
pub open spec fn varbinds_bytes(s: Seq<VarBindView>, bo: ByteOrder) -> Seq<u8> {
    s.map_values(|v: VarBindView| varbind_bytes(v, bo)).flatten()
}

/// Every text in the list fits its length field.
pub open spec fn varbinds_fit(s: Seq<VarBindView>) -> bool {
    forall|i: int| 0 <= i < s.len() ==> value_fit(#[trigger] s[i].data)
}

/// The bindings that fill `b` exactly, if the bytes hold such a list.
pub open spec fn varbinds_parse(b: Seq<u8>, bo: ByteOrder) -> Option<Seq<VarBindView>>
    decreases b.len(),
{
    if b.len() == 0 {
        Some(Seq::empty())
    } else {
        match varbind_parse(b, bo) {
            None => None,
            Some(v) => if varbind_size(v) > b.len() {
                None
            } else {
                match varbinds_parse(b.skip(varbind_size(v) as int), bo) {
                    None => None,
                    Some(rest) => Some(seq![v] + rest),
                }
            },
        }
    }
}

/// The wire form of a non-empty list: the others, then its last binding.
pub proof fn lemma_varbinds_bytes_last(s: Seq<VarBindView>, bo: ByteOrder)
    requires
        s.len() > 0,
    ensures
        varbinds_bytes(s, bo) == varbinds_bytes(s.drop_last(), bo) + varbind_bytes(s.last(), bo),
{
    let f = |v: VarBindView| varbind_bytes(v, bo);
    let prev = s.drop_last().map_values(f);
    assert(s.map_values(f) =~= prev.push(f(s.last())));
    prev.lemma_flatten_push(f(s.last()));
}

/// The wire form of a non-empty list: its first binding, then the others.
pub proof fn lemma_varbinds_bytes_first(s: Seq<VarBindView>, bo: ByteOrder)
    requires
        s.len() > 0,
    ensures
        varbinds_bytes(s, bo) == varbind_bytes(s[0], bo) + varbinds_bytes(s.drop_first(), bo),
{
    let f = |v: VarBindView| varbind_bytes(v, bo);
    let m = s.map_values(f);
    assert(m.drop_first() =~= s.drop_first().map_values(f));
    assert(m.flatten() == m.first() + m.drop_first().flatten());
}

/// One step of list decoding: the first binding, then the list after it.
proof fn lemma_varbinds_parse_step(b: Seq<u8>, bo: ByteOrder, v: VarBindView)
    requires
        b.len() > 0,
        varbind_parse(b, bo) == Some(v),
        varbind_size(v) <= b.len(),
    ensures
        varbinds_parse(b, bo) == (match varbinds_parse(b.skip(varbind_size(v) as int), bo) {
            None => None,
            Some(rest) => Some(seq![v] + rest),
        }),
{
}

/// Decoding a list of bindings followed by other bytes gives the bindings,
/// then what those bytes decode to; decoding fails exactly when theirs does.
pub proof fn lemma_varbinds_parse_prefix(s: Seq<VarBindView>, t: Seq<u8>, bo: ByteOrder)
    requires
        forall|i: int| 0 <= i < s.len() ==> varbind_canonical(#[trigger] s[i]),
    ensures
        varbinds_parse(varbinds_bytes(s, bo) + t, bo) == (match varbinds_parse(t, bo) {
            None => None,
            Some(rest) => Some(s + rest),
        }),
    decreases s.len(),
{
    if s.len() > 0 {
        let tail_seq = s.drop_first();
        let b = varbinds_bytes(s, bo) + t;
        lemma_varbinds_bytes_first(s, bo);
        let tb = varbinds_bytes(tail_seq, bo) + t;
        assert(b =~= varbind_bytes(s[0], bo) + tb);
        assert(varbind_canonical(s[0]));
        lemma_varbind_round_trip(s[0], bo, tb);
        assert forall|i: int| 0 <= i < tail_seq.len() implies varbind_canonical(#[trigger] tail_seq[i]) by {
            assert(tail_seq[i] == s[i + 1]);
        }
        lemma_varbinds_parse_prefix(tail_seq, t, bo);
        assert(b.skip(varbind_size(s[0]) as int) =~= tb);
        lemma_varbinds_parse_step(b, bo, s[0]);
        if let Some(rest) = varbinds_parse(t, bo) {
            assert(seq![s[0]] + (tail_seq + rest) =~= s + rest);
        }
    } else {
        assert(varbinds_bytes(s, bo) =~= Seq::<u8>::empty());
        assert(varbinds_bytes(s, bo) + t =~= t);
        if let Some(rest) = varbinds_parse(t, bo) {
            assert(s + rest =~= rest);
        }
    }
}

/// Decoding the wire form of a list of bindings gives back exactly its
/// elements, in order, and stops where the buffer ends.
pub proof fn lemma_varbinds_round_trip(s: Seq<VarBindView>, bo: ByteOrder)
    requires
        forall|i: int| 0 <= i < s.len() ==> varbind_canonical(#[trigger] s[i]),
    ensures
        varbinds_parse(varbinds_bytes(s, bo), bo) == Some(s),
{
    lemma_varbinds_parse_prefix(s, Seq::empty(), bo);
    assert(varbinds_bytes(s, bo) + Seq::<u8>::empty() =~= varbinds_bytes(s, bo));
    assert(s + Seq::<VarBindView>::empty() =~= s);
}

/// A payload cut off only inside its text's padding still decodes.
proof fn lemma_value_parse_content(d: ValueView, bo: ByteOrder, m: int)
    requires
        value_canonical(d),
        value_content_len(d, bo) <= m <= value_payload(d, bo).len(),
    ensures
        value_parse(value_tag(d), value_payload(d, bo).take(m), bo) == Some(d),
{
    reveal(value_parse);
    let pb = value_payload(d, bo);
    lemma_value_round_trip(d, bo, Seq::empty());
    assert(pb + Seq::<u8>::empty() =~= pb);
    match d {
        ValueView::OctetString(s) => {
            let cl: int = 4 + encode_utf8(s).len() as int;
            assert(pb.take(m).take(cl) =~= pb.take(cl));
            lemma_octets_parse_content(s, bo, pb.take(m));
        },
        ValueView::IpAddress(s) => {
            let cl: int = 4 + encode_utf8(s).len() as int;
            assert(pb.take(m).take(cl) =~= pb.take(cl));
            lemma_octets_parse_content(s, bo, pb.take(m));
        },
        ValueView::Opaque(s) => {
            let cl: int = 4 + encode_utf8(s).len() as int;
            assert(pb.take(m).take(cl) =~= pb.take(cl));
            lemma_octets_parse_content(s, bo, pb.take(m));
        },
        _ => {
            assert(pb.take(m) =~= pb);
        },
    }
}

/// A binding cut off only inside its text's padding still decodes by itself:
/// a decoder reads the content, not the padding.
proof fn lemma_varbind_parse_content(v: VarBindView, bo: ByteOrder, k: int)
    requires
        varbind_canonical(v),
        4 + id_bytes(v.name, bo).len() + value_content_len(v.data, bo) <= k <= varbind_bytes(v, bo).len(),
    ensures
        varbind_parse(varbind_bytes(v, bo).take(k), bo) == Some(v),
{
    reveal(varbind_parse);
    let nb = id_bytes(v.name, bo);
    let pb = value_payload(v.data, bo);
    let full = varbind_bytes(v, bo);
    lemma_varbind_layout(v, bo, Seq::empty());
    lemma_id_round_trip(v.name, bo, Seq::empty());
    assert(full + Seq::<u8>::empty() =~= full);
    assert(pb + Seq::<u8>::empty() =~= pb);
    let t = full.take(k);
    let n: int = nb.len() as int;
    let m: int = k - 4 - n;
    assert(u16_value(t, bo) == u16_value(full, bo)) by {
        assert(t.subrange(0, 2) =~= full.subrange(0, 2));
    }
    let r = t.skip(4);
    assert(r =~= nb + pb.take(m));
    assert(r[0] == nb[0]);
    assert(r.take(n) =~= nb + Seq::<u8>::empty());
    assert(r.skip(n) =~= pb.take(m));
    lemma_value_parse_content(v.data, bo, m);
}

/// A list whose first binding decodes but runs past the end of the buffer
/// does not decode.
proof fn lemma_varbinds_parse_oversize(b: Seq<u8>, bo: ByteOrder, v: VarBindView)
    requires
        b.len() > 0,
        varbind_parse(b, bo) == Some(v),
        varbind_size(v) > b.len(),
    ensures
        varbinds_parse(b, bo) is None,
{
}

/// A list of bindings followed by a binding cut off anywhere before its end,
/// even inside its text's padding alone, does not decode: the dangling bytes
/// are an error, not a shorter list.
pub proof fn lemma_varbinds_dangling(s: Seq<VarBindView>, v: VarBindView, k: int, bo: ByteOrder)
    requires
        forall|i: int| 0 <= i < s.len() ==> varbind_canonical(#[trigger] s[i]),
        varbind_canonical(v),
        0 < k < varbind_bytes(v, bo).len(),
    ensures
        varbinds_parse(varbinds_bytes(s, bo) + varbind_bytes(v, bo).take(k), bo) is None,
{
    let t = varbind_bytes(v, bo).take(k);
    lemma_varbinds_parse_prefix(s, t, bo);
    lemma_varbind_round_trip(v, bo, Seq::empty());
    if k < 4 + id_bytes(v.name, bo).len() + value_content_len(v.data, bo) {
        lemma_varbind_truncated(v, bo, k);
        lemma_varbinds_parse_head_fails(t, bo);
    } else {
        lemma_varbind_parse_content(v, bo, k);
        lemma_varbinds_parse_oversize(t, bo, v);
    }
}

/// A list whose first binding does not decode does not decode.
proof fn lemma_varbinds_parse_head_fails(b: Seq<u8>, bo: ByteOrder)
    requires
        b.len() > 0,
        varbind_parse(b, bo) is None,
    ensures
        varbinds_parse(b, bo) is None,
{
}

impl VarBindList {
    /// Serializes the bindings one after another; fails when a text is too long
    /// for its length field.
    pub fn to_bytes(&self, bo: &ByteOrder) -> (r: Result<Vec<u8>, Error>)
        ensures
            r is Ok <==> varbinds_fit(self@),
            r matches Ok(v) ==> v@ == varbinds_bytes(self@, *bo),
            r is Err ==> r == Err::<Vec<u8>, Error>(Error::InvalidData),
    {
        let mut result: Vec<u8> = Vec::new();
        let n = self.0.len();
        let mut i: usize = 0;
        assert(varbinds_bytes(self@.take(0), *bo) =~= Seq::<u8>::empty());
        while i < n
            invariant
                n == self.0@.len(),
                i <= n,
                varbinds_fit(self@.take(i as int)),
                result@ == varbinds_bytes(self@.take(i as int), *bo),
            decreases n - i,
        {
            assert(self@[i as int] == self.0@[i as int]@);
            let mut bytes = match self.0[i].to_bytes(bo) {
                Ok(v) => v,
                Err(e) => {
                    assert(!value_fit(self@[i as int].data));
                    return Err(e);
                },
            };
            result.append(&mut bytes);
            proof {
                let t = self@.take(i + 1);
                lemma_varbinds_bytes_last(t, *bo);
                assert(t.drop_last() =~= self@.take(i as int));
                assert forall|j: int| 0 <= j < t.len() implies value_fit(#[trigger] t[j].data) by {
                    if j < i {
                        assert(t[j] == self@.take(i as int)[j]);
                    }
                }
            }
            i = i + 1;
        }
        assert(self@.take(n as int) =~= self@);
        Ok(result)
    }

    /// Deserializes bindings until the buffer is used up; a binding that does
    /// not fit in what is left is an error.
    pub fn from_bytes(b: &[u8], bo: &ByteOrder) -> (r: Result<VarBindList, Error>)
        ensures
            r is Ok <==> varbinds_parse(b@, *bo) is Some,
            r matches Ok(x) ==> x@ == varbinds_parse(b@, *bo).unwrap(),
            r is Err ==> r == Err::<VarBindList, Error>(Error::InvalidData),
    {
        let mut varbinds: Vec<VarBind> = Vec::new();
        let mut rest = b;
        while rest.len() > 0
            invariant
                varbinds_parse(b@, *bo) == (match varbinds_parse(rest@, *bo) {
                    None => None,
                    Some(tail_binds) => Some(varbinds@.map_values(|v: VarBind| v@) + tail_binds),
                }),
            decreases rest@.len(),
        {
            let vb = VarBind::from_bytes(rest, bo)?;
            let size = match vb.byte_size() {
                Some(size) => size,
                None => return Err(Error::InvalidData),
            };
            if size > rest.len() {
                return Err(Error::InvalidData);
            }
            let ghost before = varbinds@.map_values(|v: VarBind| v@);
            rest = tail(rest, size);
            varbinds.push(vb);
            proof {
                assert(varbinds@.map_values(|v: VarBind| v@) =~= before.push(vb@));
                if let Some(t) = varbinds_parse(rest@, *bo) {
                    assert(before + (seq![vb@] + t) =~= before.push(vb@) + t);
                }
            }
        }
        assert(varbinds@.map_values(|v: VarBind| v@) + Seq::<VarBindView>::empty()
            =~= varbinds@.map_values(|v: VarBind| v@));
        Ok(VarBindList(varbinds))
    }

    /// The number of bindings in the list.
    pub fn len(&self) -> (r: usize)
        ensures
            r == self@.len(),
    {
        self.0.len()
    }

    /// Whether the list holds no binding.
    pub fn is_empty(&self) -> (r: bool)
        ensures
            r == (self@.len() == 0),
    {
        self.0.len() == 0
    }
}

impl IntoIterator for VarBindList {
    type Item = VarBind;
    type IntoIter = std::vec::IntoIter<VarBind>;

    fn into_iter(self) -> Self::IntoIter {
        self.0.into_iter()
    }
}

impl<'a> IntoIterator for &'a VarBindList {
    type Item = &'a VarBind;
    type IntoIter = std::slice::Iter<'a, VarBind>;

    fn into_iter(self) -> Self::IntoIter {
        self.0.as_slice().iter()
    }
}

} // verus!
