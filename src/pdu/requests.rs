//! The request PDUs: the Get family (a search range list), the set family (a
//! variable binding list), GetBulk, and the administrative PDUs (header only).
use vstd::prelude::*;

use crate::encodings::context::Context;
use crate::encodings::searchrange::{lemma_ranges_round_trip, range_canonical, ranges_bytes, ranges_parse, SearchRangeList, SearchRangeView};
use crate::encodings::value::{lemma_varbinds_round_trip, varbind_canonical, varbinds_bytes, varbinds_fit, varbinds_parse, VarBindList, VarBindView};
use crate::pdu::header::{
    context_agrees, context_and_rest, context_bytes, context_fit, context_split, context_view, default_header, frame, framed, header_and_body, lemma_context_round_trip, lemma_pdu_body_round_trip, order_of_flags, pdu_body, put_context, stamp, Header, Type,
};
use crate::wire::{bytes_to_u16, lemma_u16_round_trip, put_u16, tail, u16_bytes, u16_value, Error};

verus! {

/// What a PDU of the Get family holds: Get and GetNext.
pub struct GetAlikeView {
    pub header: Header,
    pub context: Option<Seq<char>>,
    pub sr: Seq<SearchRangeView>,
}

/// Payload of the Get family: the optional context, then the search ranges.
pub open spec fn get_alike_payload(v: GetAlikeView) -> Seq<u8> {
    let bo = order_of_flags(v.header.flags);
    context_bytes(v.context, bo) + ranges_bytes(v.sr, bo)
}

/// A PDU of the Get family can be written.
pub open spec fn get_alike_fit(v: GetAlikeView) -> bool {
    context_fit(v.context) && get_alike_payload(v).len() <= u32::MAX
}

/// A PDU of the Get family at the start of `b`: the search ranges run to the
/// end of the buffer.
pub open spec fn get_alike_parse(b: Seq<u8>) -> Option<GetAlikeView> {
    match pdu_body(b) {
        None => None,
        Some((h, body)) => match context_split(h, body) {
            None => None,
            Some((c, rest)) => match ranges_parse(rest, order_of_flags(h.flags)) {
                None => None,
                Some(sr) => Some(GetAlikeView { header: h, context: c, sr }),
            },
        },
    }
}

/// Decoding a written PDU of the Get family gives it back, with the payload
/// length it was stamped with.
pub proof fn lemma_get_alike_round_trip(v: GetAlikeView)
    requires
        get_alike_fit(v),
        context_agrees(v.header, v.context),
        forall|i: int| 0 <= i < v.sr.len() ==> range_canonical(#[trigger] v.sr[i]),
    ensures
        get_alike_parse(framed(v.header, get_alike_payload(v))) == Some(
            GetAlikeView { header: stamp(v.header, get_alike_payload(v).len()), ..v },
        ),
{
    let p = get_alike_payload(v);
    let h = stamp(v.header, p.len());
    let bo = order_of_flags(h.flags);
    lemma_pdu_body_round_trip(v.header, p);
    lemma_context_round_trip(h, v.context, ranges_bytes(v.sr, bo));
    lemma_ranges_round_trip(v.sr, bo);
}

/// Reads a PDU of the Get family.
fn get_alike_from_bytes(b: &[u8]) -> (r: Result<(Header, Option<Context>, SearchRangeList), Error>)
    ensures
        r is Ok <==> get_alike_parse(b@) is Some,
        r matches Ok((h, c, sr)) ==> get_alike_parse(b@) == Some(
            GetAlikeView { header: h, context: context_view(c), sr: sr@ },
        ),
        r is Err ==> r == Err::<(Header, Option<Context>, SearchRangeList), Error>(Error::InvalidData),
{
    let (header, body) = header_and_body(b)?;
    let bo = header.byte_order();
    let (context, rest) = context_and_rest(&header, body)?;
    let sr = SearchRangeList::from_bytes(rest, &bo)?;
    Ok((header, context, sr))
}

/// Writes the payload of the Get family and frames it.
fn get_alike_to_bytes(header: &mut Header, context: &Option<Context>, sr: &SearchRangeList) -> (r: Result<
    Vec<u8>,
    Error,
>)
    ensures
        ({
            let v = GetAlikeView { header: *old(header), context: context_view(*context), sr: sr@ };
            &&& r is Ok <==> get_alike_fit(v)
            &&& r matches Ok(bytes) ==> bytes@ == framed(v.header, get_alike_payload(v))
            &&& r is Ok ==> *final(header) == stamp(v.header, get_alike_payload(v).len())
            &&& r is Err ==> *final(header) == *old(header) && r == Err::<Vec<u8>, Error>(
                Error::InvalidData,
            )
        }),
{
    let bo = header.byte_order();
    let mut payload: Vec<u8> = Vec::new();
    put_context(&mut payload, context, &bo)?;
    let mut ranges = sr.to_bytes(&bo);
    payload.append(&mut ranges);
    frame(header, payload)
}

/// Get PDU: asks for the values of the listed variables.
#[derive(Clone, Debug, PartialEq, Eq, PartialOrd, Hash)]
pub struct Get {
    /// header of type Get
    pub header: Header,
    /// optional non-default context
    pub context: Option<Context>,
    /// the variables asked for
    pub sr: SearchRangeList,
}

impl View for Get {
    type V = GetAlikeView;

    open spec fn view(&self) -> GetAlikeView {
        GetAlikeView { header: self.header, context: context_view(self.context), sr: self.sr@ }
    }
}

impl Get {
    /// A Get PDU for the ranges `sr`, with a default header and no context.
    pub fn new(sr: SearchRangeList) -> (r: Get)
        ensures
            r@ == (GetAlikeView { header: default_header(Type::Get), context: None, sr: sr@ }),
    {
        Get { header: Header::new(Type::Get), context: None, sr }
    }

    /// Serializes to bytes, stamping the payload length into the header; fails
    /// when a text or the payload is too long for its length field.
    pub fn to_bytes(&mut self) -> (r: Result<Vec<u8>, Error>)
        ensures
            r is Ok <==> get_alike_fit(old(self)@),
            r matches Ok(v) ==> v@ == framed(old(self).header, get_alike_payload(old(self)@)),
            r is Ok ==> final(self)@ == (GetAlikeView {
                header: stamp(old(self).header, get_alike_payload(old(self)@).len()),
                ..old(self)@
            }),
            r is Err ==> *final(self) == *old(self) && r == Err::<Vec<u8>, Error>(Error::InvalidData),
    {
        get_alike_to_bytes(&mut self.header, &self.context, &self.sr)
    }

    /// Deserializes from bytes.
    pub fn from_bytes(b: &[u8]) -> (r: Result<Get, Error>)
        ensures
            r is Ok <==> get_alike_parse(b@) is Some,
            r matches Ok(p) ==> p@ == get_alike_parse(b@).unwrap(),
            r is Err ==> r == Err::<Get, Error>(Error::InvalidData),
    {
        let (header, context, sr) = get_alike_from_bytes(b)?;
        Ok(Get { header, context, sr })
    }
}

/// GetNext PDU: asks for the variables that follow the listed ones.
#[derive(Clone, Debug, PartialEq, Eq, PartialOrd, Hash)]
pub struct GetNext {
    /// header of type GetNext
    pub header: Header,
    /// optional non-default context
    pub context: Option<Context>,
    /// the ranges to search
    pub sr: SearchRangeList,
}

impl View for GetNext {
    type V = GetAlikeView;

    open spec fn view(&self) -> GetAlikeView {
        GetAlikeView { header: self.header, context: context_view(self.context), sr: self.sr@ }
    }
}

impl GetNext {
    /// A GetNext PDU for the ranges `sr`, with a default header and no context.
    pub fn new(sr: SearchRangeList) -> (r: GetNext)
        ensures
            r@ == (GetAlikeView { header: default_header(Type::GetNext), context: None, sr: sr@ }),
    {
        GetNext { header: Header::new(Type::GetNext), context: None, sr }
    }

    /// Serializes to bytes, stamping the payload length into the header; fails
    /// when a text or the payload is too long for its length field.
    pub fn to_bytes(&mut self) -> (r: Result<Vec<u8>, Error>)
        ensures
            r is Ok <==> get_alike_fit(old(self)@),
            r matches Ok(v) ==> v@ == framed(old(self).header, get_alike_payload(old(self)@)),
            r is Ok ==> final(self)@ == (GetAlikeView {
                header: stamp(old(self).header, get_alike_payload(old(self)@).len()),
                ..old(self)@
            }),
            r is Err ==> *final(self) == *old(self) && r == Err::<Vec<u8>, Error>(Error::InvalidData),
    {
        get_alike_to_bytes(&mut self.header, &self.context, &self.sr)
    }

    /// Deserializes from bytes.
    pub fn from_bytes(b: &[u8]) -> (r: Result<GetNext, Error>)
        ensures
            r is Ok <==> get_alike_parse(b@) is Some,
            r matches Ok(p) ==> p@ == get_alike_parse(b@).unwrap(),
            r is Err ==> r == Err::<GetNext, Error>(Error::InvalidData),
    {
        let (header, context, sr) = get_alike_from_bytes(b)?;
        Ok(GetNext { header, context, sr })
    }
}

/// What a PDU of the set family holds: TestSet, Notify, IndexAllocate and
/// IndexDeallocate.
pub struct SetAlikeView {
    pub header: Header,
    pub context: Option<Seq<char>>,
    pub vb: Seq<VarBindView>,
}

/// Payload of the set family: the optional context, then the bindings.
pub open spec fn set_alike_payload(v: SetAlikeView) -> Seq<u8> {
    let bo = order_of_flags(v.header.flags);
    context_bytes(v.context, bo) + varbinds_bytes(v.vb, bo)
}

/// A PDU of the set family can be written.
pub open spec fn set_alike_fit(v: SetAlikeView) -> bool {
    context_fit(v.context) && varbinds_fit(v.vb) && set_alike_payload(v).len() <= u32::MAX
}

/// A PDU of the set family at the start of `b`: the bindings run to the end
/// of the buffer.
pub open spec fn set_alike_parse(b: Seq<u8>) -> Option<SetAlikeView> {
    match pdu_body(b) {
        None => None,
        Some((h, body)) => match context_split(h, body) {
            None => None,
            Some((c, rest)) => match varbinds_parse(rest, order_of_flags(h.flags)) {
                None => None,
                Some(vb) => Some(SetAlikeView { header: h, context: c, vb }),
            },
        },
    }
}

/// Decoding a written PDU of the set family gives it back, with the payload
/// length it was stamped with.
pub proof fn lemma_set_alike_round_trip(v: SetAlikeView)
    requires
        set_alike_fit(v),
        context_agrees(v.header, v.context),
        forall|i: int| 0 <= i < v.vb.len() ==> varbind_canonical(#[trigger] v.vb[i]),
    ensures
        set_alike_parse(framed(v.header, set_alike_payload(v))) == Some(
            SetAlikeView { header: stamp(v.header, set_alike_payload(v).len()), ..v },
        ),
{
    let p = set_alike_payload(v);
    let h = stamp(v.header, p.len());
    let bo = order_of_flags(h.flags);
    lemma_pdu_body_round_trip(v.header, p);
    lemma_context_round_trip(h, v.context, varbinds_bytes(v.vb, bo));
    lemma_varbinds_round_trip(v.vb, bo);
}

/// Reads a PDU of the set family.
fn testset_alike_from_bytes(b: &[u8]) -> (r: Result<(Header, Option<Context>, VarBindList), Error>)
    ensures
        r is Ok <==> set_alike_parse(b@) is Some,
        r matches Ok((h, c, vb)) ==> set_alike_parse(b@) == Some(
            SetAlikeView { header: h, context: context_view(c), vb: vb@ },
        ),
        r is Err ==> r == Err::<(Header, Option<Context>, VarBindList), Error>(Error::InvalidData),
{
    let (header, body) = header_and_body(b)?;
    let bo = header.byte_order();
    let (context, rest) = context_and_rest(&header, body)?;
    let vb = VarBindList::from_bytes(rest, &bo)?;
    Ok((header, context, vb))
}

/// Writes the payload of the set family and frames it.
fn set_alike_to_bytes(header: &mut Header, context: &Option<Context>, vb: &VarBindList) -> (r: Result<
    Vec<u8>,
    Error,
>)
    ensures
        ({
            let v = SetAlikeView { header: *old(header), context: context_view(*context), vb: vb@ };
            &&& r is Ok <==> set_alike_fit(v)
            &&& r matches Ok(bytes) ==> bytes@ == framed(v.header, set_alike_payload(v))
            &&& r is Ok ==> *final(header) == stamp(v.header, set_alike_payload(v).len())
            &&& r is Err ==> *final(header) == *old(header) && r == Err::<Vec<u8>, Error>(
                Error::InvalidData,
            )
        }),
{
    let bo = header.byte_order();
    let mut payload: Vec<u8> = Vec::new();
    put_context(&mut payload, context, &bo)?;
    let mut binds = vb.to_bytes(&bo)?;
    payload.append(&mut binds);
    frame(header, payload)
}

/// TestSet PDU: asks whether the bindings could be set.
#[derive(Clone, Debug, PartialEq, Eq, PartialOrd, Hash)]
pub struct TestSet {
    /// header of type TestSet
    pub header: Header,
    /// optional non-default context
    pub context: Option<Context>,
    /// the bindings to test
    pub vb: VarBindList,
}

impl View for TestSet {
    type V = SetAlikeView;

    open spec fn view(&self) -> SetAlikeView {
        SetAlikeView { header: self.header, context: context_view(self.context), vb: self.vb@ }
    }
}

impl TestSet {
    /// A TestSet PDU for the bindings `vb`, with a default header and no context.
    pub fn new(vb: VarBindList) -> (r: TestSet)
        ensures
            r@ == (SetAlikeView { header: default_header(Type::TestSet), context: None, vb: vb@ }),
    {
        TestSet { header: Header::new(Type::TestSet), context: None, vb }
    }

    /// Serializes to bytes, stamping the payload length into the header; fails
    /// when a text or the payload is too long for its length field.
    pub fn to_bytes(&mut self) -> (r: Result<Vec<u8>, Error>)
        ensures
            r is Ok <==> set_alike_fit(old(self)@),
            r matches Ok(v) ==> v@ == framed(old(self).header, set_alike_payload(old(self)@)),
            r is Ok ==> final(self)@ == (SetAlikeView {
                header: stamp(old(self).header, set_alike_payload(old(self)@).len()),
                ..old(self)@
            }),
            r is Err ==> *final(self) == *old(self) && r == Err::<Vec<u8>, Error>(Error::InvalidData),
    {
        set_alike_to_bytes(&mut self.header, &self.context, &self.vb)
    }

    /// Deserializes from bytes.
    pub fn from_bytes(b: &[u8]) -> (r: Result<TestSet, Error>)
        ensures
            r is Ok <==> set_alike_parse(b@) is Some,
            r matches Ok(p) ==> p@ == set_alike_parse(b@).unwrap(),
            r is Err ==> r == Err::<TestSet, Error>(Error::InvalidData),
    {
        let (header, context, vb) = testset_alike_from_bytes(b)?;
        Ok(TestSet { header, context, vb })
    }
}

/// Notify PDU: sends a notification.
#[derive(Clone, Debug, PartialEq, Eq, PartialOrd, Hash)]
pub struct Notify {
    /// header of type Notify
    pub header: Header,
    /// optional non-default context
    pub context: Option<Context>,
    /// the bindings that make up the notification
    pub vb: VarBindList,
}

impl View for Notify {
    type V = SetAlikeView;

    open spec fn view(&self) -> SetAlikeView {
        SetAlikeView { header: self.header, context: context_view(self.context), vb: self.vb@ }
    }
}

impl Notify {
    /// A Notify PDU for the bindings `vb`, with a default header and no context.
    pub fn new(vb: VarBindList) -> (r: Notify)
        ensures
            r@ == (SetAlikeView { header: default_header(Type::Notify), context: None, vb: vb@ }),
    {
        Notify { header: Header::new(Type::Notify), context: None, vb }
    }

    /// Serializes to bytes, stamping the payload length into the header; fails
    /// when a text or the payload is too long for its length field.
    pub fn to_bytes(&mut self) -> (r: Result<Vec<u8>, Error>)
        ensures
            r is Ok <==> set_alike_fit(old(self)@),
            r matches Ok(v) ==> v@ == framed(old(self).header, set_alike_payload(old(self)@)),
            r is Ok ==> final(self)@ == (SetAlikeView {
                header: stamp(old(self).header, set_alike_payload(old(self)@).len()),
                ..old(self)@
            }),
            r is Err ==> *final(self) == *old(self) && r == Err::<Vec<u8>, Error>(Error::InvalidData),
    {
        set_alike_to_bytes(&mut self.header, &self.context, &self.vb)
    }

    /// Deserializes from bytes.
    pub fn from_bytes(b: &[u8]) -> (r: Result<Notify, Error>)
        ensures
            r is Ok <==> set_alike_parse(b@) is Some,
            r matches Ok(p) ==> p@ == set_alike_parse(b@).unwrap(),
            r is Err ==> r == Err::<Notify, Error>(Error::InvalidData),
    {
        let (header, context, vb) = testset_alike_from_bytes(b)?;
        Ok(Notify { header, context, vb })
    }
}

/// IndexAllocate PDU: asks for index values.
#[derive(Clone, Debug, PartialEq, Eq, PartialOrd, Hash)]
pub struct IndexAllocate {
    /// header of type IndexAllocate
    pub header: Header,
    /// optional non-default context
    pub context: Option<Context>,
    /// the index names and values asked for
    pub vb: VarBindList,
}

impl View for IndexAllocate {
    type V = SetAlikeView;

    open spec fn view(&self) -> SetAlikeView {
        SetAlikeView { header: self.header, context: context_view(self.context), vb: self.vb@ }
    }
}

impl IndexAllocate {
    /// A IndexAllocate PDU for the bindings `vb`, with a default header and no context.
    pub fn new(vb: VarBindList) -> (r: IndexAllocate)
        ensures
            r@ == (SetAlikeView { header: default_header(Type::IndexAllocate), context: None, vb: vb@ }),
    {
        IndexAllocate { header: Header::new(Type::IndexAllocate), context: None, vb }
    }

    /// Serializes to bytes, stamping the payload length into the header; fails
    /// when a text or the payload is too long for its length field.
    pub fn to_bytes(&mut self) -> (r: Result<Vec<u8>, Error>)
        ensures
            r is Ok <==> set_alike_fit(old(self)@),
            r matches Ok(v) ==> v@ == framed(old(self).header, set_alike_payload(old(self)@)),
            r is Ok ==> final(self)@ == (SetAlikeView {
                header: stamp(old(self).header, set_alike_payload(old(self)@).len()),
                ..old(self)@
            }),
            r is Err ==> *final(self) == *old(self) && r == Err::<Vec<u8>, Error>(Error::InvalidData),
    {
        set_alike_to_bytes(&mut self.header, &self.context, &self.vb)
    }

    /// Deserializes from bytes.
    pub fn from_bytes(b: &[u8]) -> (r: Result<IndexAllocate, Error>)
        ensures
            r is Ok <==> set_alike_parse(b@) is Some,
            r matches Ok(p) ==> p@ == set_alike_parse(b@).unwrap(),
            r is Err ==> r == Err::<IndexAllocate, Error>(Error::InvalidData),
    {
        let (header, context, vb) = testset_alike_from_bytes(b)?;
        Ok(IndexAllocate { header, context, vb })
    }
}

/// IndexDeallocate PDU: gives index values back.
#[derive(Clone, Debug, PartialEq, Eq, PartialOrd, Hash)]
pub struct IndexDeallocate {
    /// header of type IndexDeallocate
    pub header: Header,
    /// optional non-default context
    pub context: Option<Context>,
    /// the index names and values to release
    pub vb: VarBindList,
}

impl View for IndexDeallocate {
    type V = SetAlikeView;

    open spec fn view(&self) -> SetAlikeView {
        SetAlikeView { header: self.header, context: context_view(self.context), vb: self.vb@ }
    }
}

impl IndexDeallocate {
    /// A IndexDeallocate PDU for the bindings `vb`, with a default header and no context.
    pub fn new(vb: VarBindList) -> (r: IndexDeallocate)
        ensures
            r@ == (SetAlikeView { header: default_header(Type::IndexDeallocate), context: None, vb: vb@ }),
    {
        IndexDeallocate { header: Header::new(Type::IndexDeallocate), context: None, vb }
    }

    /// Serializes to bytes, stamping the payload length into the header; fails
    /// when a text or the payload is too long for its length field.
    pub fn to_bytes(&mut self) -> (r: Result<Vec<u8>, Error>)
        ensures
            r is Ok <==> set_alike_fit(old(self)@),
            r matches Ok(v) ==> v@ == framed(old(self).header, set_alike_payload(old(self)@)),
            r is Ok ==> final(self)@ == (SetAlikeView {
                header: stamp(old(self).header, set_alike_payload(old(self)@).len()),
                ..old(self)@
            }),
            r is Err ==> *final(self) == *old(self) && r == Err::<Vec<u8>, Error>(Error::InvalidData),
    {
        set_alike_to_bytes(&mut self.header, &self.context, &self.vb)
    }

    /// Deserializes from bytes.
    pub fn from_bytes(b: &[u8]) -> (r: Result<IndexDeallocate, Error>)
        ensures
            r is Ok <==> set_alike_parse(b@) is Some,
            r matches Ok(p) ==> p@ == set_alike_parse(b@).unwrap(),
            r is Err ==> r == Err::<IndexDeallocate, Error>(Error::InvalidData),
    {
        let (header, context, vb) = testset_alike_from_bytes(b)?;
        Ok(IndexDeallocate { header, context, vb })
    }
}

/// What a GetBulk PDU holds.
pub struct GetBulkView {
    pub header: Header,
    pub context: Option<Seq<char>>,
    pub non_repeaters: u16,
    pub max_repetitions: u16,
    pub sr: Seq<SearchRangeView>,
}

/// Payload of GetBulk: the optional context, the two counts, then the ranges.
pub open spec fn get_bulk_payload(v: GetBulkView) -> Seq<u8> {
    let bo = order_of_flags(v.header.flags);
    context_bytes(v.context, bo) + u16_bytes(v.non_repeaters, bo) + u16_bytes(v.max_repetitions, bo)
        + ranges_bytes(v.sr, bo)
}

/// A GetBulk PDU can be written.
pub open spec fn get_bulk_fit(v: GetBulkView) -> bool {
    context_fit(v.context) && get_bulk_payload(v).len() <= u32::MAX
}

/// A GetBulk PDU at the start of `b`: the ranges run to the end of the buffer.
pub open spec fn get_bulk_parse(b: Seq<u8>) -> Option<GetBulkView> {
    match pdu_body(b) {
        None => None,
        Some((h, body)) => match context_split(h, body) {
            None => None,
            Some((c, rest)) => {
                let bo = order_of_flags(h.flags);
                if rest.len() < 4 {
                    None
                } else {
                    match ranges_parse(rest.skip(4), bo) {
                        None => None,
                        Some(sr) => Some(
                            GetBulkView {
                                header: h,
                                context: c,
                                non_repeaters: u16_value(rest, bo),
                                max_repetitions: u16_value(rest.skip(2), bo),
                                sr,
                            },
                        ),
                    }
                }
            },
        },
    }
}

/// Decoding a written GetBulk PDU gives it back, with the payload length it
/// was stamped with.
pub proof fn lemma_get_bulk_round_trip(v: GetBulkView)
    requires
        get_bulk_fit(v),
        context_agrees(v.header, v.context),
        forall|i: int| 0 <= i < v.sr.len() ==> range_canonical(#[trigger] v.sr[i]),
    ensures
        get_bulk_parse(framed(v.header, get_bulk_payload(v))) == Some(
            GetBulkView { header: stamp(v.header, get_bulk_payload(v).len()), ..v },
        ),
{
    let p = get_bulk_payload(v);
    let h = stamp(v.header, p.len());
    let bo = order_of_flags(h.flags);
    let nr = u16_bytes(v.non_repeaters, bo);
    let mr = u16_bytes(v.max_repetitions, bo);
    let rb = ranges_bytes(v.sr, bo);
    lemma_pdu_body_round_trip(v.header, p);
    assert(p =~= context_bytes(v.context, bo) + (nr + mr + rb));
    lemma_context_round_trip(h, v.context, nr + mr + rb);
    lemma_u16_round_trip(v.non_repeaters, bo, mr + rb);
    lemma_u16_round_trip(v.max_repetitions, bo, rb);
    assert(nr + mr + rb =~= nr + (mr + rb));
    assert((nr + mr + rb).skip(2) =~= mr + rb);
    assert((nr + mr + rb).skip(4) =~= rb);
    lemma_ranges_round_trip(v.sr, bo);
}

/// GetBulk PDU: asks for many successors of the listed variables at once.
#[derive(Clone, Debug, PartialEq, Eq, PartialOrd, Hash)]
pub struct GetBulk {
    /// header of type GetBulk
    pub header: Header,
    /// optional non-default context
    pub context: Option<Context>,
    /// the number of leading ranges that are not repeated
    pub non_repeaters: u16,
    /// the most repetitions asked for the other ranges
    pub max_repetitions: u16,
    /// the ranges to search
    pub sr: SearchRangeList,
}

impl View for GetBulk {
    type V = GetBulkView;

    open spec fn view(&self) -> GetBulkView {
        GetBulkView {
            header: self.header,
            context: context_view(self.context),
            non_repeaters: self.non_repeaters,
            max_repetitions: self.max_repetitions,
            sr: self.sr@,
        }
    }
}

impl GetBulk {
    /// A GetBulk PDU for the ranges `sr`, with a default header, no context and
    /// zero counts.
    pub fn new(sr: SearchRangeList) -> (r: GetBulk)
        ensures
            r@ == (GetBulkView {
                header: default_header(Type::GetBulk),
                context: None,
                non_repeaters: 0,
                max_repetitions: 0,
                sr: sr@,
            }),
    {
        GetBulk { header: Header::new(Type::GetBulk), context: None, non_repeaters: 0, max_repetitions: 0, sr }
    }

    /// Serializes to bytes, stamping the payload length into the header; fails
    /// when a text or the payload is too long for its length field.
    pub fn to_bytes(&mut self) -> (r: Result<Vec<u8>, Error>)
        ensures
            r is Ok <==> get_bulk_fit(old(self)@),
            r matches Ok(v) ==> v@ == framed(old(self).header, get_bulk_payload(old(self)@)),
            r is Ok ==> final(self)@ == (GetBulkView {
                header: stamp(old(self).header, get_bulk_payload(old(self)@).len()),
                ..old(self)@
            }),
            r is Err ==> *final(self) == *old(self) && r == Err::<Vec<u8>, Error>(Error::InvalidData),
    {
        let bo = self.header.byte_order();
        let mut payload: Vec<u8> = Vec::new();
        put_context(&mut payload, &self.context, &bo)?;
        put_u16(&mut payload, self.non_repeaters, &bo);
        put_u16(&mut payload, self.max_repetitions, &bo);
        let mut ranges = self.sr.to_bytes(&bo);
        payload.append(&mut ranges);
        frame(&mut self.header, payload)
    }

    /// Deserializes from bytes.
    pub fn from_bytes(b: &[u8]) -> (r: Result<GetBulk, Error>)
        ensures
            r is Ok <==> get_bulk_parse(b@) is Some,
            r matches Ok(p) ==> p@ == get_bulk_parse(b@).unwrap(),
            r is Err ==> r == Err::<GetBulk, Error>(Error::InvalidData),
    {
        let (header, body) = header_and_body(b)?;
        let bo = header.byte_order();
        let (context, rest) = context_and_rest(&header, body)?;
        if rest.len() < 4 {
            return Err(Error::InvalidData);
        }
        let non_repeaters = bytes_to_u16(rest, &bo)?;
        let max_repetitions = bytes_to_u16(tail(rest, 2), &bo)?;
        let sr = SearchRangeList::from_bytes(tail(rest, 4), &bo)?;
        Ok(GetBulk { header, context, non_repeaters, max_repetitions, sr })
    }
}

/// Decoding a written administrative PDU (CommitSet, UndoSet, CleanupSet)
/// gives back its header, stamped with an empty payload.
pub proof fn lemma_admin_round_trip(h: Header)
    ensures
        pdu_body(framed(h, Seq::empty())) == Some((stamp(h, 0), Seq::<u8>::empty())),
{
    lemma_pdu_body_round_trip(h, Seq::empty());
}

/// CommitSet PDU: makes the tested sets take effect.
#[derive(Clone, Copy, Debug, PartialEq, Eq, Structural, PartialOrd, Hash)]
pub struct CommitSet {
    /// header of type CommitSet
    pub header: Header,
}

impl Default for CommitSet {
    fn default() -> (r: CommitSet)
        ensures
            r.header == default_header(Type::CommitSet),
    {
        CommitSet { header: Header::new(Type::CommitSet) }
    }
}

impl CommitSet {
    /// A CommitSet PDU with a default header.
    pub fn new() -> (r: CommitSet)
        ensures
            r.header == default_header(Type::CommitSet),
    {
        CommitSet { header: Header::new(Type::CommitSet) }
    }

    /// Serializes to bytes: the header alone, stamped with an empty payload.
    pub fn to_bytes(&mut self) -> (r: Result<Vec<u8>, Error>)
        ensures
            r matches Ok(v) && v@ == framed(old(self).header, Seq::empty()),
            final(self).header == stamp(old(self).header, 0),
    {
        frame(&mut self.header, Vec::new())
    }

    /// Deserializes from bytes: the header, whose announced payload must be present.
    pub fn from_bytes(b: &[u8]) -> (r: Result<CommitSet, Error>)
        ensures
            r is Ok <==> pdu_body(b@) is Some,
            r matches Ok(p) ==> p.header == pdu_body(b@).unwrap().0,
            r is Err ==> r == Err::<CommitSet, Error>(Error::InvalidData),
    {
        let (header, _) = header_and_body(b)?;
        Ok(CommitSet { header })
    }
}

/// UndoSet PDU: undoes the committed sets.
#[derive(Clone, Copy, Debug, PartialEq, Eq, Structural, PartialOrd, Hash)]
pub struct UndoSet {
    /// header of type UndoSet
    pub header: Header,
}

impl Default for UndoSet {
    fn default() -> (r: UndoSet)
        ensures
            r.header == default_header(Type::UndoSet),
    {
        UndoSet { header: Header::new(Type::UndoSet) }
    }
}

impl UndoSet {
    /// A UndoSet PDU with a default header.
    pub fn new() -> (r: UndoSet)
        ensures
            r.header == default_header(Type::UndoSet),
    {
        UndoSet { header: Header::new(Type::UndoSet) }
    }

    /// Serializes to bytes: the header alone, stamped with an empty payload.
    pub fn to_bytes(&mut self) -> (r: Result<Vec<u8>, Error>)
        ensures
            r matches Ok(v) && v@ == framed(old(self).header, Seq::empty()),
            final(self).header == stamp(old(self).header, 0),
    {
        frame(&mut self.header, Vec::new())
    }

    /// Deserializes from bytes: the header, whose announced payload must be present.
    pub fn from_bytes(b: &[u8]) -> (r: Result<UndoSet, Error>)
        ensures
            r is Ok <==> pdu_body(b@) is Some,
            r matches Ok(p) ==> p.header == pdu_body(b@).unwrap().0,
            r is Err ==> r == Err::<UndoSet, Error>(Error::InvalidData),
    {
        let (header, _) = header_and_body(b)?;
        Ok(UndoSet { header })
    }
}

/// CleanupSet PDU: ends a set transaction.
#[derive(Clone, Copy, Debug, PartialEq, Eq, Structural, PartialOrd, Hash)]
pub struct CleanupSet {
    /// header of type CleanupSet
    pub header: Header,
}

impl Default for CleanupSet {
    fn default() -> (r: CleanupSet)
        ensures
            r.header == default_header(Type::CleanupSet),
    {
        CleanupSet { header: Header::new(Type::CleanupSet) }
    }
}

impl CleanupSet {
    /// A CleanupSet PDU with a default header.
    pub fn new() -> (r: CleanupSet)
        ensures
            r.header == default_header(Type::CleanupSet),
    {
        CleanupSet { header: Header::new(Type::CleanupSet) }
    }

    /// Serializes to bytes: the header alone, stamped with an empty payload.
    pub fn to_bytes(&mut self) -> (r: Result<Vec<u8>, Error>)
        ensures
            r matches Ok(v) && v@ == framed(old(self).header, Seq::empty()),
            final(self).header == stamp(old(self).header, 0),
    {
        frame(&mut self.header, Vec::new())
    }

    /// Deserializes from bytes: the header, whose announced payload must be present.
    pub fn from_bytes(b: &[u8]) -> (r: Result<CleanupSet, Error>)
        ensures
            r is Ok <==> pdu_body(b@) is Some,
            r matches Ok(p) ==> p.header == pdu_body(b@).unwrap().0,
            r is Err ==> r == Err::<CleanupSet, Error>(Error::InvalidData),
    {
        let (header, _) = header_and_body(b)?;
        Ok(CleanupSet { header })
    }
}

} // verus!
