//! The Response PDU: uptime, error status and index, and an optional list of
//! variable bindings that is absent when no bytes follow.
use vstd::prelude::*;

use crate::encodings::value::{lemma_varbinds_round_trip, varbind_canonical, varbinds_bytes, varbinds_fit, varbinds_parse, VarBindList, VarBindView};
use crate::pdu::header::{
    default_header, frame, framed, header_and_body, is_res_error_code, lemma_pdu_body_round_trip, lemma_res_error_code_injective, order_of_flags, pdu_body, res_error_code, stamp, Header, ResError, Type,
};
use crate::time::{lemma_centis_round_trip, millis_view, total_millis, whole_centis, Duration, DurationView};
use crate::wire::{bytes_to_u16, bytes_to_u32, lemma_u16_round_trip, lemma_u32_round_trip, put_u16, put_u32, tail, u16_bytes, u16_value, u32_bytes, u32_value, Error};

verus! {

/// What a Response PDU holds.
pub struct ResponseView {
    pub header: Header,
    pub sys_uptime: DurationView,
    pub res_error: ResError,
    pub res_index: u16,
    pub vb: Option<Seq<VarBindView>>,
}

/// The uptime as the wire holds it: whole hundredths of a second.
pub open spec fn uptime_centis(d: DurationView) -> int {
    total_millis(d) / 10
}

/// Payload of Response: uptime in hundredths of a second, error status, error
/// index, then the bindings if there are any.
pub open spec fn response_payload(v: ResponseView) -> Seq<u8> {
    let bo = order_of_flags(v.header.flags);
    u32_bytes(uptime_centis(v.sys_uptime) as u32, bo) + u16_bytes(res_error_code(v.res_error), bo)
        + u16_bytes(v.res_index, bo) + match v.vb {
        Some(l) => varbinds_bytes(l, bo),
        None => Seq::empty(),
    }
}

/// A Response PDU can be written.
pub open spec fn response_fit(v: ResponseView) -> bool {
    uptime_centis(v.sys_uptime) <= u32::MAX && (v.vb matches Some(l) ==> varbinds_fit(l))
        && response_payload(v).len() <= u32::MAX
}

/// The error status of a wire code.
pub open spec fn res_error_of_code(c: u16) -> ResError {
    choose|e: ResError| res_error_code(e) == c
}

/// A Response PDU at the start of `b`. When no bytes follow the error index
/// there is no binding list; otherwise the bindings run to the end of the buffer.
pub open spec fn response_parse(b: Seq<u8>) -> Option<ResponseView> {
    match pdu_body(b) {
        None => None,
        Some((h, body)) => {
            let bo = order_of_flags(h.flags);
            let rest = body;
            if rest.len() < 8 || !is_res_error_code(u16_value(rest.skip(4), bo)) {
                None
            } else {
                let more = rest.skip(8);
                let vb = if more.len() == 0 {
                    Some(None)
                } else {
                    match varbinds_parse(more, bo) {
                        None => None,
                        Some(l) => Some(Some(l)),
                    }
                };
                match vb {
                    None => None,
                    Some(vb) => Some(
                        ResponseView {
                            header: h,
                            sys_uptime: millis_view((u32_value(rest, bo) as u64 * 10) as u64),
                            res_error: res_error_of_code(u16_value(rest.skip(4), bo)),
                            res_index: u16_value(rest.skip(6), bo),
                            vb,
                        },
                    ),
                }
            }
        },
    }
}

/// Decoding a written Response PDU gives it back, with the payload length it
/// was stamped with. A present but empty binding list writes no bytes, so it
/// reads back as absent and is left out here.
pub proof fn lemma_response_round_trip(v: ResponseView)
    requires
        response_fit(v),
        whole_centis(v.sys_uptime),
        v.vb matches Some(l) ==> l.len() > 0 && forall|i: int|
            0 <= i < l.len() ==> varbind_canonical(#[trigger] l[i]),
    ensures
        response_parse(framed(v.header, response_payload(v))) == Some(
            ResponseView { header: stamp(v.header, response_payload(v).len()), ..v },
        ),
{
    let p = response_payload(v);
    let h = stamp(v.header, p.len());
    let bo = order_of_flags(h.flags);
    let ub = u32_bytes(uptime_centis(v.sys_uptime) as u32, bo);
    let eb = u16_bytes(res_error_code(v.res_error), bo);
    let ib = u16_bytes(v.res_index, bo);
    let lb = match v.vb {
        Some(l) => varbinds_bytes(l, bo),
        None => Seq::empty(),
    };
    lemma_pdu_body_round_trip(v.header, p);
    assert(p =~= ub + (eb + (ib + lb)));
    lemma_u32_round_trip(uptime_centis(v.sys_uptime) as u32, bo, eb + (ib + lb));
    lemma_u16_round_trip(res_error_code(v.res_error), bo, ib + lb);
    lemma_u16_round_trip(v.res_index, bo, lb);
    assert(p.skip(4) =~= eb + (ib + lb));
    assert(p.skip(6) =~= ib + lb);
    assert(p.skip(8) =~= lb);
    lemma_res_error_code_injective(v.res_error, v.res_error);
    lemma_res_error_code_injective(res_error_of_code(res_error_code(v.res_error)), v.res_error);
    lemma_centis_round_trip(v.sys_uptime);
    if let Some(l) = v.vb {
        lemma_varbinds_round_trip(l, bo);
        crate::encodings::value::lemma_varbinds_bytes_first(l, bo);
        crate::encodings::value::lemma_varbind_round_trip(l[0], bo, varbinds_bytes(l.drop_first(), bo));
    }
}

/// Response PDU: the answer to any other PDU.
#[derive(Clone, Debug, PartialEq, Eq, PartialOrd, Hash)]
pub struct Response {
    /// header of type Response
    pub header: Header,
    /// the master agent's uptime; sent in hundredths of a second in 32 bits, so
    /// it wraps after about 497 days
    pub sys_uptime: Duration,
    /// error status
    pub res_error: ResError,
    /// the index of the binding an error concerns
    pub res_index: u16,
    /// bindings, when the request asks for them
    pub vb: Option<VarBindList>,
}

impl View for Response {
    type V = ResponseView;

    open spec fn view(&self) -> ResponseView {
        ResponseView {
            header: self.header,
            sys_uptime: self.sys_uptime@,
            res_error: self.res_error,
            res_index: self.res_index,
            vb: match self.vb {
                Some(l) => Some(l@),
                None => None,
            },
        }
    }
}

/// What a new Response holds.
pub open spec fn default_response() -> ResponseView {
    ResponseView {
        header: default_header(Type::Response),
        sys_uptime: DurationView { secs: 0, nanos: 0 },
        res_error: ResError::NoAgentXError,
        res_index: 0,
        vb: None,
    }
}

impl Default for Response {
    fn default() -> (r: Response)
        ensures
            r@ == default_response(),
    {
        Response::new()
    }
}

impl Response {
    /// A Response with a default header, zero uptime, no error and no bindings.
    pub fn new() -> (r: Response)
        ensures
            r@ == default_response(),
    {
        Response {
            header: Header::new(Type::Response),
            sys_uptime: Duration::from_secs(0),
            res_error: ResError::NoAgentXError,
            res_index: 0,
            vb: None,
        }
    }

    /// A Response that answers the PDU with header `header`: it copies the
    /// session, transaction and packet identifiers.
    pub fn from_header(header: &Header) -> (r: Response)
        ensures
            r@ == (ResponseView {
                header: Header {
                    session_id: header.session_id,
                    transaction_id: header.transaction_id,
                    packet_id: header.packet_id,
                    ..default_header(Type::Response)
                },
                ..default_response()
            }),
    {
        let mut response = Response::new();
        response.header.session_id = header.session_id;
        response.header.transaction_id = header.transaction_id;
        response.header.packet_id = header.packet_id;
        response
    }

    /// Serializes to bytes, stamping the payload length into the header; fails
    /// when the uptime does not fit 32 bits of hundredths of a second, or a text
    /// or the payload is too long for its length field.
    pub fn to_bytes(&mut self) -> (r: Result<Vec<u8>, Error>)
        ensures
            r is Ok <==> response_fit(old(self)@),
            r matches Ok(v) ==> v@ == framed(old(self).header, response_payload(old(self)@)),
            r is Ok ==> final(self)@ == (ResponseView {
                header: stamp(old(self).header, response_payload(old(self)@).len()),
                ..old(self)@
            }),
            r is Err ==> *final(self) == *old(self) && r == Err::<Vec<u8>, Error>(Error::InvalidData),
    {
        let bo = self.header.byte_order();
        let centis = self.sys_uptime.as_millis() / 10;
        if centis > 0xffff_ffffu128 {
            return Err(Error::InvalidData);
        }
        let mut payload: Vec<u8> = Vec::new();
        put_u32(&mut payload, centis as u32, &bo);
        put_u16(&mut payload, self.res_error.code(), &bo);
        put_u16(&mut payload, self.res_index, &bo);
        match &self.vb {
            Some(vb) => {
                let mut binds = vb.to_bytes(&bo)?;
                payload.append(&mut binds);
            },
            None => {},
        }
        assert(payload@ =~= response_payload(self@));
        frame(&mut self.header, payload)
    }

    /// Deserializes from bytes.
    pub fn from_bytes(b: &[u8]) -> (r: Result<Response, Error>)
        ensures
            r is Ok <==> response_parse(b@) is Some,
            r matches Ok(p) ==> p@ == response_parse(b@).unwrap(),
            r is Err ==> r == Err::<Response, Error>(Error::InvalidData),
    {
        let (header, body) = header_and_body(b)?;
        let bo = header.byte_order();
        let rest = body;
        if rest.len() < 8 {
            return Err(Error::InvalidData);
        }
        let centis = bytes_to_u32(rest, &bo)?;
        let sys_uptime = Duration::from_millis(centis as u64 * 10);
        let res_error = ResError::from_bytes(tail(rest, 4), &bo)?;
        proof {
            lemma_res_error_code_injective(res_error_of_code(u16_value(rest@.skip(4), bo)), res_error);
        }
        let res_index = bytes_to_u16(tail(rest, 6), &bo)?;
        let more = tail(rest, 8);
        let vb = if more.len() == 0 {
            None
        } else {
            Some(VarBindList::from_bytes(more, &bo)?)
        };
        assert(rest@.skip(4).skip(2) =~= rest@.skip(6));
        Ok(Response { header, sys_uptime, res_error, res_index, vb })
    }
}

} // verus!
