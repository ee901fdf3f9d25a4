//! What the PDU decoders do with a buffer cut short: every PDU reads exactly
//! the payload its header announces, so any cut before its last byte fails.
use vstd::prelude::*;

use crate::pdu::header::{framed, lemma_pdu_body_truncated, pdu_body, Header};
use crate::pdu::requests::{get_alike_parse, get_bulk_parse, set_alike_parse};
use crate::pdu::response::response_parse;
use crate::pdu::session::{
    add_caps_parse, close_parse, close_payload, open_fit, open_parse, open_payload, ping_parse,
    register_parse, remove_caps_parse, unregister_parse, Close, OpenView,
};

verus! {

/// A buffer shorter than a header decodes as no kind of PDU.
pub proof fn lemma_short_buffer_fails(b: Seq<u8>)
    requires
        b.len() < 20,
    ensures
        pdu_body(b) is None,
        get_alike_parse(b) is None,
        get_bulk_parse(b) is None,
        set_alike_parse(b) is None,
        open_parse(b) is None,
        close_parse(b) is None,
        register_parse(b) is None,
        unregister_parse(b) is None,
        ping_parse(b) is None,
        add_caps_parse(b) is None,
        remove_caps_parse(b) is None,
        response_parse(b) is None,
{
    reveal(pdu_body);
}

/// A written PDU of any kind, cut off anywhere before its last byte, decodes
/// as no kind of PDU: neither as itself with fewer list elements nor without
/// its padding.
pub proof fn lemma_pdu_truncated(h: Header, p: Seq<u8>, k: int)
    requires
        p.len() <= u32::MAX,
        0 <= k < 20 + p.len(),
    ensures
        pdu_body(framed(h, p).take(k)) is None,
        get_alike_parse(framed(h, p).take(k)) is None,
        get_bulk_parse(framed(h, p).take(k)) is None,
        set_alike_parse(framed(h, p).take(k)) is None,
        open_parse(framed(h, p).take(k)) is None,
        close_parse(framed(h, p).take(k)) is None,
        register_parse(framed(h, p).take(k)) is None,
        unregister_parse(framed(h, p).take(k)) is None,
        ping_parse(framed(h, p).take(k)) is None,
        add_caps_parse(framed(h, p).take(k)) is None,
        remove_caps_parse(framed(h, p).take(k)) is None,
        response_parse(framed(h, p).take(k)) is None,
{
    lemma_pdu_body_truncated(h, p, k);
}

/// A written Close PDU cut off before its 24th byte, reserved bytes
/// included, does not decode.
pub proof fn lemma_close_truncated(c: Close, k: int)
    requires
        0 <= k < 24,
    ensures
        close_parse(framed(c.header, close_payload(c.reason)).take(k)) is None,
{
    lemma_pdu_truncated(c.header, close_payload(c.reason), k);
}

/// A written Open PDU cut off before its last byte, the description's
/// padding included, does not decode.
pub proof fn lemma_open_truncated(v: OpenView, k: int)
    requires
        open_fit(v),
        0 <= k < 20 + open_payload(v).len(),
    ensures
        open_parse(framed(v.header, open_payload(v)).take(k)) is None,
{
    lemma_pdu_truncated(v.header, open_payload(v), k);
}

} // verus!
