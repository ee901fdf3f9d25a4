use std::collections::hash_map::DefaultHasher;
use std::hash::{Hash, Hasher};
use std::str::FromStr;

use agentx::encodings::{Context, OctetString, SearchRange, SearchRangeList, Value, VarBind, VarBindList, ID};
use agentx::pdu::{
    AddAgentCaps, CleanupSet, Close, CloseReason, CommitSet, Get, GetBulk, GetNext, Header, IndexAllocate,
    IndexDeallocate, Notify, Open, Ping, Register, RemoveAgentCaps, ResError, Response, TestSet, Type,
    UndoSet, Unregister, NETWORK_BYTE_ORDER, NON_DEFAULT_CONTEXT,
};
use agentx::time::Duration;
use agentx::{ByteOrder, Error};

fn id(s: &str) -> ID {
    ID::from_str(s).unwrap()
}

fn ranges() -> SearchRangeList {
    SearchRangeList(vec![
        SearchRange::new(id("1.3.6.1.2"), id("1.3.6.1.3")),
        SearchRange::new(id("1.3.6.1.4.1"), id("")),
    ])
}

fn binds() -> VarBindList {
    VarBindList(vec![
        VarBind::new(id("1.2.3"), Value::Integer(-7)),
        VarBind::new(id("1.2.4"), Value::OctetString(OctetString("hello".to_string()))),
        VarBind::new(id("1.2.5"), Value::Counter64(u64::MAX)),
        VarBind::new(id("1.2.6"), Value::EndOfMibView),
    ])
}

fn hash_of(x: &ID) -> u64 {
    let mut h = DefaultHasher::new();
    x.hash(&mut h);
    h.finish()
}

#[test]
fn id_wire_form_little_endian() {
    let bytes = id("1.2.3").to_bytes(&ByteOrder::LittleEndian);
    assert_eq!(bytes, vec![3, 0, 0, 0, 1, 0, 0, 0, 2, 0, 0, 0, 3, 0, 0, 0]);
}

#[test]
fn id_wire_form_big_endian() {
    let bytes = id("1.2.258").to_bytes(&ByteOrder::BigEndian);
    assert_eq!(bytes, vec![3, 0, 0, 0, 0, 0, 0, 1, 0, 0, 0, 2, 0, 0, 1, 2]);
}

#[test]
fn octet_string_wire_form_little_endian() {
    let bytes = OctetString("rck".to_string()).to_bytes(&ByteOrder::LittleEndian).unwrap();
    assert_eq!(bytes, vec![3, 0, 0, 0, 0x72, 0x63, 0x6B, 0x00]);
}

#[test]
fn octet_string_padding_law() {
    for len in 0..13usize {
        let text = "x".repeat(len);
        let bytes = OctetString(text).to_bytes(&ByteOrder::BigEndian).unwrap();
        assert_eq!(bytes.len(), 4 + (len + 3) / 4 * 4);
        assert!(bytes[4 + len..].iter().all(|b| *b == 0));
    }
}

#[test]
fn octet_string_multibyte_text() {
    let expected = OctetString("grüße".to_string());
    let bytes = expected.to_bytes(&ByteOrder::LittleEndian).unwrap();
    assert_eq!(bytes[0], 7);
    assert_eq!(bytes.len(), 12);
    assert_eq!(OctetString::from_bytes(&bytes, &ByteOrder::LittleEndian).unwrap(), expected);
}

#[test]
fn octet_string_invalid_utf8_is_an_error() {
    let bytes = [2, 0, 0, 0, 0xff, 0xfe, 0, 0];
    assert_eq!(OctetString::from_bytes(&bytes, &ByteOrder::LittleEndian), Err(Error::InvalidData));
}

#[test]
fn octet_string_cut_short_is_an_error() {
    let bytes = [5, 0, 0, 0, b'a', b'b'];
    assert_eq!(OctetString::from_bytes(&bytes, &ByteOrder::LittleEndian), Err(Error::InvalidData));
    assert_eq!(OctetString::from_bytes(&[1, 0], &ByteOrder::LittleEndian), Err(Error::InvalidData));
}

#[test]
fn open_scenario_is_48_bytes() {
    let mut open = Open::new(id("1.2.3"), "rck");
    open.header.session_id = 1;
    open.header.transaction_id = 2;
    open.header.packet_id = 3;
    let bytes = open.to_bytes().unwrap();
    assert_eq!(bytes.len(), 48);
    assert_eq!(&bytes[..20], &[1, 1, 0, 0, 1, 0, 0, 0, 2, 0, 0, 0, 3, 0, 0, 0, 28, 0, 0, 0]);
    assert_eq!(open.header.payload_length, 28);
}

#[test]
fn response_without_bindings_has_none() {
    let bytes = vec![
        1, 18, 0, 0, 1, 0, 0, 0, 2, 0, 0, 0, 3, 0, 0, 0, 8, 0, 0, 0, /* header */
        0, 0, 0, 0, /* uptime */
        0, 0, /* error */
        0, 0, /* index */
    ];
    let got = Response::from_bytes(&bytes).unwrap();
    assert_eq!(got.vb, None);
    assert_eq!(got.header.payload_length, 8);
    assert_eq!(got.res_error, ResError::NoAgentXError);
}

#[test]
fn id_compact_prefix_is_expanded() {
    let compact = [1, 5, 0, 0, 7, 0, 0, 0];
    let explicit = [6, 0, 0, 0, 1, 0, 0, 0, 3, 0, 0, 0, 6, 0, 0, 0, 1, 0, 0, 0, 5, 0, 0, 0, 7, 0, 0, 0];
    let a = ID::from_bytes(&compact, &ByteOrder::LittleEndian).unwrap();
    let b = ID::from_bytes(&explicit, &ByteOrder::LittleEndian).unwrap();
    assert_eq!(a, b);
    assert_eq!(a.sub_ids(), &vec![1, 3, 6, 1, 5, 7]);
    assert_eq!(a.byte_size(), 8);
    assert_eq!(b.byte_size(), 28);
    assert_eq!(a.to_bytes(&ByteOrder::LittleEndian), explicit.to_vec());
}

#[test]
fn id_compact_prefix_too_long_is_an_error() {
    let mut bytes = vec![251, 5, 0, 0];
    bytes.extend(std::iter::repeat(0u8).take(251 * 4));
    assert_eq!(ID::from_bytes(&bytes, &ByteOrder::LittleEndian), Err(Error::InvalidData));
    bytes[0] = 250;
    assert_eq!(ID::from_bytes(&bytes, &ByteOrder::LittleEndian).unwrap().sub_ids().len(), 255);
}

#[test]
fn id_equality_ignores_flag() {
    let a = ID::from_bytes(&[2, 0, 1, 0, 4, 0, 0, 0, 5, 0, 0, 0], &ByteOrder::LittleEndian).unwrap();
    let b = id("4.5");
    assert_eq!(a.inclusive, 1);
    assert_eq!(b.inclusive, 0);
    assert_eq!(a, b);
    assert_eq!(hash_of(&a), hash_of(&b));
    assert_ne!(a, id("4.6"));
}

#[test]
fn id_order_is_lexicographic() {
    assert!(id("1.2") < id("1.2.0"));
    assert!(id("1.2.3") < id("1.3"));
    assert!(id("2") > id("1.9.9"));
    assert!(id("") < id("0"));
}

#[test]
fn id_text_forms() {
    assert_eq!(id("").sub_ids().len(), 0);
    assert!(id("").is_null());
    assert_eq!(id("+5.4294967295").sub_ids(), &vec![5, 4294967295]);
    assert_eq!(ID::from_str("1.a.3"), Err(Error::InvalidData));
    assert_eq!(ID::from_str("1..3"), Err(Error::InvalidData));
    assert_eq!(ID::from_str("1.2."), Err(Error::InvalidData));
    assert_eq!(ID::from_str("4294967296"), Err(Error::InvalidData));
    assert_eq!(ID::from_str("-1"), Err(Error::InvalidData));
    let long = vec!["1"; 256].join(".");
    assert_eq!(ID::from_str(&long), Err(Error::InvalidData));
    let longest = vec!["1"; 255].join(".");
    assert_eq!(ID::from_str(&longest).unwrap().sub_ids().len(), 255);
    assert_eq!(ID::try_from(vec![0u32; 256]), Err(Error::InvalidData));
}

#[test]
fn id_truncated_is_an_error() {
    for bo in [ByteOrder::LittleEndian, ByteOrder::BigEndian] {
        let bytes = id("1.3.6.1.4").to_bytes(&bo);
        for k in 0..bytes.len() {
            assert_eq!(ID::from_bytes(&bytes[..k], &bo), Err(Error::InvalidData));
        }
    }
}

#[test]
fn searchrange_truncated_is_an_error() {
    let bytes = SearchRange::new(id("1.2"), id("1.3.4")).to_bytes(&ByteOrder::BigEndian);
    for k in 0..bytes.len() {
        assert_eq!(SearchRange::from_bytes(&bytes[..k], &ByteOrder::BigEndian), Err(Error::InvalidData));
    }
}

#[test]
fn varbind_truncated_is_an_error() {
    let bytes = VarBind::new(id("1.2"), Value::Gauge32(9)).to_bytes(&ByteOrder::LittleEndian).unwrap();
    for k in 0..bytes.len() {
        assert_eq!(VarBind::from_bytes(&bytes[..k], &ByteOrder::LittleEndian), Err(Error::InvalidData));
    }
}

#[test]
fn header_truncated_is_an_error() {
    let bytes = Header::new(Type::Ping).to_bytes();
    for k in 0..bytes.len() {
        assert_eq!(Header::from_bytes(&bytes[..k]), Err(Error::InvalidData));
    }
}

#[test]
fn open_truncated_is_an_error() {
    let mut open = Open::new(id("1.2.3"), "rck");
    let bytes = open.to_bytes().unwrap();
    // padding included: every cut before the last byte fails
    for k in 0..bytes.len() {
        assert_eq!(Open::from_bytes(&bytes[..k]), Err(Error::InvalidData));
    }
    assert_eq!(Open::from_bytes(&bytes).unwrap(), open);
}

#[test]
fn close_truncated_is_an_error() {
    let mut close = Close::new(CloseReason::Shutdown);
    let bytes = close.to_bytes().unwrap();
    assert_eq!(bytes.len(), 24);
    for k in 0..bytes.len() {
        assert_eq!(Close::from_bytes(&bytes[..k]), Err(Error::InvalidData));
    }
    assert_eq!(Close::from_bytes(&bytes).unwrap(), close);
}

#[test]
fn request_cut_at_element_boundary_is_an_error() {
    for bo in [0u8, 1 << NETWORK_BYTE_ORDER] {
        let mut get = Get::new(ranges());
        get.header.flags = bo;
        let bytes = get.to_bytes().unwrap();
        let first = ranges().0[0].to_bytes(&get.header.byte_order()).len();
        assert_eq!(Get::from_bytes(&bytes[..20]), Err(Error::InvalidData));
        assert_eq!(Get::from_bytes(&bytes[..20 + first]), Err(Error::InvalidData));
        for k in 0..bytes.len() {
            assert_eq!(Get::from_bytes(&bytes[..k]), Err(Error::InvalidData));
        }

        let mut set = TestSet::new(binds());
        set.header.flags = bo;
        let bytes = set.to_bytes().unwrap();
        for k in 0..bytes.len() {
            assert_eq!(TestSet::from_bytes(&bytes[..k]), Err(Error::InvalidData));
        }

        let mut response = Response::new();
        response.header.flags = bo;
        response.vb = Some(binds());
        let bytes = response.to_bytes().unwrap();
        for k in 0..bytes.len() {
            assert_eq!(Response::from_bytes(&bytes[..k]), Err(Error::InvalidData));
        }

        let mut commit = CommitSet::new();
        let mut bytes = commit.to_bytes().unwrap();
        bytes[16 + if bo == 0 { 0 } else { 3 }] = 4;
        assert_eq!(CommitSet::from_bytes(&bytes), Err(Error::InvalidData));
    }
}

#[test]
fn bytes_after_the_payload_are_not_read() {
    let mut get = Get::new(ranges());
    let mut bytes = get.to_bytes().unwrap();
    bytes.extend_from_slice(&[1, 2, 3]);
    assert_eq!(Get::from_bytes(&bytes).unwrap(), get);

    let mut response = Response::new();
    let mut bytes = response.to_bytes().unwrap();
    bytes.extend_from_slice(&[9, 9, 9, 9]);
    let got = Response::from_bytes(&bytes).unwrap();
    assert_eq!(got.vb, None);
    assert_eq!(got, response);
}

#[test]
fn list_framing() {
    for bo in [ByteOrder::LittleEndian, ByteOrder::BigEndian] {
        let list = ranges();
        let bytes = list.to_bytes(&bo);
        let got = SearchRangeList::from_bytes(&bytes, &bo).unwrap();
        assert_eq!(got.len(), 2);
        assert_eq!(got, list);

        let one = SearchRange::new(id("9.9"), id("9.10")).to_bytes(&bo);
        for k in 1..one.len() {
            let mut dangling = bytes.clone();
            dangling.extend_from_slice(&one[..k]);
            assert_eq!(SearchRangeList::from_bytes(&dangling, &bo), Err(Error::InvalidData));
        }

        let list = binds();
        let bytes = list.to_bytes(&bo).unwrap();
        let got = VarBindList::from_bytes(&bytes, &bo).unwrap();
        assert_eq!(got.len(), 4);
        assert_eq!(got, list);
        let one = VarBind::new(id("9.9"), Value::TimeTicks(1)).to_bytes(&bo).unwrap();
        for k in 1..one.len() {
            let mut dangling = bytes.clone();
            dangling.extend_from_slice(&one[..k]);
            assert_eq!(VarBindList::from_bytes(&dangling, &bo), Err(Error::InvalidData));
        }
    }
    let list = binds();
    let bytes = list.to_bytes(&ByteOrder::LittleEndian).unwrap();
    let padded = VarBind::new(id("9"), Value::OctetString(OctetString("abc".to_string())))
        .to_bytes(&ByteOrder::LittleEndian)
        .unwrap();
    let mut dangling = bytes.clone();
    dangling.extend_from_slice(&padded[..padded.len() - 1]);
    assert_eq!(VarBindList::from_bytes(&dangling, &ByteOrder::LittleEndian), Err(Error::InvalidData));
    assert!(SearchRangeList::from_bytes(&[], &ByteOrder::LittleEndian).unwrap().is_empty());
    assert!(VarBindList::from_bytes(&[], &ByteOrder::LittleEndian).unwrap().is_empty());
}

#[test]
fn unknown_codes_are_errors() {
    assert_eq!(Type::from_byte(0), Err(Error::InvalidData));
    assert_eq!(Type::from_byte(19), Err(Error::InvalidData));
    assert_eq!(Type::from_byte(18), Ok(Type::Response));
    assert_eq!(Type::Response.to_byte(), 18);
    assert_eq!(CloseReason::from_byte(0), Err(Error::InvalidData));
    assert_eq!(CloseReason::from_byte(7), Err(Error::InvalidData));
    assert_eq!(CloseReason::from_byte(6), Ok(CloseReason::ByManager));
    assert_eq!(ResError::from_bytes(&[1, 0], &ByteOrder::LittleEndian), Err(Error::InvalidData));
    assert_eq!(ResError::from_bytes(&[13, 1], &ByteOrder::LittleEndian), Err(Error::InvalidData));
    assert_eq!(ResError::from_bytes(&[12, 1], &ByteOrder::LittleEndian), Ok(ResError::ProcessingError));
    assert_eq!(ResError::from_bytes(&[1, 0], &ByteOrder::BigEndian), Ok(ResError::OpenFailed));
    assert_eq!(ResError::OpenFailed.to_bytes(&ByteOrder::BigEndian), [1, 0]);
    assert_eq!(ResError::from_bytes(&[0], &ByteOrder::BigEndian), Err(Error::InvalidData));

    let mut header = Header::new(Type::Ping).to_bytes();
    header[1] = 0;
    assert_eq!(Header::from_bytes(&header), Err(Error::InvalidData));

    let mut vb = VarBind::new(id("1"), Value::Null).to_bytes(&ByteOrder::LittleEndian).unwrap();
    vb[0] = 3;
    assert_eq!(VarBind::from_bytes(&vb, &ByteOrder::LittleEndian), Err(Error::InvalidData));

    let mut close = Close::new(CloseReason::Shutdown).to_bytes().unwrap();
    close[20] = 9;
    assert_eq!(Close::from_bytes(&close), Err(Error::InvalidData));
}

#[test]
fn value_tags_and_payloads() {
    let le = ByteOrder::LittleEndian;
    let cases: Vec<(Value, u16, usize)> = vec![
        (Value::Integer(-1), 2, 4),
        (Value::OctetString(OctetString("ab".to_string())), 4, 8),
        (Value::Null, 5, 0),
        (Value::ObjectIdentifier(id("1.2")), 6, 12),
        (Value::IpAddress(OctetString("1234".to_string())), 64, 8),
        (Value::Counter32(1), 65, 4),
        (Value::Gauge32(1), 66, 4),
        (Value::TimeTicks(1), 67, 4),
        (Value::Opaque(OctetString("".to_string())), 68, 4),
        (Value::Counter64(1), 70, 8),
        (Value::NoSuchObject, 128, 0),
        (Value::NoSuchInstance, 129, 0),
        (Value::EndOfMibView, 130, 0),
    ];
    for (v, tag, payload) in cases {
        assert_eq!(v.tag(), tag);
        assert_eq!(v.payload_bytes(&le).unwrap().len(), payload);
        assert_eq!(v.byte_size(), Some(4 + payload));
        let bytes = VarBind::new(id("1"), v.clone()).to_bytes(&le).unwrap();
        assert_eq!(&bytes[..4], &[tag as u8, (tag >> 8) as u8, 0, 0]);
    }
    assert_eq!(Value::Integer(-2).payload_bytes(&ByteOrder::BigEndian).unwrap(), vec![0xff, 0xff, 0xff, 0xfe]);
    assert_eq!(Value::Counter64(0x0102030405060708).payload_bytes(&le).unwrap(), vec![8, 7, 6, 5, 4, 3, 2, 1]);
}

#[test]
fn get_family_round_trip() {
    for flags in [0u8, 1 << NETWORK_BYTE_ORDER, 1 << NON_DEFAULT_CONTEXT, (1 << NETWORK_BYTE_ORDER) | (1 << NON_DEFAULT_CONTEXT)] {
        let context = if flags & (1 << NON_DEFAULT_CONTEXT) != 0 {
            Some(Context(OctetString("ctx".to_string())))
        } else {
            None
        };
        let mut get = Get::new(ranges());
        get.header.flags = flags;
        get.context = context.clone();
        let bytes = get.to_bytes().unwrap();
        assert_eq!(bytes.len(), 20 + get.header.payload_length as usize);
        assert_eq!(Get::from_bytes(&bytes).unwrap(), get);

        let mut next = GetNext::new(ranges());
        next.header.flags = flags;
        next.context = context.clone();
        let bytes = next.to_bytes().unwrap();
        assert_eq!(GetNext::from_bytes(&bytes).unwrap(), next);

        let mut bulk = GetBulk::new(ranges());
        bulk.header.flags = flags;
        bulk.context = context.clone();
        bulk.non_repeaters = 1;
        bulk.max_repetitions = 300;
        let bytes = bulk.to_bytes().unwrap();
        assert_eq!(GetBulk::from_bytes(&bytes).unwrap(), bulk);
    }
}

#[test]
fn set_family_round_trip() {
    for flags in [0u8, 1 << NETWORK_BYTE_ORDER, 1 << NON_DEFAULT_CONTEXT] {
        let context = if flags & (1 << NON_DEFAULT_CONTEXT) != 0 {
            Some(Context(OctetString("c".to_string())))
        } else {
            None
        };
        let mut p = TestSet::new(binds());
        p.header.flags = flags;
        p.context = context.clone();
        let bytes = p.to_bytes().unwrap();
        assert_eq!(TestSet::from_bytes(&bytes).unwrap(), p);

        let mut p = Notify::new(binds());
        p.header.flags = flags;
        p.context = context.clone();
        let bytes = p.to_bytes().unwrap();
        assert_eq!(Notify::from_bytes(&bytes).unwrap(), p);

        let mut p = IndexAllocate::new(binds());
        p.header.flags = flags;
        p.context = context.clone();
        let bytes = p.to_bytes().unwrap();
        assert_eq!(IndexAllocate::from_bytes(&bytes).unwrap(), p);

        let mut p = IndexDeallocate::new(binds());
        p.header.flags = flags;
        p.context = context.clone();
        let bytes = p.to_bytes().unwrap();
        assert_eq!(IndexDeallocate::from_bytes(&bytes).unwrap(), p);
    }
}

#[test]
fn administrative_round_trip() {
    let mut c = CommitSet::new();
    c.header.payload_length = 99;
    c.header.flags = 1 << NETWORK_BYTE_ORDER;
    let bytes = c.to_bytes().unwrap();
    assert_eq!(bytes.len(), 20);
    assert_eq!(c.header.payload_length, 0);
    assert_eq!(CommitSet::from_bytes(&bytes).unwrap(), c);

    let mut u = UndoSet::new();
    let bytes = u.to_bytes().unwrap();
    assert_eq!(bytes[1], 10);
    assert_eq!(UndoSet::from_bytes(&bytes).unwrap(), u);

    let mut k = CleanupSet::new();
    let bytes = k.to_bytes().unwrap();
    assert_eq!(bytes[1], 11);
    assert_eq!(CleanupSet::from_bytes(&bytes).unwrap(), k);
}

#[test]
fn session_pdus_round_trip() {
    for flags in [0u8, 1 << NETWORK_BYTE_ORDER] {
        let mut ping = Ping::new();
        ping.header.flags = flags | (1 << NON_DEFAULT_CONTEXT);
        ping.context = Some(Context(OctetString("public".to_string())));
        let bytes = ping.to_bytes().unwrap();
        assert_eq!(ping.header.payload_length, 12);
        assert_eq!(Ping::from_bytes(&bytes).unwrap(), ping);

        let mut add = AddAgentCaps::new(id("1.3.6.1.4.1.99"), "caps");
        add.header.flags = flags;
        let bytes = add.to_bytes().unwrap();
        assert_eq!(AddAgentCaps::from_bytes(&bytes).unwrap(), add);

        let mut remove = RemoveAgentCaps::new(id("1.3.6.1.4.1.99"));
        remove.header.flags = flags;
        let bytes = remove.to_bytes().unwrap();
        assert_eq!(RemoveAgentCaps::from_bytes(&bytes).unwrap(), remove);

        let mut open = Open::new(id("1.3.6.1.4.1.99"), "agent");
        open.header.flags = flags | (1 << NON_DEFAULT_CONTEXT);
        open.context = Some(Context(OctetString("c".to_string())));
        open.timeout = Duration::from_secs(255);
        let bytes = open.to_bytes().unwrap();
        assert_eq!(Open::from_bytes(&bytes).unwrap(), open);

        let mut unregister = Unregister::new(id("1.3.6.1.2.1"), 9);
        unregister.header.flags = flags;
        unregister.range_subid = 4;
        unregister.upper_bound = Some(77);
        let bytes = unregister.to_bytes().unwrap();
        assert_eq!(Unregister::from_bytes(&bytes).unwrap(), unregister);

        let mut close = Close::new(CloseReason::Timeouts);
        close.header.flags = flags;
        let bytes = close.to_bytes().unwrap();
        assert_eq!(bytes.len(), 24);
        assert_eq!(close.header.payload_length, 4);
        assert_eq!(Close::from_bytes(&bytes).unwrap(), close);
    }
}

#[test]
fn register_fields_on_the_wire() {
    let mut r = Register::new(id("1.2"));
    r.timeout = Duration::from_secs(7);
    r.priority = 127;
    r.range_subid = 2;
    r.upper_bound = Some(0x01020304);
    r.header.flags = 1 << NETWORK_BYTE_ORDER;
    let bytes = r.to_bytes().unwrap();
    assert_eq!(&bytes[20..24], &[7, 127, 2, 0]);
    assert_eq!(&bytes[bytes.len() - 4..], &[1, 2, 3, 4]);
    assert_eq!(&bytes[16..20], &[0, 0, 0, 20]);
    assert_eq!(Register::from_bytes(&bytes).unwrap(), r);

    // an upper bound announced but missing from the payload
    let mut plain = Register::new(id("1.2"));
    let mut bytes = plain.to_bytes().unwrap();
    bytes[22] = 2;
    assert_eq!(Register::from_bytes(&bytes), Err(Error::InvalidData));
}

#[test]
fn timeout_over_255_seconds_is_an_error() {
    let mut open = Open::new(id("1.2"), "x");
    open.timeout = Duration::from_secs(256);
    let before = open.clone();
    assert_eq!(open.to_bytes(), Err(Error::InvalidData));
    assert_eq!(open, before);

    let mut register = Register::new(id("1.2"));
    register.timeout = Duration::from_secs(1000);
    assert_eq!(register.to_bytes(), Err(Error::InvalidData));
}

#[test]
fn response_round_trip() {
    for flags in [0u8, 1 << NETWORK_BYTE_ORDER] {
        let mut request = Get::new(ranges());
        request.header.session_id = 5;
        request.header.transaction_id = 6;
        request.header.packet_id = 7;
        let mut response = Response::from_header(&request.header);
        assert_eq!(response.header.ty, Type::Response);
        assert_eq!(response.header.session_id, 5);
        assert_eq!(response.header.packet_id, 7);
        response.header.flags = flags;
        response.sys_uptime = Duration::from_millis(12340);
        response.res_error = ResError::ParseError;
        response.res_index = 3;
        response.vb = Some(binds());
        let bytes = response.to_bytes().unwrap();
        let centis = if flags == 0 { [0xd2, 0x04, 0, 0] } else { [0, 0, 0x04, 0xd2] };
        assert_eq!(&bytes[20..24], &centis);
        assert_eq!(Response::from_bytes(&bytes).unwrap(), response);

        response.vb = None;
        let bytes = response.to_bytes().unwrap();
        assert_eq!(response.header.payload_length, 8);
        assert_eq!(Response::from_bytes(&bytes).unwrap(), response);
    }
}

#[test]
fn response_uptime_too_large_is_an_error() {
    let mut response = Response::new();
    response.sys_uptime = Duration::from_secs(43_000_000);
    assert_eq!(response.to_bytes(), Err(Error::InvalidData));
    response.sys_uptime = Duration::from_secs(42_000_000);
    assert!(response.to_bytes().is_ok());
}

#[test]
fn response_uptime_wraps_at_32_bits() {
    let mut bytes = Response::new().to_bytes().unwrap();
    bytes[20..24].copy_from_slice(&[0xff, 0xff, 0xff, 0xff]);
    let got = Response::from_bytes(&bytes).unwrap();
    assert_eq!(got.sys_uptime.as_millis(), 42_949_672_950);
}

#[test]
fn durations() {
    let d = Duration::from_millis(61_234);
    assert_eq!(d.as_secs(), 61);
    assert_eq!(d.subsec_nanos(), 234_000_000);
    assert_eq!(d.as_millis(), 61_234);
    assert_eq!(Duration::from_secs(3).as_millis(), 3000);
}

#[test]
fn header_fields_on_the_wire() {
    let mut h = Header::new(Type::GetBulk);
    h.flags = 1 << NETWORK_BYTE_ORDER;
    h.session_id = 0x01020304;
    h.payload_length = 8;
    let bytes = h.to_bytes();
    assert_eq!(bytes, vec![1, 7, 16, 0, 1, 2, 3, 4, 0, 0, 0, 0, 0, 0, 0, 0, 0, 0, 0, 8]);
    assert_eq!(Header::from_bytes(&bytes).unwrap(), h);
    assert_eq!(h.byte_size(), 20);
    assert_eq!(h.byte_order(), ByteOrder::BigEndian);
}

#[test]
fn context_flag_without_context_bytes_is_an_error() {
    let mut get = Get::new(SearchRangeList(vec![]));
    let mut bytes = get.to_bytes().unwrap();
    bytes[2] = 1 << NON_DEFAULT_CONTEXT;
    assert_eq!(Get::from_bytes(&bytes), Err(Error::InvalidData));
    bytes.extend_from_slice(&[0, 0, 0, 0]);
    assert_eq!(Get::from_bytes(&bytes), Err(Error::InvalidData));
    bytes[16] = 4;
    let got = Get::from_bytes(&bytes).unwrap();
    assert_eq!(got.context, Some(Context(OctetString("".to_string()))));
    assert!(got.sr.is_empty());
}

#[test]
fn id_text_round_trip() {
    assert_eq!(id("1.3.6.1.4294967295").to_dotted(), "1.3.6.1.4294967295");
    assert_eq!(id("+07.0").to_dotted(), "7.0");
    assert_eq!(id("").to_dotted(), "");
    let compact = ID::from_bytes(&[1, 2, 0, 0, 9, 0, 0, 0], &ByteOrder::LittleEndian).unwrap();
    assert_eq!(compact.to_dotted(), "1.3.6.1.2.9");
    assert_eq!(ID::from_str(&compact.to_dotted()).unwrap(), compact);
}

#[test]
fn lists_iterate_by_reference() {
    let list = binds();
    let names: Vec<String> = (&list).into_iter().map(|vb| vb.name.to_dotted()).collect();
    assert_eq!(names, vec!["1.2.3", "1.2.4", "1.2.5", "1.2.6"]);
    let mut count = 0;
    for r in &ranges() {
        assert!(r.start < r.end || r.end.is_null());
        count += 1;
    }
    assert_eq!(count, 2);
}
