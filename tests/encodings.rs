use std::str::FromStr;

use agentx::encodings::{Context, OctetString, SearchRange, SearchRangeList, Value, VarBind, VarBindList, ID};
use agentx::ByteOrder;

#[test]
fn context_to_bytes_len() {
    let os = OctetString("rck".to_string());
    let expected_os_len = 4 + 3 + 1;
    let c = Context(os);

    // a context has the same wire form as an octet string
    assert_eq!(c.to_bytes(&ByteOrder::LittleEndian).unwrap().len(), expected_os_len);
}

#[test]
fn context_serde() {
    for bo in vec![ByteOrder::LittleEndian, ByteOrder::BigEndian] {
        let expected = Context(OctetString("rckx".to_string()));
        let bytes = expected.to_bytes(&bo).unwrap();
        let got = Context::from_bytes(bytes.as_slice(), &bo).unwrap();

        assert_eq!(got, expected);
    }
}

#[test]
fn id_new() {
    let id = ID::from_str("1.2.3.4").unwrap();
    let expected = ID::try_from(vec![1, 2, 3, 4]).unwrap();
    assert_eq!(id, expected);
    assert_eq!(id.sub_ids(), &vec![1, 2, 3, 4]);
    assert_eq!(id.inclusive, 0);
    assert_eq!(id.byte_size(), 4 + 4 * 4);
}

#[test]
fn id_to_bytes_len_manual() {
    let id = ID::from_str("1.2.3").unwrap();
    assert_eq!(id.to_bytes(&ByteOrder::LittleEndian).len(), 4 + 3 * 4);
}

#[test]
fn null_id() {
    let id = ID::from_str("").unwrap();
    assert_eq!(id.to_bytes(&ByteOrder::LittleEndian).len(), 4);
}

#[test]
fn id_to_bytes_len() {
    let id = ID::from_str("1.2.3").unwrap();
    assert_eq!(id.to_bytes(&ByteOrder::LittleEndian).len(), id.byte_size());
}

#[test]
fn id_serde() {
    for bo in vec![ByteOrder::LittleEndian, ByteOrder::BigEndian] {
        let expected = ID::from_str("1.2.3.4").unwrap();
        let v = expected.to_bytes(&bo);
        let got = ID::from_bytes(v.as_slice(), &bo).unwrap();
        assert_eq!(expected, got)
    }
}

#[test]
fn id_tryfrom() {
    let expected = ID::from_str("1.2.3").unwrap();
    let got = ID::try_from(vec![1, 2, 3]).unwrap();

    assert_eq!(got, expected);
}

#[test]
fn octet_to_bytes_len_manual() {
    let os = OctetString("rck".to_string());
    assert_eq!(os.to_bytes(&ByteOrder::LittleEndian).unwrap().len(), 4 + 3 /* chars */ + 1 /* padding */);

    let os = OctetString("rckx".to_string());
    assert_eq!(os.to_bytes(&ByteOrder::LittleEndian).unwrap().len(), 4 + 4 /* chars, no padding */);

    let os = OctetString("".to_string());
    assert_eq!(os.to_bytes(&ByteOrder::LittleEndian).unwrap().len(), 4 /* length only */);
}

#[test]
fn octet_to_bytes_len() {
    let os = OctetString("rck".to_string());
    assert_eq!(os.to_bytes(&ByteOrder::LittleEndian).unwrap().len(), os.byte_size());

    let os = OctetString("rckx".to_string());
    assert_eq!(os.to_bytes(&ByteOrder::LittleEndian).unwrap().len(), os.byte_size());

    let os = OctetString("".to_string());
    assert_eq!(os.to_bytes(&ByteOrder::LittleEndian).unwrap().len(), os.byte_size());
}

#[test]
fn octet_serde() {
    for bo in vec![ByteOrder::LittleEndian, ByteOrder::BigEndian] {
        // aligned
        let expected = OctetString("rckx".to_string());
        let bytes = expected.to_bytes(&bo).unwrap();
        let got = OctetString::from_bytes(bytes.as_slice(), &bo).unwrap();
        assert_eq!(expected, got);

        // not aligned
        let expected = OctetString("rckxy".to_string());
        let bytes = expected.to_bytes(&bo).unwrap();
        let got = OctetString::from_bytes(bytes.as_slice(), &bo).unwrap();
        assert_eq!(expected, got);

        // zero
        let expected = OctetString("".to_string());
        let bytes = expected.to_bytes(&bo).unwrap();
        let got = OctetString::from_bytes(bytes.as_slice(), &bo).unwrap();
        assert_eq!(expected, got);
    }
}

#[test]
fn searchrange_to_bytes_len() {
    let start = ID::from_str("1.2.3.4").unwrap();
    let end = ID::from_str("1.2.3.8").unwrap();
    let expected = start.to_bytes(&ByteOrder::LittleEndian).len() + end.to_bytes(&ByteOrder::LittleEndian).len();

    assert_eq!(SearchRange::new(start, end).to_bytes(&ByteOrder::LittleEndian).len(), expected);
}

#[test]
fn searchrange_serde() {
    for bo in vec![ByteOrder::LittleEndian, ByteOrder::BigEndian] {
        let start = ID::from_str("1.2.3.4").unwrap();
        let end = ID::from_str("1.2.3.8").unwrap();
        let expected = SearchRange::new(start, end);
        let bytes = expected.to_bytes(&bo);
        let got = SearchRange::from_bytes(bytes.as_slice(), &bo).unwrap();
        assert_eq!(expected, got);
    }
}

#[test]
fn searchrangelist_serde() {
    for bo in vec![ByteOrder::LittleEndian, ByteOrder::BigEndian] {
        let mut ranges = Vec::new();

        let start = ID::from_str("1.2.3.4").unwrap();
        let end = ID::from_str("1.2.3.8").unwrap();
        let sr = SearchRange { start, end };
        ranges.push(sr);

        let start = ID::from_str("1.2.7.4").unwrap();
        let end = ID::from_str("1.2.7.8").unwrap();
        let sr = SearchRange { start, end };
        ranges.push(sr);

        let expected = SearchRangeList(ranges);

        let bytes = expected.to_bytes(&bo);

        let got = SearchRangeList::from_bytes(bytes.as_slice(), &bo).unwrap();

        assert_eq!(expected, got);
    }
}

fn collect_ranges(srl: &SearchRangeList) -> Vec<SearchRange> {
    let mut srs = Vec::new();
    for i in srl.clone().into_iter() {
        srs.push(i);
    }
    srs
}

#[test]
fn searchrangelist_intoiter() {
    let expected = vec![
        SearchRange::new(ID::from_str("1.2.3").unwrap(), ID::from_str("1.2.4").unwrap()),
        SearchRange::new(ID::from_str("1.4.3").unwrap(), ID::from_str("1.4.4").unwrap()),
    ];

    let vbl = SearchRangeList(expected.clone());
    let got = collect_ranges(&vbl);

    assert_eq!(expected, got);
}

#[test]
fn varbindlist_serde() {
    for bo in vec![ByteOrder::LittleEndian, ByteOrder::BigEndian] {
        let mut varbinds = Vec::new();

        let id1 = ID::from_str("1.2.3").unwrap();
        let id2 = ID::from_str("1.2.3").unwrap();
        let id3 = ID::from_str("1.2.3").unwrap();
        varbinds.push(VarBind::new(id1, Value::Integer(42)));
        varbinds.push(VarBind::new(id2, Value::OctetString(OctetString("x".to_string()))));
        varbinds.push(VarBind::new(id3, Value::ObjectIdentifier(ID::from_str("1.2.3.4").unwrap())));

        let expected = VarBindList(varbinds);
        let bytes = expected.to_bytes(&bo).unwrap();
        let got = VarBindList::from_bytes(bytes.as_slice(), &bo).unwrap();

        assert_eq!(expected, got);
    }
}

#[test]
fn varbind_integer_to_bytes_len_manual() {
    let id = ID::from_str("1.2.3").unwrap();
    let vb = VarBind::new(id, Value::Integer(42));
    assert_eq!(
        vb.to_bytes(&ByteOrder::LittleEndian).unwrap().len(),
        4 /* type + reserved */ + ID::from_str("1.2.3").unwrap().to_bytes(&ByteOrder::LittleEndian).len() + 4 /* data */
    );
}

fn check_serde(data: Value) {
    for bo in vec![ByteOrder::LittleEndian, ByteOrder::BigEndian] {
        let id = ID::from_str("1.2.3").unwrap();
        let expected = VarBind::new(id, data.clone());
        let bytes = expected.to_bytes(&bo).unwrap();
        let got = VarBind::from_bytes(bytes.as_slice(), &bo).unwrap();
        assert_eq!(expected, got);
    }
}

fn check_len(data: Value) {
    for bo in vec![ByteOrder::LittleEndian, ByteOrder::BigEndian] {
        let id = ID::from_str("1.2.3").unwrap();
        let vb = VarBind::new(id, data.clone());
        assert_eq!(Some(vb.to_bytes(&bo).unwrap().len()), vb.byte_size());
    }
}

#[test]
fn varbind_integer_to_bytes_len() {
    check_len(Value::Integer(42));
}

#[test]
fn varbind_serde_integer() {
    check_serde(Value::Integer(42));
}

#[test]
fn varbind_serde_octetstring() {
    check_serde(Value::OctetString(OctetString("rck".to_string())));
}

#[test]
fn varbind_octetstring_to_bytes_len() {
    check_len(Value::OctetString(OctetString("rck".to_string())));
}

#[test]
fn varbind_serde_null() {
    check_serde(Value::Null);
}

#[test]
fn varbind_null_to_bytes_len() {
    check_len(Value::Null);
}

#[test]
fn varbind_serde_objectidentifier() {
    check_serde(Value::ObjectIdentifier(ID::from_str("1.2.3.4").unwrap()));
}

#[test]
fn varbind_objectidentifier_to_bytes_len() {
    check_len(Value::ObjectIdentifier(ID::from_str("1.2.3.4").unwrap()));
}

#[test]
fn varbind_serde_ipaddress() {
    check_serde(Value::IpAddress(OctetString("1234".to_string())));
}

#[test]
fn varbind_ipaddress_to_bytes_len() {
    check_len(Value::IpAddress(OctetString("1234".to_string())));
}

#[test]
fn varbind_serde_counter32() {
    check_serde(Value::Counter32(23));
}

#[test]
fn varbind_counter32_to_bytes_len() {
    check_len(Value::Counter32(23));
}

#[test]
fn varbind_serde_gauge32() {
    check_serde(Value::Gauge32(2342));
}

#[test]
fn varbind_guage32_to_bytes_len() {
    check_len(Value::Gauge32(2342));
}

#[test]
fn varbind_serde_timeticks() {
    check_serde(Value::TimeTicks(2342));
}

#[test]
fn varbind_timeticks_to_bytes_len() {
    check_len(Value::TimeTicks(2342));
}

#[test]
fn varbind_serde_counter64() {
    check_serde(Value::Counter64(1));
}

#[test]
fn varbind_counter64_to_bytes_len() {
    check_len(Value::Counter64(1));
}

#[test]
fn varbind_serde_nosuchobject() {
    check_serde(Value::NoSuchObject);
}

#[test]
fn varbind_nosuchobject_to_bytes_len() {
    check_len(Value::NoSuchObject);
}

#[test]
fn varbind_serde_nosuchinstance() {
    check_serde(Value::NoSuchInstance);
}

#[test]
fn varbind_nosuchinstance_to_bytes_len() {
    check_len(Value::NoSuchInstance);
}

#[test]
fn varbind_serde_endofmibview() {
    check_serde(Value::EndOfMibView);
}

#[test]
fn varbind_endofmibview_to_bytes_len() {
    check_len(Value::EndOfMibView);
}

fn collect_binds(vbl: &VarBindList) -> Vec<VarBind> {
    let mut vbs = Vec::new();
    for i in vbl.clone().into_iter() {
        vbs.push(i);
    }
    vbs
}

#[test]
fn varbindlist_intoiter() {
    let expected = vec![
        VarBind::new(ID::from_str("1.2.3").unwrap(), Value::Integer(23)),
        VarBind::new(ID::from_str("1.2.4").unwrap(), Value::Integer(24)),
    ];

    let vbl = VarBindList(expected.clone());
    let got = collect_binds(&vbl);

    assert_eq!(expected, got);
}
