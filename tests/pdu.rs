use std::str::FromStr;

use agentx::encodings::{Context, OctetString, ID};
use agentx::pdu::{
    Close, CloseReason, Header, Open, Register, Type, Unregister, NETWORK_BYTE_ORDER, NON_DEFAULT_CONTEXT,
};

#[test]
fn header_to_bytes_len() {
    let header = Header::new(Type::Response);
    assert_eq!(header.to_bytes().len(), 20);
}

#[test]
fn open_to_bytes() {
    let mut open = Open::new(ID::from_str("1.2.3").unwrap(), "rck");
    open.header.session_id = 1;
    open.header.transaction_id = 2;
    open.header.packet_id = 3;
    let expected = vec![
        /* header */
        1, 1, 0, 0, /* version, ty, flags, reserved */
        1, 0, 0, 0, /* session */
        2, 0, 0, 0, /* transaction */
        3, 0, 0, 0, /* packet */
        28, 0, 0, 0, /* length */
        /* timeout */
        0, 0, 0, 0, /* timeout, reserved * 3 */
        /* id */
        3, 0, 0, 0, /* n_subid, prefix, inclusive flag, reserved */
        1, 0, 0, 0, /* subid */
        2, 0, 0, 0, /* subid */
        3, 0, 0, 0, /* subid */
        /* descr */
        3, 0, 0, 0, /* length */
        0x72, 0x63, 0x6B, 0, /* str + padding */
    ];
    assert_eq!(expected, open.to_bytes().unwrap());
}

#[test]
fn open_serde() {
    let mut expected = Open::new(ID::from_str("1.2.3.4").unwrap(), "rck");
    expected.header.session_id = 1;
    expected.header.transaction_id = 2342;
    expected.header.packet_id = 3;

    for bo in vec![0, NETWORK_BYTE_ORDER] {
        if bo > 0 {
            expected.header.flags |= 1 << bo;
        }
        let bytes = expected.to_bytes().unwrap();
        let got = Open::from_bytes(bytes.as_slice()).unwrap();
        assert_eq!(got.header.transaction_id, 2342);

        assert_eq!(got, expected);
    }
}

#[test]
fn close_serde() {
    for flags in vec![0, 1 << NETWORK_BYTE_ORDER] {
        let mut expected = Close::new(CloseReason::ParseError);
        expected.header.flags = flags;
        let bytes = expected.to_bytes().unwrap();
        let got = Close::from_bytes(bytes.as_slice()).unwrap();

        assert_eq!(got, expected);
    }
}

#[test]
fn register_serde() {
    for flags in vec![0, 1 << NETWORK_BYTE_ORDER] {
        let mut expected = Register::new(ID::from_str("1.2.3").unwrap());
        expected.header.flags = flags;
        let bytes = expected.to_bytes().unwrap();
        let got = Register::from_bytes(bytes.as_slice()).unwrap();

        assert_eq!(got.context, None);
        assert_eq!(got.upper_bound, None);

        assert_eq!(got, expected);
    }

    // context
    let mut expected = Register::new(ID::from_str("1.2.3").unwrap());
    expected.context = Some(Context(OctetString("rck".to_string())));
    expected.header.flags = 1 << NON_DEFAULT_CONTEXT;
    let bytes = expected.to_bytes().unwrap();
    let got = Register::from_bytes(bytes.as_slice()).unwrap();

    assert!(got.context.is_some());

    assert_eq!(got, expected);

    // upper_bound
    let mut expected = Register::new(ID::from_str("1.2.3").unwrap());
    expected.range_subid = 2;
    expected.upper_bound = Some(42);
    let bytes = expected.to_bytes().unwrap();
    let got = Register::from_bytes(bytes.as_slice()).unwrap();

    assert_eq!(got.upper_bound, Some(42));

    assert_eq!(got, expected);
}

#[test]
fn unregister_serde() {
    for flags in vec![0, 1 << NETWORK_BYTE_ORDER] {
        let mut expected = Unregister::new(ID::from_str("1.2.3").unwrap(), 23);
        expected.header.flags = flags;
        let bytes = expected.to_bytes().unwrap();
        let got = Unregister::from_bytes(bytes.as_slice()).unwrap();

        assert_eq!(got.context, None);
        assert_eq!(got.upper_bound, None);

        assert_eq!(got, expected);
    }
}
