use bytes::{Bytes, BytesMut};
use target_core::transport::hysteria_proto::{
    read_varint, write_varint, TCPRequest, TCPResponse, UDPMessage,
};

fn varint(v: u64) -> Vec<u8> {
    let mut buf = BytesMut::new();
    write_varint(&mut buf, v);
    buf.to_vec()
}

#[test]
fn varints_have_four_widths() {
    assert_eq!(varint(37), vec![0x25]);
    assert_eq!(varint(63), vec![0x3f]);
    assert_eq!(varint(15293), vec![0x7b, 0xbd]);
    assert_eq!(varint(494878333), vec![0x9d, 0x7f, 0x3e, 0x7d]);
    assert_eq!(
        varint(151288809941952652),
        vec![0xc2, 0x19, 0x7c, 0x5e, 0xff, 0x14, 0xe8, 0x8c]
    );
}

#[test]
fn varints_round_trip() {
    for v in [
        0u64,
        63,
        64,
        16383,
        16384,
        1073741823,
        1073741824,
        0x3fff_ffff_ffff_ffff,
    ] {
        let mut bytes = varint(v);
        bytes.push(0x77);
        let mut buf = Bytes::from(bytes);
        assert_eq!(read_varint(&mut buf), Some(v));
        assert_eq!(buf.to_vec(), vec![0x77]);
    }
}

#[test]
fn varint_that_is_cut_off_is_none() {
    let mut empty = Bytes::new();
    assert_eq!(read_varint(&mut empty), None);
    let mut cut = Bytes::from(vec![0x9d, 0x7f, 0x3e]);
    assert_eq!(read_varint(&mut cut), None);
}

#[test]
fn request_round_trip() {
    let req = TCPRequest { address: "example.com:443".to_string() };
    let bytes = req.serialize();
    let mut expected = vec![0x44, 0x01, 15];
    expected.extend_from_slice(b"example.com:443");
    expected.push(0);
    assert_eq!(bytes.to_vec(), expected);
    let mut input = expected.clone();
    input.extend_from_slice(&[1, 2, 3]);
    let mut buf = Bytes::from(input);
    let back = TCPRequest::parse(&mut buf).unwrap();
    assert_eq!(back.address, "example.com:443");
    assert_eq!(buf.to_vec(), vec![1, 2, 3]);
}

#[test]
fn request_skips_its_padding() {
    let mut input = vec![0x44, 0x01, 3];
    input.extend_from_slice(b"a:1");
    input.extend_from_slice(&[2, 9, 9, 5]);
    let mut buf = Bytes::from(input);
    assert_eq!(TCPRequest::parse(&mut buf).unwrap().address, "a:1");
    assert_eq!(buf.to_vec(), vec![5]);
}

#[test]
fn request_with_another_number_is_none() {
    let mut buf = Bytes::from(vec![0x44, 0x02, 1, 97, 0]);
    assert!(TCPRequest::parse(&mut buf).is_none());
}

#[test]
fn request_that_is_no_text_is_none() {
    let mut buf = Bytes::from(vec![0x44, 0x01, 2, 0xff, 0xfe, 0]);
    assert!(TCPRequest::parse(&mut buf).is_none());
}

#[test]
fn request_that_is_cut_off_is_none() {
    let whole = TCPRequest { address: "h:80".to_string() }.serialize();
    for n in 0..whole.len() {
        let mut buf = whole.slice(0..n);
        assert!(TCPRequest::parse(&mut buf).is_none());
    }
}

#[test]
fn response_round_trip() {
    let ok = TCPResponse { status: 0, error_message: None };
    assert_eq!(ok.serialize().to_vec(), vec![0]);
    let bad = TCPResponse { status: 1, error_message: Some("no".to_string()) };
    assert_eq!(bad.serialize().to_vec(), vec![1, 2, 110, 111]);
    let mut buf = Bytes::from(vec![1, 2, 110, 111, 8]);
    let back = TCPResponse::parse(&mut buf).unwrap();
    assert_eq!(back.status, 1);
    assert_eq!(back.error_message, Some("no".to_string()));
    assert_eq!(buf.to_vec(), vec![8]);
}

#[test]
fn response_without_message_has_an_empty_one() {
    let bad = TCPResponse { status: 3, error_message: None };
    assert_eq!(bad.serialize().to_vec(), vec![3, 0]);
    let mut buf = bad.serialize();
    assert_eq!(
        TCPResponse::parse(&mut buf).unwrap().error_message,
        Some(String::new())
    );
}

#[test]
fn response_that_is_no_text_has_no_message() {
    let mut buf = Bytes::from(vec![1, 1, 0xff]);
    let back = TCPResponse::parse(&mut buf).unwrap();
    assert_eq!(back.status, 1);
    assert_eq!(back.error_message, None);
}

#[test]
fn empty_response_is_none() {
    let mut buf = Bytes::new();
    assert!(TCPResponse::parse(&mut buf).is_none());
}

#[test]
fn udp_message_round_trip() {
    let msg = UDPMessage {
        session_id: 0x01020304,
        packet_id: 0x0506,
        fragment_id: 7,
        fragment_count: 8,
        address: "1.2.3.4:53".to_string(),
        payload: Bytes::from(vec![9, 10]),
    };
    let bytes = msg.serialize();
    let mut expected = vec![1, 2, 3, 4, 5, 6, 7, 8, 10];
    expected.extend_from_slice(b"1.2.3.4:53");
    expected.extend_from_slice(&[9, 10]);
    assert_eq!(bytes.to_vec(), expected);
    let back = UDPMessage::parse(bytes).unwrap();
    assert_eq!(back.session_id, 0x01020304);
    assert_eq!(back.packet_id, 0x0506);
    assert_eq!(back.fragment_id, 7);
    assert_eq!(back.fragment_count, 8);
    assert_eq!(back.address, "1.2.3.4:53");
    assert_eq!(back.payload.to_vec(), vec![9, 10]);
    let copy = back.clone();
    assert_eq!(copy.payload.to_vec(), vec![9, 10]);
}

#[test]
fn udp_message_that_is_too_short_is_none() {
    assert!(UDPMessage::parse(Bytes::from(vec![1, 2, 3, 4, 5, 6, 7])).is_none());
    assert!(UDPMessage::parse(Bytes::from(vec![1, 2, 3, 4, 5, 6, 7, 8, 3, 97])).is_none());
}
