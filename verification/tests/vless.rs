use target_core::config::{
    ApiConfig, Client, Config, InboundConfig, InboundSettings, RoutingConfig,
};
use target_core::inbound::vless::{accepting_response, read_header, Header, VlessError};
use target_core::net::{Host, IpAddress};
use target_core::outbound::vless_client::{
    command_of, request_header, response_accepts, write_header,
};
use target_core::state::EngineState;

const USER: &str = "00010203-0405-0607-0809-0a0b0c0d0e0f";

fn user() -> [u8; 16] {
    [0, 1, 2, 3, 4, 5, 6, 7, 8, 9, 10, 11, 12, 13, 14, 15]
}

fn state() -> EngineState {
    EngineState::new(Config {
        inbounds: vec![InboundConfig {
            tag: "in".to_string(),
            listen: IpAddress::V4([0, 0, 0, 0]),
            port: 443,
            protocol: "vless".to_string(),
            settings: InboundSettings {
                clients: Some(vec![Client { id: USER.to_string(), email: None }]),
            },
            stream_settings: None,
        }],
        outbounds: vec![],
        routing: RoutingConfig { rules: vec![] },
        api: ApiConfig { listen: IpAddress::V4([127, 0, 0, 1]), port: 9091 },
    })
}

/// What the UUID crate says of `nobody`.
const NOT_HEX: &str = "invalid character: found `n` at 0";

fn refused(bytes: &[u8]) -> VlessError {
    match read_header(bytes, &state()) {
        Header::Refused(e) => e,
        other => panic!("{:?}", other),
    }
}

fn check_round_trip(host: Host, command: u8, port: u16, expected_len: usize) {
    let bytes = write_header(&user(), command, port, &host);
    assert_eq!(bytes.len(), expected_len);
    let state = state();
    let mut have = 0;
    loop {
        match read_header(&bytes[..have], &state) {
            Header::Missing(k) => {
                assert!(k > 0);
                have += k;
                assert!(have <= bytes.len());
            }
            Header::Accepted(q) => {
                assert_eq!(have, bytes.len());
                assert_eq!(q.host, host);
                assert_eq!(q.port, port);
                assert_eq!(q.command, command);
                assert_eq!(q.user, user());
                return;
            }
            other => panic!("{:?}", other),
        }
    }
}

#[test]
fn headers_have_the_documented_form() {
    let host = Host::Domain("ab".to_string());
    let mut expected = vec![0u8];
    expected.extend_from_slice(&user());
    expected.extend_from_slice(&[0, 1, 0x01, 0xbb, 2, 2, 97, 98]);
    assert_eq!(write_header(&user(), 1, 443, &host), expected);
    assert_eq!(request_header(USER, 1, 443, &host), Ok(expected));
    assert_eq!(request_header("nobody", 1, 443, &host).unwrap_err(), NOT_HEX);
}

#[test]
fn headers_round_trip() {
    check_round_trip(Host::Ip(IpAddress::V4([1, 2, 3, 4])), 1, 443, 26);
    check_round_trip(Host::Ip(IpAddress::V6([7; 16])), 2, 0, 38);
    check_round_trip(Host::Domain("example.com".to_string()), 1, 65535, 34);
    check_round_trip(Host::Domain(String::new()), 2, 1, 23);
    check_round_trip(Host::Domain("x".repeat(255)), 1, 1, 278);
}

#[test]
fn headers_with_addons_are_read() {
    let mut bytes = vec![0u8];
    bytes.extend_from_slice(&user());
    bytes.extend_from_slice(&[3, 9, 9, 9, 2, 0, 53, 1, 8, 8, 4, 4]);
    match read_header(&bytes, &state()) {
        Header::Accepted(q) => {
            assert_eq!(q.host, Host::Ip(IpAddress::V4([8, 8, 4, 4])));
            assert_eq!(q.port, 53);
            assert_eq!(q.command, 2);
        }
        other => panic!("{:?}", other),
    }
}

#[test]
fn headers_are_refused_for_a_reason() {
    let good = write_header(&user(), 1, 443, &Host::Ip(IpAddress::V4([1, 2, 3, 4])));
    let mut b = good.clone();
    b[0] = 1;
    assert_eq!(refused(&b), VlessError::Version);
    let mut b = good.clone();
    b[16] = 99;
    assert_eq!(refused(&b), VlessError::User);
    assert_eq!(refused(&b[..18]), VlessError::User);
    let mut b = good.clone();
    b[18] = 3;
    assert_eq!(refused(&b), VlessError::Command);
    let mut b = good.clone();
    b[21] = 4;
    assert_eq!(refused(&b), VlessError::AddressType);
    let mut b = good[..21].to_vec();
    b.extend_from_slice(&[2, 1, 0xff]);
    let words = "invalid utf-8 sequence of 1 bytes from index 0".to_string();
    let e = refused(&b);
    assert_eq!(e, VlessError::Domain(words.clone()));
    assert_eq!(e.message(), words);
    let mut b = good[..21].to_vec();
    b.extend_from_slice(&[2, 3, 97, 0xe2, 0x82]);
    assert_eq!(refused(&b).message(), "incomplete utf-8 byte sequence from index 1");
    assert_eq!(VlessError::Version.message(), "Unsupported VLESS version");
    assert_eq!(VlessError::User.message(), "Invalid client UUID");
    assert_eq!(VlessError::Command.message(), "Invalid VLESS request command");
    assert_eq!(VlessError::AddressType.message(), "Invalid VLESS target address type");
}

#[test]
fn long_names_lose_the_high_bits_of_their_length() {
    let host = Host::Domain("x".repeat(258));
    let bytes = write_header(&user(), 1, 1, &host);
    assert_eq!(bytes[22], 2);
    assert_eq!(bytes.len(), 21 + 2 + 258);
}

#[test]
fn responses_tell_by_their_version() {
    assert_eq!(accepting_response(), [0, 0]);
    assert!(response_accepts(&accepting_response()));
    assert!(response_accepts(&[0, 7]));
    assert!(!response_accepts(&[1, 0]));
    assert_eq!(command_of(false), 1);
    assert_eq!(command_of(true), 2);
}
