use target_core::inbound::handshake::{Handshake, HandshakeAction, HandshakeEvent};
use target_core::inbound::socks5::SocksError;
use target_core::net::{Host, IpAddress};

fn heard(b: &[u8]) -> HandshakeEvent {
    HandshakeEvent::Heard(b.to_vec())
}

fn sends(h: &Handshake, expected: &[u8]) {
    match h.action() {
        HandshakeAction::Send(b) => assert_eq!(b, expected),
        other => panic!("{:?}", other),
    }
}

fn reads(h: &Handshake, expected: usize) {
    match h.action() {
        HandshakeAction::Read(n) => assert_eq!(n, expected),
        other => panic!("{:?}", other),
    }
}

#[test]
fn a_client_gets_its_connection() {
    let mut h = Handshake::new();
    reads(&h, 2);
    h.advance(heard(&[5, 1]));
    reads(&h, 1);
    h.advance(heard(&[0]));
    sends(&h, &[5, 0]);
    h.advance(HandshakeEvent::Sent);
    reads(&h, 4);
    h.advance(heard(&[5, 1, 0, 1]));
    reads(&h, 4);
    h.advance(heard(&[1, 2, 3, 4]));
    reads(&h, 2);
    h.advance(heard(&[0, 80]));
    sends(&h, &[5, 0, 0, 1, 0, 0, 0, 0, 0, 0]);
    h.advance(HandshakeEvent::Sent);
    match h.action() {
        HandshakeAction::Connect(Host::Ip(IpAddress::V4(o)), 80) => assert_eq!(*o, [1, 2, 3, 4]),
        other => panic!("{:?}", other),
    }
}

#[test]
fn a_client_gets_its_relay() {
    let mut h = Handshake::new();
    h.advance(heard(&[5, 1, 0]));
    h.advance(HandshakeEvent::Sent);
    h.advance(heard(&[5, 3, 0, 1, 0, 0, 0, 0, 0, 0]));
    assert!(matches!(h.action(), HandshakeAction::Relay(Host::Ip(_), 0)));
}

#[test]
fn a_client_of_another_version_hears_nothing() {
    let mut h = Handshake::new();
    h.advance(heard(&[4, 1]));
    match h.action() {
        HandshakeAction::Fail(e) => assert_eq!(*e, SocksError::GreetingVersion),
        other => panic!("{:?}", other),
    }
}

#[test]
fn a_client_that_insists_on_a_password_is_told() {
    let mut h = Handshake::new();
    h.advance(heard(&[5, 1, 2]));
    sends(&h, &[5, 255]);
    h.advance(HandshakeEvent::Sent);
    match h.action() {
        HandshakeAction::Fail(e) => assert_eq!(*e, SocksError::NoMethod),
        other => panic!("{:?}", other),
    }
}

#[test]
fn events_that_answer_nothing_change_nothing() {
    let mut h = Handshake::new();
    h.advance(HandshakeEvent::Sent);
    reads(&h, 2);
    h.advance(heard(&[5, 1, 0]));
    h.advance(heard(&[1, 2, 3]));
    sends(&h, &[5, 0]);
}
