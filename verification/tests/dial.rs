use target_core::inbound::socks5::{associate_reply, read_request, success_reply, Request};
use target_core::net::{Host, IpAddress, SocketAddress};
use target_core::transport::dial::{
    proxy_address, read_reply, Dial, DialAction, DialError, DialEvent, Purpose, Reply,
};

#[test]
fn proxies_have_a_default_port() {
    assert_eq!(proxy_address("127.0.0.1"), "127.0.0.1:1080");
    assert_eq!(proxy_address("127.0.0.1:9050"), "127.0.0.1:9050");
    assert_eq!(proxy_address("proxy:"), "proxy:");
    assert_eq!(proxy_address(""), ":1080");
}

fn sent(d: &Dial) -> Vec<u8> {
    match d.action() {
        DialAction::Send(b) => b,
        other => panic!("{:?}", other),
    }
}

fn to_read(d: &Dial) -> usize {
    match d.action() {
        DialAction::Read(n) => n,
        other => panic!("{:?}", other),
    }
}

fn failure(d: &Dial) -> DialError {
    match d.action() {
        DialAction::GiveUp(e) => e,
        other => panic!("{:?}", other),
    }
}

fn greeted(purpose: Purpose) -> Dial {
    let mut d = Dial::new(purpose);
    d.advance(DialEvent::Done);
    assert_eq!(sent(&d), vec![5, 1, 0]);
    d.advance(DialEvent::Done);
    assert_eq!(to_read(&d), 2);
    d
}

fn asked(purpose: Purpose) -> Dial {
    let mut d = greeted(purpose);
    d.advance(DialEvent::Heard(vec![5]));
    assert_eq!(to_read(&d), 1);
    d.advance(DialEvent::Heard(vec![0]));
    let request = sent(&d);
    assert!(matches!(read_request(&request), Request::Accepted(..)));
    d.advance(DialEvent::Done);
    assert_eq!(to_read(&d), 4);
    d
}

fn example() -> Purpose {
    Purpose::Connect(Host::Domain("example.com".to_string()), 443)
}

#[test]
fn connection_through_a_proxy() {
    let mut d = greeted(example());
    d.advance(DialEvent::Heard(vec![5, 0]));
    let mut expected = vec![5, 1, 0, 3, 11];
    expected.extend_from_slice(b"example.com");
    expected.extend_from_slice(&[1, 0xbb]);
    assert_eq!(sent(&d), expected);
    d.advance(DialEvent::Done);
    let reply = success_reply();
    d.advance(DialEvent::Heard(reply[..4].to_vec()));
    assert_eq!(to_read(&d), 6);
    d.advance(DialEvent::Heard(reply[4..].to_vec()));
    assert!(matches!(d.action(), DialAction::Use(None)));
}

#[test]
fn connection_confirmed_with_a_name() {
    let mut d = asked(example());
    d.advance(DialEvent::Heard(vec![5, 0, 0, 3]));
    assert_eq!(to_read(&d), 1);
    d.advance(DialEvent::Heard(vec![2]));
    assert_eq!(to_read(&d), 4);
    d.advance(DialEvent::Heard(vec![97, 98, 0, 1]));
    assert!(matches!(d.action(), DialAction::Use(None)));
}

#[test]
fn relay_through_a_proxy() {
    let mut d = asked(Purpose::Associate);
    let reply = associate_reply(IpAddress::V6([8; 16]), 99);
    d.advance(DialEvent::Heard(reply[..4].to_vec()));
    assert_eq!(to_read(&d), 18);
    d.advance(DialEvent::Heard(reply[4..].to_vec()));
    match d.action() {
        DialAction::Use(Some(a)) => {
            assert_eq!(a, SocketAddress::new(IpAddress::V6([8; 16]), 99))
        }
        other => panic!("{:?}", other),
    }
}

#[test]
fn relay_request_has_the_documented_form() {
    let mut d = greeted(Purpose::Associate);
    d.advance(DialEvent::Heard(vec![5, 0]));
    assert_eq!(sent(&d), vec![5, 3, 0, 1, 0, 0, 0, 0, 0, 0]);
}

#[test]
fn proxies_that_refuse() {
    let mut d = greeted(example());
    d.advance(DialEvent::Heard(vec![5, 0xff]));
    assert_eq!(failure(&d), DialError::AuthFailed);
    let mut d = asked(example());
    d.advance(DialEvent::Heard(vec![5, 7, 0, 1]));
    assert_eq!(failure(&d), DialError::Rejected);
    let mut d = asked(example());
    d.advance(DialEvent::Heard(vec![5, 0, 0, 9]));
    assert_eq!(failure(&d), DialError::InvalidAddress);
    let mut d = asked(Purpose::Associate);
    d.advance(DialEvent::Heard(vec![5, 0, 0, 3]));
    assert_eq!(failure(&d), DialError::InvalidAddress);
    assert_eq!(DialError::AuthFailed.message(false), "SOCKS5 auth failed");
    assert_eq!(DialError::AuthFailed.message(true), "SOCKS5 auth failed for UDP associate");
    assert_eq!(DialError::Rejected.message(false), "SOCKS5 connect failed");
    assert_eq!(DialError::Rejected.message(true), "SOCKS5 UDP associate request failed");
    assert_eq!(DialError::InvalidAddress.message(false), "Invalid SOCKS5 address type");
    assert_eq!(
        DialError::InvalidAddress.message(true),
        "Unsupported address type in UDP associate reply"
    );
}

#[test]
fn proxies_that_cannot_be_reached() {
    let mut d = Dial::new(example());
    for _ in 0..2 {
        assert!(matches!(d.action(), DialAction::Connect));
        d.advance(DialEvent::ConnectFailed);
        assert!(matches!(d.action(), DialAction::Sleep(200)));
        d.advance(DialEvent::Done);
    }
    assert!(matches!(d.action(), DialAction::Connect));
    d.advance(DialEvent::ConnectFailed);
    assert_eq!(failure(&d), DialError::Unreachable);
    d.advance(DialEvent::Done);
    assert_eq!(failure(&d), DialError::Unreachable);
}

#[test]
fn replies_are_read_step_by_step() {
    assert!(matches!(read_reply(&[5], false), Reply::Missing(3)));
    assert!(matches!(read_reply(&[4, 0, 0, 1], false), Reply::Failed(DialError::Rejected)));
    assert!(matches!(read_reply(&success_reply(), false), Reply::Accepted(None)));
    assert!(matches!(read_reply(&[5, 0, 0, 4, 1], false), Reply::Missing(17)));
}
