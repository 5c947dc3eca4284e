use bytes::Bytes;
use target_core::config::{
    ApiConfig, Config, OutboundConfig, OutboundSettings, RoutingConfig, VlessClientConfig,
};
use target_core::frame::{read_addressed, read_frame_head, relay_frame};
use target_core::inbound::socks5::{
    after_tunnel, associate_reply, find_tunnel_config, find_tunnel_tag, method_reply,
    read_client_datagram, read_greeting, read_request, register_relay, success_reply,
    tunnel_request, Associations, Greeting, Request, SocksError, TunnelAction, TunnelError,
    TunnelEvent, UdpTarget, UdpUpstreamPacket,
};
use target_core::net::{Host, IpAddress, SocketAddress};
use target_core::state::EngineState;

fn config(outbounds: Vec<OutboundConfig>) -> Config {
    Config {
        inbounds: vec![],
        outbounds,
        routing: RoutingConfig { rules: vec![] },
        api: ApiConfig { listen: IpAddress::V4([127, 0, 0, 1]), port: 9091 },
    }
}

fn vless(tag: &str, uuid: &str) -> OutboundConfig {
    OutboundConfig {
        tag: tag.to_string(),
        protocol: "vless".to_string(),
        settings: Some(OutboundSettings {
            fragment: None,
            vless: Some(VlessClientConfig {
                server: "s".to_string(),
                port: 443,
                uuid: uuid.to_string(),
                tls: None,
            }),
            hysteria2: None,
        }),
        outbound_proxy: None,
        bind_address: None,
    }
}

#[test]
fn greetings_are_read_step_by_step() {
    assert_eq!(read_greeting(&[]), Greeting::Missing(2));
    assert_eq!(read_greeting(&[5]), Greeting::Missing(1));
    assert_eq!(read_greeting(&[5, 3]), Greeting::Missing(3));
    assert_eq!(read_greeting(&[5, 3, 1, 2]), Greeting::Missing(1));
    assert_eq!(read_greeting(&[5, 3, 1, 2, 0]), Greeting::Accepted);
    assert_eq!(read_greeting(&[5, 1, 0]), Greeting::Accepted);
    assert_eq!(read_greeting(&[4, 1]), Greeting::Refused(SocksError::GreetingVersion));
    assert_eq!(read_greeting(&[5, 2, 1, 2]), Greeting::Refused(SocksError::NoMethod));
    assert_eq!(read_greeting(&[5, 0]), Greeting::Refused(SocksError::NoMethod));
    assert_eq!(method_reply(), [5, 0]);
}

fn refused(bytes: &[u8]) -> SocksError {
    match read_request(bytes) {
        Request::Refused(e) => e,
        other => panic!("{:?}", other),
    }
}

#[test]
fn requests_are_read_step_by_step() {
    let bytes = [5, 1, 0, 3, 2, 97, 98, 0x01, 0xbb];
    let mut have = 0;
    let mut asked = vec![];
    loop {
        match read_request(&bytes[..have]) {
            Request::Missing(k) => {
                asked.push(k);
                have += k;
            }
            Request::Accepted(c, h, p) => {
                assert_eq!(c, 1);
                assert_eq!(h, Host::Domain("ab".to_string()));
                assert_eq!(p, 443);
                break;
            }
            other => panic!("{:?}", other),
        }
    }
    assert_eq!(asked, vec![4, 1, 2, 2]);
}

#[test]
fn requests_are_refused_with_a_reply() {
    assert_eq!(refused(&[4, 1, 0, 1]), SocksError::RequestVersion);
    assert!(SocksError::RequestVersion.reply().is_empty());
    assert_eq!(refused(&[5, 2, 0, 1]), SocksError::Command);
    assert_eq!(SocksError::Command.reply(), vec![5, 7, 0, 1, 0, 0, 0, 0, 0, 0]);
    assert_eq!(refused(&[5, 3, 0, 2]), SocksError::AddressType);
    assert_eq!(SocksError::AddressType.reply(), vec![5, 8, 0, 1, 0, 0, 0, 0, 0, 0]);
    let words = "invalid utf-8 sequence of 1 bytes from index 0".to_string();
    let e = refused(&[5, 1, 0, 3, 1, 0xff]);
    assert_eq!(e, SocksError::Domain(words.clone()));
    assert_eq!(e.message(), words);
    assert!(e.reply().is_empty());
    assert_eq!(SocksError::NoMethod.reply(), vec![5, 0xff]);
    assert_eq!(SocksError::GreetingVersion.message(), "Unsupported SOCKS version");
    assert_eq!(SocksError::NoMethod.message(), "No acceptable auth methods");
    assert_eq!(SocksError::RequestVersion.message(), "Invalid request version");
    assert_eq!(SocksError::Command.message(), "Unsupported command");
    assert_eq!(SocksError::AddressType.message(), "Unsupported address type");
}

#[test]
fn replies_have_the_documented_form() {
    assert_eq!(success_reply(), vec![5, 0, 0, 1, 0, 0, 0, 0, 0, 0]);
    assert_eq!(
        associate_reply(IpAddress::V4([10, 0, 0, 1]), 0x1234),
        vec![5, 0, 0, 1, 10, 0, 0, 1, 0x12, 0x34]
    );
    let six = associate_reply(IpAddress::V6([3; 16]), 1);
    assert_eq!(six.len(), 22);
    assert_eq!(six[3], 4);
}

#[test]
fn client_datagrams_are_unwrapped() {
    let (target, payload) = read_client_datagram(&[0, 0, 0, 1, 8, 8, 8, 8, 0, 53, 1, 2]).unwrap();
    assert_eq!(target, UdpTarget::Ip(IpAddress::V4([8, 8, 8, 8]), 53));
    assert_eq!(target.port(), 53);
    assert_eq!(target.host(), Host::Ip(IpAddress::V4([8, 8, 8, 8])));
    assert_eq!(payload.to_vec(), vec![1, 2]);
    let (target, payload) = read_client_datagram(&[0, 0, 0, 3, 1, 97, 0, 7]).unwrap();
    assert_eq!(target, UdpTarget::Domain("a".to_string(), 7));
    assert_eq!(target.host(), Host::Domain("a".to_string()));
    assert!(payload.is_empty());
    let mut six = vec![9, 9, 0, 4];
    six.extend_from_slice(&[1; 16]);
    six.extend_from_slice(&[0, 1, 5]);
    let (target, payload) = read_client_datagram(&six).unwrap();
    assert_eq!(target, UdpTarget::Ip(IpAddress::V6([1; 16]), 1));
    assert_eq!(payload.to_vec(), vec![5]);
}

#[test]
fn other_client_datagrams_are_dropped() {
    assert!(read_client_datagram(&[0, 0, 0]).is_none());
    assert!(read_client_datagram(&[0, 0, 1, 1, 8, 8, 8, 8, 0, 53]).is_none());
    assert!(read_client_datagram(&[0, 0, 0, 2, 8, 8, 8, 8, 0, 53]).is_none());
    assert!(read_client_datagram(&[0, 0, 0, 1, 8, 8, 8, 8, 0]).is_none());
    assert!(read_client_datagram(&[0, 0, 0, 3, 1, 0xff, 0, 1]).is_none());
}

#[test]
fn upstream_frames_are_read_back() {
    let packet = UdpUpstreamPacket {
        assoc_id: 0x0102,
        target: UdpTarget::Domain("ab".to_string(), 53),
        payload: Bytes::from(vec![7, 8, 9]),
    };
    let f = packet.frame();
    assert_eq!(
        f.to_vec(),
        vec![0, 11, 1, 2, 3, 2, 97, 98, 0, 53, 7, 8, 9]
    );
    let (len, assoc) = read_frame_head(&[f[0], f[1], f[2], f[3]]).unwrap();
    assert_eq!((len, assoc), (9, 0x0102));
    assert_eq!(f.len(), 4 + len);
    let (host, port, start) = read_addressed(&f[4..], 0).unwrap();
    assert_eq!(host, Host::Domain("ab".to_string()));
    assert_eq!(port, 53);
    assert_eq!(&f[4 + start..], &[7, 8, 9]);
    let (reply, n) = relay_frame(&f[4..]).unwrap();
    assert_eq!(reply, vec![0, 0, 0, 3, 2, 97, 98, 0, 53, 7, 8, 9]);
    assert_eq!(n, 3);
    let (target, payload) = read_client_datagram(&reply).unwrap();
    assert_eq!(target, packet.target);
    assert_eq!(payload, packet.payload);
}

#[test]
fn frames_without_room_are_dropped() {
    assert_eq!(read_frame_head(&[0, 1, 0, 9]), None);
    assert_eq!(read_frame_head(&[0, 2, 0, 9]), Some((0, 9)));
    assert!(relay_frame(&[]).is_none());
    assert!(relay_frame(&[1, 1, 2, 3, 4, 0]).is_none());
    assert!(relay_frame(&[3]).is_none());
    assert!(relay_frame(&[3, 1, 97, 0]).is_none());
    assert!(relay_frame(&[9, 1, 2, 3, 4, 0, 1]).is_none());
    assert!(relay_frame(&[3, 1, 0xff, 0, 1]).is_some());
    assert!(read_addressed(&[3, 1, 0xff, 0, 1], 0).is_none());
    assert!(read_addressed(&[], 0).is_none());
    let mut six = vec![4];
    six.extend_from_slice(&[0; 18]);
    assert_eq!(relay_frame(&six).unwrap().1, 0);
    assert!(relay_frame(&six[..18]).is_none());
}

fn addr(last: u8, port: u16) -> SocketAddress {
    SocketAddress::new(IpAddress::V4([10, 0, 0, last]), port)
}

#[test]
fn clients_keep_their_numbers() {
    let mut a: Associations<&str> = Associations::new();
    assert_eq!(a.get_or_create_association(addr(1, 1), "s1", 100), 1);
    assert_eq!(a.get_or_create_association(addr(2, 1), "s2", 100), 2);
    assert_eq!(a.get_or_create_association(addr(1, 1), "s3", 110), 1);
    let first = a.get(1).unwrap();
    assert_eq!(first.link.socket, "s1");
    assert_eq!(first.link.client_addr, addr(1, 1));
    assert_eq!(first.last_active, 110);
    assert!(a.touch(2, 120));
    assert_eq!(a.get(2).unwrap().last_active, 120);
    assert!(!a.touch(9, 120));
    assert!(a.get(9).is_none());
}

#[test]
fn idle_clients_are_forgotten() {
    let mut a: Associations<u8> = Associations::new();
    a.get_or_create_association(addr(1, 1), 0, 100);
    a.get_or_create_association(addr(2, 1), 0, 130);
    a.sweep(160);
    assert!(a.get(1).is_some());
    a.sweep(161);
    assert!(a.get(1).is_none());
    assert!(a.get(2).is_some());
    assert_eq!(a.get_or_create_association(addr(2, 1), 0, 161), 2);
    assert_eq!(a.get_or_create_association(addr(1, 1), 0, 161), 3);
}

#[test]
fn numbers_start_again() {
    let mut a: Associations<u8> = Associations::new();
    for i in 0..65536u32 {
        let c = SocketAddress::new(IpAddress::V4([1, 1, 1, 1]), i as u16);
        let now = i as u64 * 100;
        a.sweep(now);
        let id = a.get_or_create_association(c, 0, now);
        assert_eq!(id, (i + 1) as u16);
    }
}

#[test]
fn tunnel_goes_through_the_first_vless_server() {
    let mut free = vless("f", "");
    free.protocol = "freedom".to_string();
    let c = config(vec![free, vless("v1", "u1"), vless("v2", "u2")]);
    assert_eq!(find_tunnel_config(&c).unwrap().uuid, "u1");
    assert_eq!(find_tunnel_tag(&c), "v1");
    let none = config(vec![]);
    assert!(find_tunnel_config(&none).is_none());
    assert_eq!(find_tunnel_tag(&none), "vless");
}

#[test]
fn tunnel_requests_use_the_udp_command() {
    let host = Host::Ip(IpAddress::V4([0, 0, 0, 0]));
    let c = config(vec![vless("v", "00000000-0000-0000-0000-000000000001")]);
    let b = tunnel_request(&c, &host, 0).unwrap();
    let mut expected = vec![0u8; 16];
    expected.push(1);
    expected.extend_from_slice(&[0, 2, 0, 0, 1, 0, 0, 0, 0]);
    assert_eq!(b, expected);
    let e = tunnel_request(&config(vec![]), &host, 0).unwrap_err();
    assert_eq!(e, TunnelError::NoServer);
    assert_eq!(e.message(), "VLESS config missing");
    let e = tunnel_request(&config(vec![vless("v", "x")]), &host, 0).unwrap_err();
    assert_eq!(e.message(), "invalid character: found `x` at 0");
    let e = tunnel_request(&config(vec![vless("v", "")]), &host, 0).unwrap_err();
    assert_eq!(e, TunnelError::NoUuid("invalid length: found 0".to_string()));
    assert_eq!(TunnelError::Version.message(), "Invalid response protocol version");
}

#[test]
fn tunnel_is_opened_again_until_nobody_sends() {
    assert_eq!(after_tunnel(TunnelEvent::NotConnected), TunnelAction::Retry(2000));
    assert_eq!(after_tunnel(TunnelEvent::ReadEnded), TunnelAction::Reconnect);
    assert_eq!(after_tunnel(TunnelEvent::WriteFailed), TunnelAction::Reconnect);
    assert_eq!(after_tunnel(TunnelEvent::QueueClosed), TunnelAction::Stop);
}

#[test]
fn relays_are_listed() {
    let mut state = EngineState::new(config(vec![vless("v", "u")]));
    register_relay(&mut state, 3, "in", "1.1.1.1:9", "0.0.0.0", 0, 8);
    let conn = state.connections().get(&3).unwrap();
    assert_eq!(conn.inbound_tag, "in");
    assert_eq!(conn.client_ip, "1.1.1.1:9");
    assert_eq!(conn.dest_address, "0.0.0.0:0");
    assert_eq!(conn.outbound_tag, "v");
    assert_eq!(conn.start_time, 8);
}
