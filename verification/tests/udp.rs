use bytes::BytesMut;
use target_core::net::{Host, IpAddress, SocketAddress};
use target_core::outbound::udp::{
    after_queue, downlink_frame, downlink_standard, finish_packet, read_packet, uplink_datagram,
    AfterQueue, Packet, Queued, UdpMode, UdpOutbound,
};
use target_core::sessions::{idle, sweep_due, AddressMap, IdSessions, Session};
use target_core::transport::{
    local_address_for, parse_socks5_udp, wrap_socks5_udp_host, UdpHeaderError,
};

#[test]
fn modes_follow_the_destination() {
    assert_eq!(UdpOutbound::mode("sp.packet-addr.v2fly.arpa", 7), UdpMode::PacketAddr);
    assert_eq!(UdpOutbound::mode("0.0.0.0", 0), UdpMode::Multiplexed);
    assert_eq!(UdpOutbound::mode("0.0.0.0", 1), UdpMode::Standard);
    assert_eq!(UdpOutbound::mode("8.8.8.8", 0), UdpMode::Standard);
    let o = UdpOutbound::new(Some("p".to_string()), None);
    assert_eq!(o.outbound_proxy, Some("p".to_string()));
    assert_eq!(o.bind_address, None);
}

fn read_all(bytes: &[u8], offset: usize) -> (Packet, Vec<usize>) {
    let mut have = offset;
    let mut asked = vec![];
    loop {
        match read_packet(&bytes[..have], offset) {
            Packet::Missing(k) => {
                asked.push(k);
                have += k;
            }
            other => return (other, asked),
        }
    }
}

#[test]
fn packets_are_read_step_by_step() {
    let bytes = [9, 9, 3, 2, 97, 98, 0, 53, 0, 3, 1, 2, 3];
    let (p, asked) = read_all(&bytes, 2);
    assert_eq!(asked, vec![1, 1, 4, 2, 3]);
    match p {
        Packet::Packet(host, port, start, end) => {
            assert_eq!(host, Host::Domain("ab".to_string()));
            assert_eq!(port, 53);
            assert_eq!(&bytes[start..end], &[1, 2, 3]);
        }
        other => panic!("{:?}", other),
    }
    let (p, asked) = read_all(&[1, 8, 8, 8, 8, 0, 53, 0, 0], 0);
    assert_eq!(asked, vec![1, 6, 2]);
    assert!(matches!(p, Packet::Packet(Host::Ip(IpAddress::V4([8, 8, 8, 8])), 53, 9, 9)));
    let mut six = vec![4];
    six.extend_from_slice(&[2; 16]);
    six.extend_from_slice(&[0, 1, 0, 1, 7]);
    let (p, asked) = read_all(&six, 0);
    assert_eq!(asked, vec![1, 18, 2, 1]);
    assert!(matches!(p, Packet::Packet(Host::Ip(IpAddress::V6(_)), 1, 21, 22)));
}

#[test]
fn packets_that_make_no_sense_stop() {
    assert!(matches!(read_packet(&[2], 0), Packet::Stop));
    assert!(matches!(read_packet(&[3, 1, 0xff, 0, 1], 0), Packet::Stop));
}

#[test]
fn buffers_are_given_back() {
    let mut buf = BytesMut::from(&vec![7u8; 40000][..]);
    assert_eq!(finish_packet(&mut buf, 32768), 32768);
    assert_eq!(buf.len(), 40000);
    assert_eq!(finish_packet(&mut buf, 32769), 0);
    assert_eq!(buf.len(), 40000 - 32769);
}

#[test]
fn standard_frames_hold_the_payload() {
    let (f, n) = downlink_standard(false, &[1, 2, 3]).unwrap();
    assert_eq!(f.to_vec(), vec![0, 3, 1, 2, 3]);
    assert_eq!(n, 3);
    let (f, n) = downlink_standard(true, &[0, 0, 0, 1, 1, 2, 3, 4, 0, 9, 8]).unwrap();
    assert_eq!(f.to_vec(), vec![0, 1, 8]);
    assert_eq!(n, 1);
    assert!(downlink_standard(true, &[1, 2]).is_none());
}

#[test]
fn downlink_frames_name_the_sender() {
    let remote = SocketAddress::new(IpAddress::V4([8, 8, 8, 8]), 53);
    let (f, n) = downlink_frame(0x0506, false, &[1, 2], &remote).unwrap();
    assert_eq!(f.to_vec(), vec![0, 11, 5, 6, 1, 8, 8, 8, 8, 0, 53, 1, 2]);
    assert_eq!(n, 2);
    let mut datagram = vec![0, 0, 0, 4];
    datagram.extend_from_slice(&[6; 16]);
    datagram.extend_from_slice(&[0, 80, 9]);
    let (f, n) = downlink_frame(0, true, &datagram, &remote).unwrap();
    let mut expected = vec![0, 22, 0, 0, 4];
    expected.extend_from_slice(&[6; 16]);
    expected.extend_from_slice(&[0, 80, 9]);
    assert_eq!(f.to_vec(), expected);
    assert_eq!(n, 1);
    assert!(downlink_frame(0, true, &[0, 0, 0, 3, 1, 97, 0, 1], &remote).is_none());
}

#[test]
fn uplink_datagrams_are_wrapped_for_a_proxy() {
    assert_eq!(uplink_datagram(false, "h", None, 1, &[5, 6]), vec![5, 6]);
    assert_eq!(
        uplink_datagram(true, "h", None, 258, &[5, 6]),
        vec![0, 0, 0, 3, 1, 104, 1, 2, 5, 6]
    );
    let ip = IpAddress::V4([1, 2, 3, 4]);
    assert_eq!(
        uplink_datagram(true, "1.2.3.4", Some(ip), 1, &[]),
        vec![0, 0, 0, 1, 1, 2, 3, 4, 0, 1]
    );
}

#[test]
fn wrapped_datagrams_are_parsed() {
    let mut out = vec![1, 2, 3];
    let ip = IpAddress::V6([9; 16]);
    wrap_socks5_udp_host("any", Some(ip), 7, &[4, 5], &mut out);
    let (sender, port, start) = parse_socks5_udp(&out).unwrap();
    assert_eq!(sender, ip);
    assert_eq!(port, 7);
    assert_eq!(&out[start..], &[4, 5]);
}

#[test]
fn other_datagrams_are_not_parsed() {
    assert_eq!(parse_socks5_udp(&[0, 0, 0]), Err(UdpHeaderError::TooShort));
    assert_eq!(parse_socks5_udp(&[0, 0, 0, 1, 1, 2, 3, 4, 0]), Err(UdpHeaderError::TooShortV4));
    assert_eq!(parse_socks5_udp(&[0, 0, 0, 4, 1]), Err(UdpHeaderError::TooShortV6));
    assert_eq!(
        parse_socks5_udp(&[0, 0, 0, 3, 1, 97, 0, 1]),
        Err(UdpHeaderError::UnsupportedType)
    );
    assert_eq!(UdpHeaderError::TooShort.message(), "Buffer too short for SOCKS5 UDP header");
    assert_eq!(
        UdpHeaderError::TooShortV4.message(),
        "Buffer too short for SOCKS5 UDP IPv4 header"
    );
    assert_eq!(
        UdpHeaderError::TooShortV6.message(),
        "Buffer too short for SOCKS5 UDP IPv6 header"
    );
    assert_eq!(UdpHeaderError::UnsupportedType.message(), "Unsupported SOCKS5 UDP address type");
}

#[test]
fn local_addresses_have_the_family_of_the_target() {
    let four = SocketAddress::new(IpAddress::V4([1, 1, 1, 1]), 9);
    assert_eq!(local_address_for(&four), SocketAddress::new(IpAddress::V4([0; 4]), 0));
    let six = SocketAddress::new(IpAddress::V6([1; 16]), 9);
    assert_eq!(local_address_for(&six), SocketAddress::new(IpAddress::V6([0; 16]), 0));
}

fn addr(last: u8) -> SocketAddress {
    SocketAddress::new(IpAddress::V4([10, 0, 0, last]), 1)
}

#[test]
fn sessions_by_address_are_swept() {
    let mut t: AddressMap<Session<&str>> = AddressMap::new();
    t.open(addr(1), "a", 100);
    t.open(addr(2), "b", 100);
    t.open(addr(3), "c", 100);
    assert!(t.touch(&addr(2), 150));
    assert!(!t.touch(&addr(9), 150));
    assert!(t.sweep(160).is_empty());
    let mut gone = t.sweep(161);
    gone.sort();
    assert_eq!(gone, vec!["a", "c"]);
    assert!(t.get(&addr(1)).is_none());
    assert_eq!(t.get(&addr(2)).unwrap().last_active, 150);
    assert_eq!(t.drain(), vec!["b"]);
    assert!(t.get(&addr(2)).is_none());
}

#[test]
fn addresses_differ_in_every_part() {
    let mut t: AddressMap<u8> = AddressMap::new();
    t.insert(addr(1), 1);
    t.insert(SocketAddress { port: 2, ..addr(1) }, 2);
    t.insert(SocketAddress { flow_info: 1, ..addr(1) }, 3);
    t.insert(SocketAddress { scope_id: 1, ..addr(1) }, 4);
    t.insert(SocketAddress { ip: IpAddress::V6([0; 16]), ..addr(1) }, 5);
    t.insert(addr(1), 6);
    assert_eq!(t.get(&addr(1)), Some(&6));
    assert_eq!(t.get(&SocketAddress { port: 2, ..addr(1) }), Some(&2));
    assert_eq!(t.remove(&SocketAddress { scope_id: 1, ..addr(1) }), Some(4));
    assert_eq!(t.remove(&SocketAddress { scope_id: 1, ..addr(1) }), None);
    assert_eq!(t.get(&SocketAddress { flow_info: 1, ..addr(1) }), Some(&3));
}

#[test]
fn sessions_by_number_are_swept() {
    let mut t: IdSessions<&str> = IdSessions::new();
    t.open(1, "a", 0);
    t.open(2, "b", 0);
    t.open(3, "c", 50);
    t.open(2, "d", 50);
    assert!(t.touch(1, 20));
    assert!(!t.touch(7, 20));
    assert_eq!(t.sweep(100), vec!["a"]);
    assert!(t.get(1).is_none());
    assert_eq!(t.get(2).unwrap().link, "d");
    let mut rest = t.drain();
    rest.sort();
    assert_eq!(rest, vec!["c", "d"]);
    assert!(t.get(3).is_none());
}

#[test]
fn limits_are_exclusive() {
    assert!(!idle(100, 160));
    assert!(idle(100, 161));
    assert!(!idle(100, 0));
    assert!(!sweep_due(0, 10_000_000_000));
    assert!(sweep_due(0, 10_000_000_001));
    assert!(!sweep_due(5, 0));
}

#[test]
fn only_what_a_connection_takes_is_counted() {
    assert_eq!(after_queue(Queued::Taken), AfterQueue::Count);
    assert_eq!(after_queue(Queued::Full), AfterQueue::GoOn);
    assert_eq!(after_queue(Queued::Closed), AfterQueue::Stop);
}
