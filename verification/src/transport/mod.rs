//! What travels between the engine and its neighbours: SOCKS5 as a client, Hysteria 2
//! messages, multiplexed streams and TLS.

use crate::frame::{addressed, addressed_parts, lemma_addressed_read};
use crate::net::{
    host_bytes, host_fits, host_of, is_ip, plain_address, push_host, unspecified_octets, Host,
    HostView, IpAddress, SocketAddress, SOCKS_DOMAIN, SOCKS_V6, TYPE_V4,
};
use crate::wire::{
    array16, array4, be16, high_byte, lemma_u16_between, low_byte, read_u16, u16_at,
};
use vstd::prelude::*;
use vstd::string::*;

pub mod dial;
pub mod hysteria_proto;
pub mod mux;
pub mod tls;

verus! {

/// A SOCKS5 datagram: two reserved bytes, fragment number zero, host, port, payload.
pub open spec fn socks_datagram(host: HostView, port: u16, payload: Seq<u8>) -> Seq<u8> {
    seq![0u8, 0u8, 0u8] + addressed(host, port, payload)
}

/// Why bytes are no SOCKS5 datagram from an address.
#[derive(Debug, Clone, Copy, PartialEq, Eq)]
pub enum UdpHeaderError {
    TooShort,
    TooShortV4,
    TooShortV6,
    UnsupportedType,
}

impl UdpHeaderError {
    /// The error in words.
    pub fn message(&self) -> (r: &'static str)
        ensures
            r@ == match self {
                UdpHeaderError::TooShort => "Buffer too short for SOCKS5 UDP header"@,
                UdpHeaderError::TooShortV4 => "Buffer too short for SOCKS5 UDP IPv4 header"@,
                UdpHeaderError::TooShortV6 => "Buffer too short for SOCKS5 UDP IPv6 header"@,
                UdpHeaderError::UnsupportedType => "Unsupported SOCKS5 UDP address type"@,
            },
    {
        match self {
            UdpHeaderError::TooShort => "Buffer too short for SOCKS5 UDP header",
            UdpHeaderError::TooShortV4 => "Buffer too short for SOCKS5 UDP IPv4 header",
            UdpHeaderError::TooShortV6 => "Buffer too short for SOCKS5 UDP IPv6 header",
            UdpHeaderError::UnsupportedType => "Unsupported SOCKS5 UDP address type",
        }
    }
}

/// The sender of a SOCKS5 datagram and where its payload starts. A proxy names the sender by
/// address; its reserved bytes and its fragment number are not looked at.
pub open spec fn udp_sender(s: Seq<u8>) -> Result<(Seq<u8>, u16, nat), UdpHeaderError> {
    if s.len() < 4 {
        Err(UdpHeaderError::TooShort)
    } else if s[3] == TYPE_V4 {
        if s.len() < 10 {
            Err(UdpHeaderError::TooShortV4)
        } else {
            Ok((s.subrange(4, 8), u16_at(s, 8), 10))
        }
    } else if s[3] == SOCKS_V6 {
        if s.len() < 22 {
            Err(UdpHeaderError::TooShortV6)
        } else {
            Ok((s.subrange(4, 20), u16_at(s, 20), 22))
        }
    } else {
        Err(UdpHeaderError::UnsupportedType)
    }
}

/// The sender of a datagram that was wrapped with an address, and its payload, are read back.
pub proof fn law_wrapped_datagram_parses(ip: Seq<u8>, port: u16, payload: Seq<u8>)
    requires
        is_ip(ip),
    ensures
        ({
            let s = socks_datagram(HostView::Ip(ip), port, payload);
            udp_sender(s) matches Ok(p) && p.0 == ip && p.1 == port && s.skip(p.2 as int)
                == payload
        }),
{
    let h = host_bytes(HostView::Ip(ip), SOCKS_DOMAIN, SOCKS_V6);
    let s = socks_datagram(HostView::Ip(ip), port, payload);
    let front = seq![0u8, 0u8, 0u8] + h;
    assert(s =~= front + be16(port) + payload);
    lemma_u16_between(front, port, payload);
    assert(s[3] == h[0]);
    assert(s.subrange(4, 4 + ip.len() as int) =~= ip);
    assert(s.skip(front.len() as int + 2) =~= payload);
}

/// A datagram that was wrapped for a host, by address or by name, is read back by whoever
/// looks for a host behind the first three bytes.
pub proof fn law_wrapped_datagram_addresses(host: HostView, port: u16, payload: Seq<u8>)
    requires
        host_fits(host),
    ensures
        ({
            let s = socks_datagram(host, port, payload);
            addressed_parts(s, 3) matches Some(p) && p.0 == host && p.1 == port && s.skip(
                p.2 as int,
            ) == payload
        }),
{
    lemma_addressed_read(seq![0u8, 0u8, 0u8], host, port, payload);
}

/// Wraps a payload for a host into a SOCKS5 datagram. `literal` is the address that
/// `dest_host` spells, if it spells one.
pub fn wrap_socks5_udp_host(
    dest_host: &str,
    literal: Option<IpAddress>,
    dest_port: u16,
    payload: &[u8],
    out_buf: &mut Vec<u8>,
)
    ensures
        final(out_buf)@ == socks_datagram(
            host_of(dest_host@, literal),
            dest_port,
            payload@,
        ),
{
    let host: Host = Host::of(dest_host, literal);
    out_buf.clear();
    out_buf.push(0);
    out_buf.push(0);
    out_buf.push(0);
    push_host(out_buf, &host, SOCKS_DOMAIN, SOCKS_V6);
    out_buf.push(high_byte(dest_port));
    out_buf.push(low_byte(dest_port));
    out_buf.extend_from_slice(payload);
    assert(out_buf@ =~= socks_datagram(host@, dest_port, payload@));
}

/// The sender of a SOCKS5 datagram and where its payload starts.
pub fn parse_socks5_udp(buf: &[u8]) -> (r: Result<(IpAddress, u16, usize), UdpHeaderError>)
    ensures
        match r {
            Ok(p) => udp_sender(buf@) == Ok::<(Seq<u8>, u16, nat), UdpHeaderError>(
                (p.0@, p.1, p.2 as nat),
            ) && p.2 <= buf@.len(),
            Err(e) => udp_sender(buf@) == Err::<(Seq<u8>, u16, nat), UdpHeaderError>(e),
        },
{
    let n: usize = buf.len();
    if n < 4 {
        return Err(UdpHeaderError::TooShort);
    }
    let kind: u8 = buf[3];
    if kind == TYPE_V4 {
        if n < 10 {
            return Err(UdpHeaderError::TooShortV4);
        }
        Ok((IpAddress::V4(array4(buf, 4)), read_u16(buf, 8), 10))
    } else if kind == SOCKS_V6 {
        if n < 22 {
            return Err(UdpHeaderError::TooShortV6);
        }
        Ok((IpAddress::V6(array16(buf, 4)), read_u16(buf, 20), 22))
    } else {
        Err(UdpHeaderError::UnsupportedType)
    }
}

/// The local address from which datagrams to a target are sent: any address of the same
/// family, any port.
pub fn local_address_for(target: &SocketAddress) -> (r: SocketAddress)
    ensures
        r@ == plain_address(unspecified_octets(target@.ip.len() == 4), 0),
{
    SocketAddress::new(IpAddress::unspecified(target.ip.is_ipv4()), 0)
}

/// What a proxy sends is unwrapped whatever stands in its first three bytes: the sender by four
/// or sixteen octets, its port, and then the payload. Other senders and headers that are too
/// short are refused.
pub proof fn law_proxy_datagram_unwrapped(s: Seq<u8>)
    ensures
        ({
            let r = udp_sender(s);
            &&& s.len() < 4 ==> r == Err::<(Seq<u8>, u16, nat), UdpHeaderError>(
                UdpHeaderError::TooShort,
            )
            &&& s.len() >= 10 && s[3] == 1 ==> r == Ok::<(Seq<u8>, u16, nat), UdpHeaderError>(
                (s.subrange(4, 8), (s[8] * 256 + s[9]) as u16, 10nat),
            )
            &&& 4 <= s.len() < 10 && s[3] == 1 ==> r == Err::<
                (Seq<u8>, u16, nat),
                UdpHeaderError,
            >(UdpHeaderError::TooShortV4)
            &&& s.len() >= 22 && s[3] == 4 ==> r == Ok::<(Seq<u8>, u16, nat), UdpHeaderError>(
                (s.subrange(4, 20), (s[20] * 256 + s[21]) as u16, 22nat),
            )
            &&& 4 <= s.len() < 22 && s[3] == 4 ==> r == Err::<
                (Seq<u8>, u16, nat),
                UdpHeaderError,
            >(UdpHeaderError::TooShortV6)
            &&& s.len() >= 4 && s[3] != 1 && s[3] != 4 ==> r == Err::<
                (Seq<u8>, u16, nat),
                UdpHeaderError,
            >(UdpHeaderError::UnsupportedType)
        }),
{
}

/// What is sent through a proxy lies on the wire as the protocol has it: three zero bytes, the
/// host, the port and the payload.
pub proof fn law_wrapped_layout(host: HostView, port: u16, payload: Seq<u8>)
    ensures
        ({
            let s = socks_datagram(host, port, payload);
            let h = host_bytes(host, 3, 4);
            let at = 3 + h.len() as int;
            &&& s[0] == 0 && s[1] == 0 && s[2] == 0
            &&& s.subrange(3, at) == h
            &&& s[at] * 256 + s[at + 1] == port
            &&& s.skip(at + 2) == payload
        }),
{
    let s = socks_datagram(host, port, payload);
    let h = host_bytes(host, 3, 4);
    let at = 3 + h.len() as int;
    assert(s.subrange(3, at) =~= h);
    assert(s[at] == be16(port)[0] && s[at + 1] == be16(port)[1]);
    assert(s.skip(at + 2) =~= payload);
}

} // verus!
