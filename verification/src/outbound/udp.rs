//! The way out for datagrams. Through the stream of a connection they come in one of three
//! forms: each with its own address, multiplexed by association, or all to one destination.

use crate::frame::{frame_bytes, write_frame};
use crate::net::{
    host_at, host_bytes, host_fits, host_of, lemma_host_read, missing, read_host, Host, HostRead,
    HostReadView, HostView, IpAddress, SocketAddress, SOCKS_DOMAIN, SOCKS_V6,
};
use crate::text::same_text;
use crate::transport::{parse_socks5_udp, socks_datagram, udp_sender, wrap_socks5_udp_host};
use crate::wire::{
    be16, buffer_freeze, buffer_new, buffer_put_slice, buffer_put_u16, buffer_split_to,
    buffer_view, bytes_view, lemma_u16_between, low16, read_u16, truncate_u16, u16_at,
};
use bytes::{Bytes, BytesMut};
use vstd::prelude::*;
use vstd::slice::*;
use vstd::string::*;

verus! {

/// When more than this has been used of a buffer, it is given back.
pub const COMPACT_LIMIT: usize = 32768;

/// The way out for datagrams.
#[derive(Debug)]
pub struct UdpOutbound {
    pub outbound_proxy: Option<String>,
    pub bind_address: Option<String>,
}

/// In which form the datagrams of a connection come.
#[derive(Debug, Clone, Copy, PartialEq, Eq)]
pub enum UdpMode {
    /// Each with its own address.
    PacketAddr,
    /// Multiplexed by association.
    Multiplexed,
    /// All to the destination of the connection.
    Standard,
}

/// The form, by the destination of the connection.
pub open spec fn mode_of(dest_addr: Seq<char>, dest_port: u16) -> UdpMode {
    if dest_addr == "sp.packet-addr.v2fly.arpa"@ {
        UdpMode::PacketAddr
    } else if dest_addr == "0.0.0.0"@ && dest_port == 0 {
        UdpMode::Multiplexed
    } else {
        UdpMode::Standard
    }
}

/// What the bytes so far say about a datagram with its own address.
pub enum PacketView {
    /// That many bytes are missing.
    Missing(nat),
    /// The stream makes no sense from here on.
    Stop,
    /// The host, the port, and where the payload starts and ends.
    Packet(HostView, u16, nat, nat),
}

/// What `s` says about the datagram at `offset`: host, port, length, payload.
pub open spec fn packet_at(s: Seq<u8>, offset: int) -> PacketView {
    if s.len() < offset + 1 {
        PacketView::Missing(missing(s, offset + 1))
    } else {
        match host_at(s, offset, SOCKS_DOMAIN, SOCKS_V6, 2) {
            HostReadView::Missing(n) => PacketView::Missing(n),
            HostReadView::Found(host, end) => {
                let start = end + 4;
                if s.len() < start {
                    PacketView::Missing(missing(s, start as int))
                } else {
                    let stop = start + u16_at(s, end as int + 2);
                    if s.len() < stop {
                        PacketView::Missing(missing(s, stop as int))
                    } else {
                        PacketView::Packet(host, u16_at(s, end as int), start, stop as nat)
                    }
                }
            },
            _ => PacketView::Stop,
        }
    }
}

/// A datagram with its own address.
pub open spec fn packet_bytes(host: HostView, port: u16, payload: Seq<u8>) -> Seq<u8> {
    host_bytes(host, SOCKS_DOMAIN, SOCKS_V6) + be16(port) + be16(payload.len() as u16) + payload
}

/// A datagram that was written behind `front` is read back from there. From any cut of the
/// bytes the reader asks for more, and for no more than was written.
pub proof fn law_packet_round_trip(
    front: Seq<u8>,
    host: HostView,
    port: u16,
    payload: Seq<u8>,
    cut: int,
)
    requires
        host_fits(host),
        payload.len() <= 65535,
        front.len() <= cut <= (front + packet_bytes(host, port, payload)).len(),
    ensures
        ({
            let whole = front + packet_bytes(host, port, payload);
            let r = packet_at(whole.take(cut), front.len() as int);
            if cut < whole.len() {
                r matches PacketView::Missing(k) && 0 < k && cut + k <= whole.len()
            } else {
                r == PacketView::Packet(
                    host,
                    port,
                    (whole.len() - payload.len()) as nat,
                    whole.len(),
                ) && whole.skip(whole.len() - payload.len()) == payload
            }
        }),
{
    let h = host_bytes(host, SOCKS_DOMAIN, SOCKS_V6);
    let n = payload.len() as u16;
    let whole = front + packet_bytes(host, port, payload);
    let s = whole.take(cut);
    if cut > front.len() {
        let back = be16(port) + be16(n) + payload;
        assert(whole =~= front + h + back);
        lemma_host_read(front, host, back, SOCKS_DOMAIN, SOCKS_V6, 2, cut);
        let end = (front + h).len() as int;
        if cut >= end + 2 {
            assert(whole =~= (front + h) + be16(port) + (be16(n) + payload));
            lemma_u16_between(front + h, port, be16(n) + payload);
            assert(s[end] == whole[end] && s[end + 1] == whole[end + 1]);
            if cut >= end + 4 {
                assert(whole =~= (front + h + be16(port)) + be16(n) + payload);
                lemma_u16_between(front + h + be16(port), n, payload);
                assert(s[end + 2] == whole[end + 2] && s[end + 3] == whole[end + 3]);
            }
        }
    }
    assert(whole.skip(whole.len() - payload.len()) =~= payload);
}

/// What the bytes so far say about a datagram with its own address.
#[derive(Debug)]
pub enum Packet {
    /// That many bytes are missing.
    Missing(usize),
    /// The stream makes no sense from here on.
    Stop,
    /// The host, the port, and where the payload starts and ends.
    Packet(Host, u16, usize, usize),
}

impl View for Packet {
    type V = PacketView;

    open spec fn view(&self) -> PacketView {
        match self {
            Packet::Missing(n) => PacketView::Missing(*n as nat),
            Packet::Stop => PacketView::Stop,
            Packet::Packet(h, p, start, end) => PacketView::Packet(
                h@,
                *p,
                *start as nat,
                *end as nat,
            ),
        }
    }
}

/// Reads the datagram at `offset` as far as it is there.
pub fn read_packet(s: &[u8], offset: usize) -> (r: Packet)
    requires
        offset <= s@.len(),
    ensures
        r@ == packet_at(s@, offset as int),
{
    let n: usize = s.len();
    if offset == n {
        return Packet::Missing(1);
    }
    match read_host(s, offset, SOCKS_DOMAIN, SOCKS_V6, 2) {
        HostRead::Missing(k) => Packet::Missing(k),
        HostRead::Found(host, end) => {
            let have: usize = n - end;
            if have < 4 {
                return Packet::Missing(4 - have);
            }
            let len: usize = read_u16(s, end + 2) as usize;
            if have < 4 + len {
                return Packet::Missing(4 + len - have);
            }
            Packet::Packet(host, read_u16(s, end), end + 4, end + 4 + len)
        },
        HostRead::UnknownType => Packet::Stop,
        HostRead::BadDomain(_) => Packet::Stop,
    }
}

/// Where the next datagram stands after one that ended at `end`: there, or at the front of a
/// buffer that was given back up to there.
pub fn finish_packet(buf: &mut BytesMut, end: usize) -> (r: usize)
    requires
        end <= buffer_view(*old(buf)).len(),
    ensures
        r <= buffer_view(*final(buf)).len(),
        buffer_view(*final(buf)).skip(r as int) == buffer_view(*old(buf)).skip(end as int),
        end <= COMPACT_LIMIT ==> r == end && buffer_view(*final(buf)) == buffer_view(*old(buf)),
        end > COMPACT_LIMIT ==> r == 0,
{
    if end > COMPACT_LIMIT {
        let _ = buffer_split_to(buf, end);
        assert(buffer_view(*buf).skip(0) =~= buffer_view(*buf));
        0
    } else {
        end
    }
}

/// A frame of a connection whose datagrams all have one destination. Of the length of the
/// payload the length field keeps the low sixteen bits.
pub open spec fn standard_frame(payload: Seq<u8>) -> Seq<u8> {
    be16(low16(payload.len())) + payload
}

/// Who sent a datagram, and where its payload starts: the far end behind a proxy, or else the
/// socket that it came from. Nothing for what a proxy should not send.
pub open spec fn origin(is_socks: bool, datagram: Seq<u8>, ip: Seq<u8>, port: u16) -> Option<
    (Seq<u8>, u16, nat),
> {
    if is_socks {
        match udp_sender(datagram) {
            Ok(p) => Some(p),
            Err(_) => None,
        }
    } else {
        Some((ip, port, 0))
    }
}

/// A datagram from outside as a frame for the connection, with the length of its payload.
/// Nothing if it is to be dropped.
pub fn downlink_frame(
    assoc: u16,
    is_socks: bool,
    datagram: &[u8],
    remote: &SocketAddress,
) -> (r: Option<(Bytes, usize)>)
    ensures
        match origin(is_socks, datagram@, remote.ip@, remote.port) {
            Some(o) => r matches Some(p) && bytes_view(p.0) == frame_bytes(
                assoc,
                HostView::Ip(o.0),
                o.1,
                datagram@.skip(o.2 as int),
            ) && p.1 == datagram@.len() - o.2,
            None => r is None,
        },
{
    let (ip, port, start): (IpAddress, u16, usize) = if is_socks {
        match parse_socks5_udp(datagram) {
            Ok(p) => p,
            Err(_) => {
                return None;
            },
        }
    } else {
        (remote.ip, remote.port, 0)
    };
    let payload: &[u8] = slice_subrange(datagram, start, datagram.len());
    assert(payload@ =~= datagram@.skip(start as int));
    let host: Host = Host::Ip(ip);
    Some((write_frame(assoc, &host, port, payload), payload.len()))
}

/// A datagram from outside as a frame for a connection with one destination, with the length
/// of its payload. Nothing if it is to be dropped.
pub fn downlink_standard(is_socks: bool, datagram: &[u8]) -> (r: Option<(Bytes, usize)>)
    ensures
        match origin(is_socks, datagram@, Seq::empty(), 0) {
            Some(o) => r matches Some(p) && bytes_view(p.0) == standard_frame(
                datagram@.skip(o.2 as int),
            ) && p.1 == datagram@.len() - o.2,
            None => r is None,
        },
{
    let start: usize = if is_socks {
        match parse_socks5_udp(datagram) {
            Ok(p) => p.2,
            Err(_) => {
                return None;
            },
        }
    } else {
        0
    };
    let payload: &[u8] = slice_subrange(datagram, start, datagram.len());
    assert(payload@ =~= datagram@.skip(start as int));
    let mut out: BytesMut = buffer_new();
    buffer_put_u16(&mut out, truncate_u16(payload.len()));
    buffer_put_slice(&mut out, payload);
    assert(buffer_view(out) =~= standard_frame(payload@));
    Some((buffer_freeze(out), payload.len()))
}

/// What is sent outside for a payload: wrapped for the proxy if there is one, and else as it
/// is. `literal` is the address that `host` spells, if it spells one.
pub fn uplink_datagram(
    is_socks: bool,
    host: &str,
    literal: Option<IpAddress>,
    port: u16,
    payload: &[u8],
) -> (r: Vec<u8>)
    ensures
        r@ == if is_socks {
            socks_datagram(host_of(host@, literal), port, payload@)
        } else {
            payload@
        },
{
    if is_socks {
        let mut out: Vec<u8> = Vec::new();
        wrap_socks5_udp_host(host, literal, port, payload, &mut out);
        out
    } else {
        slice_to_vec(payload)
    }
}

/// What became of a frame that was put into the queue of a connection.
#[derive(Debug, Clone, Copy, PartialEq, Eq)]
pub enum Queued {
    Taken,
    /// The queue is full; the frame is dropped.
    Full,
    /// The connection is gone.
    Closed,
}

/// What is done after a frame was put into the queue of a connection.
#[derive(Debug, Clone, Copy, PartialEq, Eq)]
pub enum AfterQueue {
    /// Count its payload as received.
    Count,
    /// Go on without counting it.
    GoOn,
    /// Nothing more.
    Stop,
}

/// What is done after a frame was put into the queue of a connection: only what the connection
/// takes is counted.
pub fn after_queue(q: Queued) -> (r: AfterQueue)
    ensures
        r == match q {
            Queued::Taken => AfterQueue::Count,
            Queued::Full => AfterQueue::GoOn,
            Queued::Closed => AfterQueue::Stop,
        },
{
    match q {
        Queued::Taken => AfterQueue::Count,
        Queued::Full => AfterQueue::GoOn,
        Queued::Closed => AfterQueue::Stop,
    }
}

impl UdpOutbound {
    /// The way out for datagrams, through a proxy and from a local address where they are
    /// given.
    pub fn new(outbound_proxy: Option<String>, bind_address: Option<String>) -> (r: UdpOutbound)
        ensures
            r == (UdpOutbound { outbound_proxy, bind_address }),
    {
        UdpOutbound { outbound_proxy, bind_address }
    }

    /// In which form the datagrams of a connection come.
    pub fn mode(dest_addr: &str, dest_port: u16) -> (r: UdpMode)
        ensures
            r == mode_of(dest_addr@, dest_port),
    {
        if same_text(dest_addr, "sp.packet-addr.v2fly.arpa") {
            UdpMode::PacketAddr
        } else if same_text(dest_addr, "0.0.0.0") && dest_port == 0 {
            UdpMode::Multiplexed
        } else {
            UdpMode::Standard
        }
    }
}

/// The form of the datagrams follows from the destination: one name means datagrams with their
/// own addresses, `0.0.0.0` with port zero means associations, and everything else is the one
/// destination of all datagrams.
pub proof fn law_form_by_destination(dest_addr: Seq<char>, dest_port: u16)
    ensures
        mode_of(dest_addr, dest_port) == UdpMode::PacketAddr <==> dest_addr
            == "sp.packet-addr.v2fly.arpa"@,
        mode_of(dest_addr, dest_port) == UdpMode::Multiplexed <==> dest_addr == "0.0.0.0"@
            && dest_port == 0,
{
    reveal_strlit("sp.packet-addr.v2fly.arpa");
    reveal_strlit("0.0.0.0");
    assert("sp.packet-addr.v2fly.arpa"@[0] != "0.0.0.0"@[0]);
}

/// A datagram with its own address lies on the wire as the protocol has it: host, port, length
/// of the payload, payload. One of a stream with one destination is the length and the payload.
pub proof fn law_datagram_layout(host: HostView, port: u16, payload: Seq<u8>)
    requires
        host_fits(host),
        payload.len() <= 65535,
    ensures
        ({
            let s = packet_bytes(host, port, payload);
            let h = host_bytes(host, 3, 4);
            let at = h.len() as int;
            &&& s.take(at) == h
            &&& s[at] * 256 + s[at + 1] == port
            &&& s[at + 2] * 256 + s[at + 3] == payload.len()
            &&& s.skip(at + 4) == payload
        }),
        ({
            let s = standard_frame(payload);
            &&& s[0] * 256 + s[1] == payload.len()
            &&& s.skip(2) == payload
        }),
{
    let s = packet_bytes(host, port, payload);
    let h = host_bytes(host, 3, 4);
    let at = h.len() as int;
    let n = payload.len() as u16;
    assert(s.take(at) =~= h);
    assert(s[at] == be16(port)[0] && s[at + 1] == be16(port)[1]);
    assert(s[at + 2] == be16(n)[0] && s[at + 3] == be16(n)[1]);
    assert(s.skip(at + 4) =~= payload);
    let t = standard_frame(payload);
    assert(t[0] == be16(low16(payload.len()))[0] && t[1] == be16(low16(payload.len()))[1]);
    assert(t.skip(2) =~= payload);
}

/// Without a proxy the sender of a datagram is who sent it, and all of it is payload; with one,
/// the sender and the payload are those behind the header of the proxy.
pub proof fn law_sender_of_datagram(datagram: Seq<u8>, ip: Seq<u8>, port: u16)
    ensures
        origin(false, datagram, ip, port) == Some((ip, port, 0nat)),
        origin(true, datagram, ip, port) == match udp_sender(datagram) {
            Ok(p) => Some(p),
            Err(_) => None,
        },
{
}

/// What was read of a datagram is told as it was read.
pub proof fn law_packet_is_told_as_read(n: usize, host: Host, port: u16, start: usize, end: usize)
    ensures
        Packet::Missing(n)@ == PacketView::Missing(n as nat),
        Packet::Stop@ == PacketView::Stop,
        Packet::Packet(host, port, start, end)@ == PacketView::Packet(
            host@,
            port,
            start as nat,
            end as nat,
        ),
{
}

} // verus!
