//! The frames in which datagrams travel through a stream: a length, the number of an
//! association, the host and the port at the other end, and the payload.

use crate::net::{
    host_at, host_bytes, host_fits, lemma_host_read, read_host, Host, HostRead, HostReadView,
    HostView, SOCKS_DOMAIN, SOCKS_V6, TYPE_V4,
};
use crate::wire::{
    be16, buffer_chunk, buffer_freeze, buffer_new, buffer_put_slice, buffer_put_u16,
    buffer_put_u8, buffer_view, bytes_view, lemma_u16_between, low16, read_u16, truncate_sum,
    truncate_u8, u16_at,
};
use bytes::{Bytes, BytesMut};
use vstd::prelude::*;
use vstd::string::*;
use vstd::utf8::*;

verus! {

/// The largest length that a frame can tell.
pub const FRAME_LIMIT: u16 = 65535;

/// A host in SOCKS5 form, a port and a payload: what stands behind the number of the
/// association in a frame, and behind the first three bytes in a SOCKS5 datagram.
pub open spec fn addressed(host: HostView, port: u16, payload: Seq<u8>) -> Seq<u8> {
    host_bytes(host, SOCKS_DOMAIN, SOCKS_V6) + be16(port) + payload
}

/// A frame. Of its length the length field keeps the low sixteen bits.
pub open spec fn frame_bytes(assoc: u16, host: HostView, port: u16, payload: Seq<u8>) -> Seq<u8> {
    let body = be16(assoc) + addressed(host, port, payload);
    be16(low16(body.len())) + body
}

/// Whether a frame can tell its length.
pub open spec fn frame_fits(host: HostView, payload: Seq<u8>) -> bool {
    host_fits(host) && 4 + host_bytes(host, SOCKS_DOMAIN, SOCKS_V6).len() + payload.len()
        <= FRAME_LIMIT
}

/// What the first four bytes of a frame say: how many bytes follow, and the number of the
/// association. Nothing if the length does not even cover that number.
pub open spec fn frame_head(header: Seq<u8>) -> Option<(nat, u16)> {
    if u16_at(header, 0) < 2 {
        None
    } else {
        Some(((u16_at(header, 0) - 2) as nat, u16_at(header, 2)))
    }
}

/// The host, the port and where the payload starts, if the bytes begin with a host and a port.
pub open spec fn addressed_parts(s: Seq<u8>, at: int) -> Option<(HostView, u16, nat)> {
    if s.len() <= at {
        None
    } else {
        match host_at(s, at, SOCKS_DOMAIN, SOCKS_V6, 2) {
            HostReadView::Found(host, end) => Some((host, u16_at(s, end as int), end + 2)),
            _ => None,
        }
    }
}

/// Where the payload starts behind a host of any kind and a port, if there is room for both.
/// Whether a name is text does not matter here.
pub open spec fn payload_start(s: Seq<u8>) -> Option<nat> {
    if s.len() == 0 {
        None
    } else {
        let start: int = if s[0] == TYPE_V4 {
            7
        } else if s[0] == SOCKS_DOMAIN {
            if s.len() < 2 {
                4
            } else {
                4 + s[1]
            }
        } else if s[0] == SOCKS_V6 {
            19
        } else {
            s.len() as int + 1
        };
        if start <= s.len() {
            Some(start as nat)
        } else {
            None
        }
    }
}

/// A host, a port and a payload are read back as they were written, wherever they stand.
pub proof fn lemma_addressed_read(front: Seq<u8>, host: HostView, port: u16, payload: Seq<u8>)
    requires
        host_fits(host),
    ensures
        ({
            let s = front + addressed(host, port, payload);
            let start = front.len() + host_bytes(host, SOCKS_DOMAIN, SOCKS_V6).len() + 2;
            &&& addressed_parts(s, front.len() as int) == Some((host, port, start))
            &&& s.skip(start as int) == payload
        }),
{
    let h = host_bytes(host, SOCKS_DOMAIN, SOCKS_V6);
    let s = front + addressed(host, port, payload);
    let back = be16(port) + payload;
    assert(s =~= front + h + back);
    assert(s.take(s.len() as int) =~= s);
    lemma_host_read(front, host, back, SOCKS_DOMAIN, SOCKS_V6, 2, s.len() as int);
    assert(s =~= (front + h) + be16(port) + payload);
    lemma_u16_between(front + h, port, payload);
    assert(s.skip((front + h).len() as int + 2) =~= payload);
}

/// A frame that was written is read back: its first four bytes give its length and the
/// association, the rest gives the host, the port and the payload.
pub proof fn law_frame_round_trip(assoc: u16, host: HostView, port: u16, payload: Seq<u8>)
    requires
        frame_fits(host, payload),
    ensures
        ({
            let f = frame_bytes(assoc, host, port, payload);
            let body = f.skip(4);
            &&& frame_head(f.take(4)) == Some((body.len(), assoc))
            &&& addressed_parts(body, 0) matches Some(p) && p.0 == host && p.1 == port
                && body.skip(p.2 as int) == payload
        }),
{
    let a = addressed(host, port, payload);
    let f = frame_bytes(assoc, host, port, payload);
    let total = low16((be16(assoc) + a).len());
    assert(f =~= be16(total) + be16(assoc) + a);
    lemma_u16_between(Seq::empty(), total, be16(assoc) + a);
    assert(f =~= Seq::<u8>::empty() + be16(total) + (be16(assoc) + a));
    lemma_u16_between(be16(total), assoc, a);
    assert(f.take(4)[0] == f[0] && f.take(4)[1] == f[1] && f.take(4)[2] == f[2] && f.take(4)[3]
        == f[3]);
    assert(f.skip(4) =~= a);
    lemma_addressed_read(Seq::empty(), host, port, payload);
    assert(Seq::<u8>::empty() + a =~= a);
}

/// Relaying a frame needs no look at what it holds: behind three zero bytes its body is the
/// SOCKS5 datagram with the same host, port and payload.
pub proof fn law_frame_relays(assoc: u16, host: HostView, port: u16, payload: Seq<u8>)
    requires
        frame_fits(host, payload),
    ensures
        ({
            let body = frame_bytes(assoc, host, port, payload).skip(4);
            &&& relay(body) == seq![0u8, 0u8, 0u8] + addressed(host, port, payload)
            &&& payload_start(body) matches Some(start) && body.skip(start as int) == payload
        }),
{
    law_frame_round_trip(assoc, host, port, payload);
    let a = addressed(host, port, payload);
    let f = frame_bytes(assoc, host, port, payload);
    assert(f.skip(4) =~= a);
    let h = host_bytes(host, SOCKS_DOMAIN, SOCKS_V6);
    assert(a[0] == h[0]);
    match host {
        HostView::Ip(o) => {},
        HostView::Domain(d) => {
            assert(a[1] == h[1]);
        },
    }
    assert(a.skip(h.len() as int + 2) =~= payload);
}

/// A SOCKS5 datagram made of the body of a frame.
pub open spec fn relay(body: Seq<u8>) -> Seq<u8> {
    seq![0u8, 0u8, 0u8] + body
}

/// Appends a host in SOCKS5 form.
fn put_host(b: &mut BytesMut, host: &Host)
    ensures
        buffer_view(*final(b)) == buffer_view(*old(b)) + host_bytes(
            host@,
            SOCKS_DOMAIN,
            SOCKS_V6,
        ),
{
    let ghost start = buffer_view(*b);
    match host {
        Host::Ip(ip) => {
            buffer_put_u8(
                b,
                if ip.is_ipv4() {
                    TYPE_V4
                } else {
                    SOCKS_V6
                },
            );
            buffer_put_slice(b, ip.octets());
        },
        Host::Domain(d) => {
            let name: &[u8] = d.as_str().as_bytes();
            buffer_put_u8(b, SOCKS_DOMAIN);
            buffer_put_u8(b, truncate_u8(name.len()));
            buffer_put_slice(b, name);
        },
    }
    assert(buffer_view(*b) =~= start + host_bytes(host@, SOCKS_DOMAIN, SOCKS_V6));
}

/// Writes a frame.
pub fn write_frame(assoc: u16, host: &Host, port: u16, payload: &[u8]) -> (r: Bytes)
    ensures
        bytes_view(r) == frame_bytes(assoc, host@, port, payload@),
{
    let mut header = buffer_new();
    buffer_put_u16(&mut header, assoc);
    put_host(&mut header, host);
    buffer_put_u16(&mut header, port);
    let mut out = buffer_new();
    let head: &[u8] = buffer_chunk(&header);
    buffer_put_u16(&mut out, truncate_sum(head.len(), payload.len()));
    buffer_put_slice(&mut out, head);
    buffer_put_slice(&mut out, payload);
    assert((head@ + payload@) =~= be16(assoc) + addressed(host@, port, payload@));
    assert(buffer_view(out) =~= frame_bytes(assoc, host@, port, payload@));
    buffer_freeze(out)
}

/// What the first four bytes of a frame say.
pub fn read_frame_head(header: &[u8; 4]) -> (r: Option<(usize, u16)>)
    ensures
        match r {
            Some(p) => frame_head(header@) == Some((p.0 as nat, p.1)),
            None => frame_head(header@) is None,
        },
{
    let s: &[u8] = header.as_slice();
    let total: u16 = read_u16(s, 0);
    if total < 2 {
        return None;
    }
    Some(((total - 2) as usize, read_u16(s, 2)))
}

/// The host, the port and where the payload starts, if the bytes begin with a host and a port.
pub fn read_addressed(s: &[u8], at: usize) -> (r: Option<(Host, u16, usize)>)
    ensures
        match r {
            Some(p) => addressed_parts(s@, at as int) == Some((p.0@, p.1, p.2 as nat))
                && p.2 <= s@.len(),
            None => addressed_parts(s@, at as int) is None,
        },
{
    if at >= s.len() {
        return None;
    }
    match read_host(s, at, SOCKS_DOMAIN, SOCKS_V6, 2) {
        HostRead::Found(host, end) => {
            let port: u16 = read_u16(s, end);
            Some((host, port, end + 2))
        },
        _ => None,
    }
}

/// Where the payload starts behind a host and a port.
pub fn find_payload(s: &[u8]) -> (r: Option<usize>)
    ensures
        match r {
            Some(n) => payload_start(s@) == Some(n as nat),
            None => payload_start(s@) is None,
        },
{
    let n: usize = s.len();
    if n == 0 {
        return None;
    }
    let kind: u8 = s[0];
    let start: usize = if kind == TYPE_V4 {
        7
    } else if kind == SOCKS_DOMAIN {
        if n < 2 {
            4
        } else {
            4 + s[1] as usize
        }
    } else if kind == SOCKS_V6 {
        19
    } else {
        return None;
    };
    if start <= n {
        Some(start)
    } else {
        None
    }
}

/// A frame from the other end as the SOCKS5 datagram for the client, with the length of its
/// payload. Nothing if the frame has no room for a host and a port.
pub fn relay_frame(body: &[u8]) -> (r: Option<(Vec<u8>, usize)>)
    ensures
        match payload_start(body@) {
            Some(start) => r matches Some(p) && p.0@ == relay(body@) && p.1 == body@.len() - start,
            None => r is None,
        },
{
    match find_payload(body) {
        Some(start) => {
            let mut out: Vec<u8> = Vec::new();
            out.push(0);
            out.push(0);
            out.push(0);
            out.extend_from_slice(body);
            assert(out@ =~= relay(body@));
            Some((out, body.len() - start))
        },
        None => None,
    }
}

/// A frame lies on the wire as the protocol has it: its length without the length field, the
/// association, the host, the port and the payload.
pub proof fn law_frame_layout(assoc: u16, host: HostView, port: u16, payload: Seq<u8>)
    requires
        frame_fits(host, payload),
    ensures
        ({
            let f = frame_bytes(assoc, host, port, payload);
            let h = host_bytes(host, 3, 4);
            let at = 4 + h.len() as int;
            &&& f.len() == at + 2 + payload.len()
            &&& f[0] * 256 + f[1] == f.len() - 2
            &&& f[2] * 256 + f[3] == assoc
            &&& f.subrange(4, at) == h
            &&& f[at] * 256 + f[at + 1] == port
            &&& f.skip(at + 2) == payload
        }),
{
    let f = frame_bytes(assoc, host, port, payload);
    let h = host_bytes(host, 3, 4);
    let at = 4 + h.len() as int;
    let body = be16(assoc) + addressed(host, port, payload);
    let n = low16(body.len());
    assert(f[0] == be16(n)[0] && f[1] == be16(n)[1]);
    assert(f[2] == be16(assoc)[0] && f[3] == be16(assoc)[1]);
    assert(f.subrange(4, at) =~= h);
    assert(f[at] == be16(port)[0] && f[at + 1] == be16(port)[1]);
    assert(f.skip(at + 2) =~= payload);
}

/// A frame from the other end is relayed if it has room for its host and its port, whatever
/// these are: behind four octets, behind sixteen, or behind a name of the length that is given.
/// Others are dropped.
pub proof fn law_relayed_if_there_is_room(body: Seq<u8>)
    ensures
        body.len() > 0 && body[0] == 1 ==> payload_start(body) == if body.len() >= 7 {
            Some(7nat)
        } else {
            None
        },
        body.len() > 0 && body[0] == 4 ==> payload_start(body) == if body.len() >= 19 {
            Some(19nat)
        } else {
            None
        },
        body.len() > 1 && body[0] == 3 ==> payload_start(body) == if body.len() >= 4 + body[1] {
            Some((4 + body[1]) as nat)
        } else {
            None
        },
        body.len() == 0 || body.len() == 1 ==> payload_start(body) is None,
        body.len() > 0 && body[0] != 1 && body[0] != 3 && body[0] != 4 ==> payload_start(body)
            is None,
        relay(body).len() == 3 + body.len() && relay(body).take(3) == seq![0u8, 0u8, 0u8] && relay(
            body,
        ).skip(3) == body,
{
    assert(relay(body).take(3) =~= seq![0u8, 0u8, 0u8]);
    assert(relay(body).skip(3) =~= body);
}

/// The first bytes of a frame tell its length and its association; a length that does not cover
/// the association is none.
pub proof fn law_frame_head(header: Seq<u8>)
    requires
        header.len() == 4,
    ensures
        ({
            let total = header[0] * 256 + header[1];
            &&& total < 2 ==> frame_head(header) is None
            &&& total >= 2 ==> frame_head(header) == Some(
                ((total - 2) as nat, (header[2] * 256 + header[3]) as u16),
            )
        }),
{
}

/// A host and a port are found exactly if they are all there and a name is UTF-8.
pub proof fn law_target_is_found(s: Seq<u8>, at: int)
    requires
        0 <= at,
    ensures
        ({
            let r = addressed_parts(s, at);
            let end = if s[at] == 1 {
                at + 5
            } else if s[at] == 4 {
                at + 17
            } else {
                at + 2 + s[at + 1]
            };
            &&& s.len() <= at ==> r is None
            &&& s.len() > at && s[at] != 1 && s[at] != 3 && s[at] != 4 ==> r is None
            &&& s.len() > at && s[at] == 3 && s.len() < at + 2 ==> r is None
            &&& s.len() > at && (s[at] == 1 || s[at] == 4 || (s[at] == 3 && s.len() >= at + 2))
                ==> {
                let name = s.subrange(at + 2, end);
                if s.len() < end + 2 || (s[at] == 3 && !valid_utf8(name)) {
                    r is None
                } else {
                    r == Some(
                        (
                            if s[at] == 3 {
                                HostView::Domain(decode_utf8(name))
                            } else {
                                HostView::Ip(s.subrange(at + 1, end))
                            },
                            (s[end] * 256 + s[end + 1]) as u16,
                            (end + 2) as nat,
                        ),
                    )
                }
            }
        }),
{
}

/// Every payload fits a frame that leaves room for the association, the host and the port.
pub proof fn law_payloads_that_fit(host: HostView, payload: Seq<u8>)
    ensures
        frame_fits(host, payload) <==> host_fits(host) && 2 + host_bytes(host, 3, 4).len() + 2
            + payload.len() <= 65535,
{
}

} // verus!
