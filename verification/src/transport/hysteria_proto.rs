//! The messages of the Hysteria 2 protocol: variable-length numbers, the request that opens
//! a TCP stream and its answer, and the UDP message that travels in a datagram.

use crate::text::text_from_utf8;
use crate::wire::{
    be_value, buffer_freeze, buffer_new, buffer_put_slice, buffer_put_u16,
    buffer_put_u32, buffer_put_u8, bytes_advance, bytes_chunk, bytes_copy_to_slice,
    bytes_get_u16, bytes_get_u32, bytes_get_u8, bytes_remaining, bytes_view,
    buffer_view,
};
use bytes::{Bytes, BytesMut};
use vstd::prelude::*;
use vstd::string::*;
use vstd::utf8::*;

verus! {

/// The number that opens a TCP request.
pub const TCP_REQUEST_ID: u64 = 0x401;

/// Numbers from here on do not fit a varint.
pub const VARINT_LIMIT: u64 = 0x4000_0000_0000_0000;

/// How many bytes a varint takes, told by the two high bits of its first byte.
pub open spec fn varint_width(first: u8) -> nat {
    if first < 64 {
        1
    } else if first < 128 {
        2
    } else if first < 192 {
        4
    } else {
        8
    }
}

/// The varint at the front of `s`: its value and its width.
pub open spec fn varint_at_front(s: Seq<u8>) -> Option<(u64, nat)> {
    if s.len() == 0 || s.len() < varint_width(s[0]) {
        None
    } else {
        let w = varint_width(s[0]);
        Some((be_value(seq![(s[0] % 64) as u8] + s.subrange(1, w as int)) as u64, w))
    }
}

/// The bytes of a varint. Of a number that does not fit, the low 62 bits are kept.
pub open spec fn varint_bytes(v: u64) -> Seq<u8> {
    if v < 64 {
        seq![v as u8]
    } else if v < 16384 {
        seq![(64 + v / 0x100) as u8, (v % 0x100) as u8]
    } else if v < 1073741824 {
        seq![
            (128 + v / 0x100_0000) as u8,
            (v / 0x1_0000 % 0x100) as u8,
            (v / 0x100 % 0x100) as u8,
            (v % 0x100) as u8,
        ]
    } else {
        seq![
            (192 + v / 0x100_0000_0000_0000 % 64) as u8,
            (v / 0x1_0000_0000_0000 % 0x100) as u8,
            (v / 0x100_0000_0000 % 0x100) as u8,
            (v / 0x1_0000_0000 % 0x100) as u8,
            (v / 0x100_0000 % 0x100) as u8,
            (v / 0x1_0000 % 0x100) as u8,
            (v / 0x100 % 0x100) as u8,
            (v % 0x100) as u8,
        ]
    }
}

/// The largest value that `i` bytes of a varint can reach, plus one.
spec fn varint_bound(i: nat) -> nat
    decreases i,
{
    if i <= 1 {
        64
    } else {
        256 * varint_bound((i - 1) as nat)
    }
}

/// A varint is read back as it was written, whatever follows it.
pub proof fn law_varint_round_trip(v: u64, rest: Seq<u8>)
    requires
        v < VARINT_LIMIT,
    ensures
        varint_at_front(varint_bytes(v) + rest) == Some((v, varint_bytes(v).len())),
{
    let b = varint_bytes(v);
    let s = b + rest;
    let w = varint_width(s[0]);
    assert(s[0] == b[0]);
    assert(w == b.len());
    let t = seq![(s[0] % 64) as u8] + s.subrange(1, w as int);
    assert(t =~= seq![(b[0] % 64) as u8] + b.subrange(1, w as int));
    if v < 64 {
        assert(t =~= seq![v as u8]);
        lemma_be_value_push(t);
        assert(t.drop_last() =~= Seq::<u8>::empty());
    } else if v < 16384 {
        let a = seq![(v / 0x100) as u8];
        lemma_be_value_push(t);
        lemma_be_value_push(a);
        assert(t.drop_last() =~= a);
        assert(a.drop_last() =~= Seq::<u8>::empty());
    } else if v < 1073741824 {
        lemma_be_value_four(t);
        lemma_digits_four(v);
    } else {
        lemma_be_value_eight(t);
        lemma_digits_eight(v);
    }
}

proof fn lemma_digits_four(v: u64)
    requires
        v < 1073741824,
    ensures
        v / 0x100_0000 < 64,
        v == v / 0x100_0000 * 0x100_0000 + v / 0x1_0000 % 0x100 * 0x1_0000 + v / 0x100 % 0x100
            * 0x100 + v % 0x100,
{
}

proof fn lemma_digits_eight(v: u64)
    by (bit_vector)
    requires
        v < 0x4000_0000_0000_0000,
    ensures
        v / 0x100_0000_0000_0000 < 64,
        v == v / 0x100_0000_0000_0000 * 0x100_0000_0000_0000 + v / 0x1_0000_0000_0000 % 0x100
            * 0x1_0000_0000_0000 + v / 0x100_0000_0000 % 0x100 * 0x100_0000_0000 + v
            / 0x1_0000_0000 % 0x100 * 0x1_0000_0000 + v / 0x100_0000 % 0x100 * 0x100_0000 + v
            / 0x1_0000 % 0x100 * 0x1_0000 + v / 0x100 % 0x100 * 0x100 + v % 0x100,
{
}

proof fn lemma_be_value_push(t: Seq<u8>)
    requires
        t.len() > 0,
    ensures
        be_value(t) == be_value(t.drop_last()) * 256 + t.last(),
{
}

proof fn lemma_be_value_four(t: Seq<u8>)
    requires
        t.len() == 4,
    ensures
        be_value(t) == t[0] * 0x100_0000 + t[1] * 0x1_0000 + t[2] * 0x100 + t[3],
{
    let a = t.drop_last();
    let b = a.drop_last();
    let c = b.drop_last();
    assert(c.drop_last() =~= Seq::<u8>::empty());
    lemma_be_value_push(t);
    lemma_be_value_push(a);
    lemma_be_value_push(b);
    lemma_be_value_push(c);
}

proof fn lemma_be_value_eight(t: Seq<u8>)
    requires
        t.len() == 8,
    ensures
        be_value(t) == t[0] * 0x100_0000_0000_0000 + t[1] * 0x1_0000_0000_0000 + t[2]
            * 0x100_0000_0000 + t[3] * 0x1_0000_0000 + t[4] * 0x100_0000 + t[5] * 0x1_0000 + t[6]
            * 0x100 + t[7],
{
    let a = t.drop_last();
    let b = a.drop_last();
    let c = b.drop_last();
    let d = c.drop_last();
    lemma_be_value_push(t);
    lemma_be_value_push(a);
    lemma_be_value_push(b);
    lemma_be_value_push(c);
    lemma_be_value_four(d);
}

/// Takes a varint off the front; leaves the buffer alone when there is none.
pub fn read_varint(buf: &mut Bytes) -> (r: Option<u64>)
    ensures
        match varint_at_front(bytes_view(*old(buf))) {
            Some(p) => r == Some(p.0) && bytes_view(*final(buf))
                == bytes_view(*old(buf)).skip(p.1 as int),
            None => r is None && bytes_view(*final(buf)) == bytes_view(
                *old(buf),
            ),
        },
{
    let ghost s = bytes_view(*buf);
    if bytes_remaining(buf) == 0 {
        return None;
    }
    let first: u8 = bytes_chunk(buf)[0];
    let len: usize = if first < 64 {
        1
    } else if first < 128 {
        2
    } else if first < 192 {
        4
    } else {
        8
    };
    if bytes_remaining(buf) < len {
        return None;
    }
    let mut val: u64 = (first % 64) as u64;
    bytes_advance(buf, 1);
    let ghost t = seq![(s[0] % 64) as u8] + s.subrange(1, len as int);
    let mut i: usize = 1;
    proof {
        assert(t.take(1) =~= seq![(s[0] % 64) as u8]);
        assert(t.take(1).drop_last() =~= Seq::<u8>::empty());
        reveal_with_fuel(be_value, 2);
        assert(val == be_value(t.take(1)));
    }
    while i < len
        invariant
            1 <= i <= len,
            len <= 8,
            len <= s.len(),
            t == seq![(s[0] % 64) as u8] + s.subrange(1, len as int),
            bytes_view(*buf) == s.skip(i as int),
            val == be_value(t.take(i as int)),
            val < varint_bound(i as nat),
        decreases len - i,
    {
        proof {
            reveal_with_fuel(varint_bound, 9);
            assert(t.take(i + 1).drop_last() =~= t.take(i as int));
            assert(t.take(i + 1).last() == s[i as int]);
            assert(s.skip(i as int).skip(1) =~= s.skip(i + 1));
        }
        let b: u8 = bytes_get_u8(buf);
        val = val * 256 + b as u64;
        i = i + 1;
    }
    assert(t.take(len as int) =~= t);
    Some(val)
}

/// Appends a varint.
pub fn write_varint(buf: &mut BytesMut, val: u64)
    ensures
        buffer_view(*final(buf)) == buffer_view(*old(buf))
            + varint_bytes(val),
{
    let ghost s = buffer_view(*buf);
    if val < 64 {
        buffer_put_u8(buf, val as u8);
    } else if val < 16384 {
        buffer_put_u8(buf, (64 + val / 0x100) as u8);
        buffer_put_u8(buf, (val % 0x100) as u8);
    } else if val < 1073741824 {
        buffer_put_u8(buf, (128 + val / 0x100_0000) as u8);
        buffer_put_u8(buf, (val / 0x1_0000 % 0x100) as u8);
        buffer_put_u8(buf, (val / 0x100 % 0x100) as u8);
        buffer_put_u8(buf, (val % 0x100) as u8);
    } else {
        buffer_put_u8(buf, (192 + val / 0x100_0000_0000_0000 % 64) as u8);
        buffer_put_u8(buf, (val / 0x1_0000_0000_0000 % 0x100) as u8);
        buffer_put_u8(buf, (val / 0x100_0000_0000 % 0x100) as u8);
        buffer_put_u8(buf, (val / 0x1_0000_0000 % 0x100) as u8);
        buffer_put_u8(buf, (val / 0x100_0000 % 0x100) as u8);
        buffer_put_u8(buf, (val / 0x1_0000 % 0x100) as u8);
        buffer_put_u8(buf, (val / 0x100 % 0x100) as u8);
        buffer_put_u8(buf, (val % 0x100) as u8);
    }
    assert(buffer_view(*buf) =~= s + varint_bytes(val));
}

/// A length field that is read as a `u64` and used as a size.
pub open spec fn size_of(v: u64) -> usize {
    v as usize
}

/// What a TCP request at the front of `s` says, and what is left behind it. Where there is no
/// request the rest is what remains once the fields before the failure are gone.
pub open spec fn tcp_request_at_front(s: Seq<u8>) -> (Option<Seq<char>>, Seq<u8>) {
    match varint_at_front(s) {
        None => (None, s),
        Some(id) => {
            let s1 = s.skip(id.1 as int);
            if id.0 != TCP_REQUEST_ID {
                (None, s1)
            } else {
                match varint_at_front(s1) {
                    None => (None, s1),
                    Some(len) => {
                        let s2 = s1.skip(len.1 as int);
                        let n = size_of(len.0) as int;
                        if s2.len() < n {
                            (None, s2)
                        } else if !valid_utf8(s2.take(n)) {
                            (None, s2.skip(n))
                        } else {
                            match padding_at_front(s2.skip(n)) {
                                (true, rest) => (Some(decode_utf8(s2.take(n))), rest),
                                (false, rest) => (None, rest),
                            }
                        }
                    },
                }
            }
        },
    }
}

/// Whether a length and that many padding bytes stand at the front of `s`, and what is left.
pub open spec fn padding_at_front(s: Seq<u8>) -> (bool, Seq<u8>) {
    match varint_at_front(s) {
        None => (false, s),
        Some(pad) => {
            let t = s.skip(pad.1 as int);
            if t.len() < size_of(pad.0) {
                (false, t)
            } else {
                (true, t.skip(size_of(pad.0) as int))
            }
        },
    }
}

/// The bytes of a TCP request.
pub open spec fn tcp_request_bytes(address: Seq<char>) -> Seq<u8> {
    varint_bytes(TCP_REQUEST_ID) + varint_bytes(encode_utf8(address).len() as u64) + encode_utf8(
        address,
    ) + varint_bytes(0)
}

/// A request to open a TCP stream to `host:port`.
#[derive(Debug, Clone)]
pub struct TCPRequest {
    pub address: String,
}

impl TCPRequest {
    /// Takes a request off the front of the buffer.
    pub fn parse(buf: &mut Bytes) -> (r: Option<Self>)
        ensures
            r is Some == tcp_request_at_front(bytes_view(*old(buf))).0 is Some,
            r matches Some(q) ==> tcp_request_at_front(bytes_view(*old(buf))).0 == Some(
                q.address@,
            ),
            bytes_view(*final(buf)) == tcp_request_at_front(bytes_view(*old(buf))).1,
    {
        let req_id: u64 = match read_varint(buf) {
            Some(v) => v,
            None => return None,
        };
        if req_id != TCP_REQUEST_ID {
            return None;
        }
        let addr_len: usize = match read_varint(buf) {
            Some(v) => v as usize,
            None => return None,
        };
        if bytes_remaining(buf) < addr_len {
            return None;
        }
        let mut addr_bytes: Vec<u8> = vec![0u8; addr_len];
        bytes_copy_to_slice(buf, &mut addr_bytes);
        let address: String = match text_from_utf8(addr_bytes) {
            Some(s) => s,
            None => return None,
        };
        let padding_len: usize = match read_varint(buf) {
            Some(v) => v as usize,
            None => return None,
        };
        if bytes_remaining(buf) < padding_len {
            return None;
        }
        bytes_advance(buf, padding_len);
        Some(TCPRequest { address })
    }

    /// The bytes of the request, without padding.
    pub fn serialize(&self) -> (r: Bytes)
        ensures
            bytes_view(r) == tcp_request_bytes(self.address@),
    {
        let mut buf: BytesMut = buffer_new();
        let bytes: &[u8] = self.address.as_str().as_bytes();
        write_varint(&mut buf, TCP_REQUEST_ID);
        write_varint(&mut buf, bytes.len() as u64);
        buffer_put_slice(&mut buf, bytes);
        write_varint(&mut buf, 0);
        assert(buffer_view(buf) =~= tcp_request_bytes(self.address@));
        buffer_freeze(buf)
    }
}

/// What a TCP response at the front of `s` says, and what is left behind it.
pub open spec fn tcp_response_at_front(s: Seq<u8>) -> (Option<(u8, Option<Seq<char>>)>, Seq<u8>) {
    if s.len() == 0 {
        (None, s)
    } else {
        let s1 = s.skip(1);
        if s[0] == 0 {
            (Some((0u8, None)), s1)
        } else {
            match varint_at_front(s1) {
                None => (None, s1),
                Some(len) => {
                    let s2 = s1.skip(len.1 as int);
                    let n = size_of(len.0) as int;
                    if s2.len() < n {
                        (None, s2)
                    } else {
                        let message = if valid_utf8(s2.take(n)) {
                            Some(decode_utf8(s2.take(n)))
                        } else {
                            None
                        };
                        (Some((s[0], message)), s2.skip(n))
                    }
                },
            }
        }
    }
}

/// The bytes of a TCP response. A message travels only with a status other than zero.
pub open spec fn tcp_response_bytes(status: u8, message: Option<Seq<char>>) -> Seq<u8> {
    if status == 0 {
        seq![status]
    } else {
        let text = match message {
            Some(m) => encode_utf8(m),
            None => Seq::<u8>::empty(),
        };
        seq![status] + varint_bytes(text.len() as u64) + text
    }
}

/// The text inside an optional string.
pub open spec fn text_of(s: Option<String>) -> Option<Seq<char>> {
    match s {
        Some(t) => Some(t@),
        None => None,
    }
}

/// The answer to a TCP request: status zero when the stream is open.
#[derive(Debug, Clone)]
pub struct TCPResponse {
    pub status: u8,
    pub error_message: Option<String>,
}

impl TCPResponse {
    /// Takes a response off the front of the buffer. A message that is not UTF-8 is dropped.
    pub fn parse(buf: &mut Bytes) -> (r: Option<Self>)
        ensures
            r is Some == tcp_response_at_front(bytes_view(*old(buf))).0 is Some,
            r matches Some(q) ==> tcp_response_at_front(bytes_view(*old(buf))).0 == Some(
                (q.status, text_of(q.error_message)),
            ),
            bytes_view(*final(buf)) == tcp_response_at_front(bytes_view(*old(buf))).1,
    {
        if bytes_remaining(buf) == 0 {
            return None;
        }
        let status: u8 = bytes_get_u8(buf);
        if status == 0 {
            return Some(TCPResponse { status, error_message: None });
        }
        let msg_len: usize = match read_varint(buf) {
            Some(v) => v as usize,
            None => return None,
        };
        if bytes_remaining(buf) < msg_len {
            return None;
        }
        let mut msg_bytes: Vec<u8> = vec![0u8; msg_len];
        bytes_copy_to_slice(buf, &mut msg_bytes);
        let error_message: Option<String> = text_from_utf8(msg_bytes);
        Some(TCPResponse { status, error_message })
    }

    /// The bytes of the response.
    pub fn serialize(&self) -> (r: Bytes)
        ensures
            bytes_view(r) == tcp_response_bytes(self.status, text_of(self.error_message)),
    {
        let mut buf: BytesMut = buffer_new();
        buffer_put_u8(&mut buf, self.status);
        if self.status != 0 {
            if let Some(msg) = &self.error_message {
                let bytes: &[u8] = msg.as_str().as_bytes();
                write_varint(&mut buf, bytes.len() as u64);
                buffer_put_slice(&mut buf, bytes);
            } else {
                write_varint(&mut buf, 0);
            }
        }
        assert(buffer_view(buf) =~= tcp_response_bytes(self.status, text_of(self.error_message)));
        buffer_freeze(buf)
    }
}

/// What a UDP message says.
pub struct UDPMessageView {
    pub session_id: u32,
    pub packet_id: u16,
    pub fragment_id: u8,
    pub fragment_count: u8,
    pub address: Seq<char>,
    pub payload: Seq<u8>,
}

/// What a datagram says as a UDP message: everything behind the address is payload.
pub open spec fn udp_message_in(s: Seq<u8>) -> Option<UDPMessageView> {
    if s.len() < 8 {
        None
    } else {
        match varint_at_front(s.skip(8)) {
            None => None,
            Some(len) => {
                let t = s.skip(8).skip(len.1 as int);
                let n = size_of(len.0) as int;
                if t.len() < n || !valid_utf8(t.take(n)) {
                    None
                } else {
                    Some(
                        UDPMessageView {
                            session_id: crate::wire::u32_at(s, 0),
                            packet_id: crate::wire::u16_at(s, 4),
                            fragment_id: s[6],
                            fragment_count: s[7],
                            address: decode_utf8(t.take(n)),
                            payload: t.skip(n),
                        },
                    )
                }
            },
        }
    }
}

/// The bytes of a UDP message.
pub open spec fn udp_message_bytes(m: UDPMessageView) -> Seq<u8> {
    crate::wire::be32(m.session_id) + crate::wire::be16(m.packet_id) + seq![
        m.fragment_id,
        m.fragment_count,
    ] + varint_bytes(encode_utf8(m.address).len() as u64) + encode_utf8(m.address) + m.payload
}

/// One UDP packet on its way through a QUIC datagram.
#[derive(Debug)]
pub struct UDPMessage {
    pub session_id: u32,
    pub packet_id: u16,
    pub fragment_id: u8,
    pub fragment_count: u8,
    pub address: String,
    pub payload: Bytes,
}

impl View for UDPMessage {
    type V = UDPMessageView;

    open spec fn view(&self) -> UDPMessageView {
        UDPMessageView {
            session_id: self.session_id,
            packet_id: self.packet_id,
            fragment_id: self.fragment_id,
            fragment_count: self.fragment_count,
            address: self.address@,
            payload: bytes_view(self.payload),
        }
    }
}

impl Clone for UDPMessage {
    fn clone(&self) -> (r: Self)
        ensures
            r@ == self@,
    {
        UDPMessage {
            session_id: self.session_id,
            packet_id: self.packet_id,
            fragment_id: self.fragment_id,
            fragment_count: self.fragment_count,
            address: self.address.clone(),
            payload: self.payload.clone(),
        }
    }
}

impl UDPMessage {
    /// Reads a datagram.
    pub fn parse(buf: Bytes) -> (r: Option<Self>)
        ensures
            r is Some == udp_message_in(bytes_view(buf)) is Some,
            r matches Some(m) ==> udp_message_in(bytes_view(buf)) == Some(m@),
    {
        let ghost s = bytes_view(buf);
        let mut buf: Bytes = buf;
        if bytes_remaining(&buf) < 8 {
            return None;
        }
        let session_id: u32 = bytes_get_u32(&mut buf);
        let packet_id: u16 = bytes_get_u16(&mut buf);
        let fragment_id: u8 = bytes_get_u8(&mut buf);
        let fragment_count: u8 = bytes_get_u8(&mut buf);
        assert(bytes_view(buf) =~= s.skip(8));
        let addr_len: usize = match read_varint(&mut buf) {
            Some(v) => v as usize,
            None => return None,
        };
        if bytes_remaining(&buf) < addr_len {
            return None;
        }
        let mut addr_bytes: Vec<u8> = vec![0u8; addr_len];
        bytes_copy_to_slice(&mut buf, &mut addr_bytes);
        let address: String = match text_from_utf8(addr_bytes) {
            Some(t) => t,
            None => return None,
        };
        Some(
            UDPMessage {
                session_id,
                packet_id,
                fragment_id,
                fragment_count,
                address,
                payload: buf,
            },
        )
    }

    /// The bytes of the message.
    pub fn serialize(&self) -> (r: Bytes)
        ensures
            bytes_view(r) == udp_message_bytes(self@),
    {
        let mut buf: BytesMut = buffer_new();
        let bytes: &[u8] = self.address.as_str().as_bytes();
        buffer_put_u32(&mut buf, self.session_id);
        buffer_put_u16(&mut buf, self.packet_id);
        buffer_put_u8(&mut buf, self.fragment_id);
        buffer_put_u8(&mut buf, self.fragment_count);
        write_varint(&mut buf, bytes.len() as u64);
        buffer_put_slice(&mut buf, bytes);
        buffer_put_slice(&mut buf, bytes_chunk(&self.payload));
        assert(buffer_view(buf) =~= udp_message_bytes(self@));
        buffer_freeze(buf)
    }
}

/// A varint that stands at the front of some bytes stands there too when more bytes follow.
pub proof fn law_varint_needs_no_more(s: Seq<u8>, t: Seq<u8>)
    requires
        varint_at_front(s) is Some,
    ensures
        varint_at_front(s + t) == varint_at_front(s),
        (varint_at_front(s)->0).1 <= s.len(),
{
    let w = varint_width(s[0]);
    assert((s + t)[0] == s[0]);
    assert((s + t).subrange(1, w as int) =~= s.subrange(1, w as int));
}

/// A request is read back as it was written, whatever follows it.
#[verifier::rlimit(60)]
pub proof fn law_tcp_request_round_trip(address: Seq<char>, rest: Seq<u8>)
    requires
        encode_utf8(address).len() < VARINT_LIMIT,
        encode_utf8(address).len() <= usize::MAX,
    ensures
        tcp_request_at_front(tcp_request_bytes(address) + rest) == (Some(address), rest),
{
    let a = encode_utf8(address);
    let id = varint_bytes(TCP_REQUEST_ID);
    let len = varint_bytes(a.len() as u64);
    let pad = varint_bytes(0);
    let s = tcp_request_bytes(address) + rest;
    let s1 = len + a + pad + rest;
    let s2 = a + pad + rest;
    let s3 = pad + rest;
    assert(s =~= id + s1);
    law_varint_round_trip(TCP_REQUEST_ID, s1);
    assert(s.skip(id.len() as int) =~= s1);
    assert(s1 =~= len + s2);
    law_varint_round_trip(a.len() as u64, s2);
    assert(s1.skip(len.len() as int) =~= s2);
    assert(s2.take(a.len() as int) =~= a);
    assert(s2.skip(a.len() as int) =~= s3);
    law_varint_round_trip(0, rest);
    assert(s3.skip(pad.len() as int) =~= rest);
    assert(rest.skip(0) =~= rest);
    encode_utf8_valid_utf8(address);
    encode_utf8_decode_utf8(address);
}

/// A request that can be read from some bytes reads the same when more bytes follow, and
/// leaves those bytes behind. A reader may therefore try again after every piece of a stream.
#[verifier::rlimit(60)]
pub proof fn law_tcp_request_needs_no_more(s: Seq<u8>, t: Seq<u8>)
    requires
        tcp_request_at_front(s).0 is Some,
    ensures
        tcp_request_at_front(s + t) == (
            tcp_request_at_front(s).0,
            tcp_request_at_front(s).1 + t,
        ),
{
    let id = varint_at_front(s)->0;
    law_varint_needs_no_more(s, t);
    let s1 = s.skip(id.1 as int);
    assert((s + t).skip(id.1 as int) =~= s1 + t);
    let len = varint_at_front(s1)->0;
    law_varint_needs_no_more(s1, t);
    let s2 = s1.skip(len.1 as int);
    assert((s1 + t).skip(len.1 as int) =~= s2 + t);
    let n = size_of(len.0) as int;
    assert((s2 + t).take(n) =~= s2.take(n));
    let s3 = s2.skip(n);
    assert((s2 + t).skip(n) =~= s3 + t);
    let pad = varint_at_front(s3)->0;
    law_varint_needs_no_more(s3, t);
    let s4 = s3.skip(pad.1 as int);
    assert((s3 + t).skip(pad.1 as int) =~= s4 + t);
    assert((s4 + t).skip(size_of(pad.0) as int) =~= s4.skip(size_of(pad.0) as int) + t);
}

/// A response is read back with its status. Its message comes back where the status is not
/// zero; a missing message comes back as an empty one.
#[verifier::rlimit(60)]
pub proof fn law_tcp_response_round_trip(
    status: u8,
    message: Option<Seq<char>>,
    rest: Seq<u8>,
)
    requires
        message matches Some(m) ==> encode_utf8(m).len() < VARINT_LIMIT && encode_utf8(m).len()
            <= usize::MAX,
    ensures
        tcp_response_at_front(tcp_response_bytes(status, message) + rest) == (
            Some(
                (
                    status,
                    if status == 0 {
                        None
                    } else if message is None {
                        Some(Seq::<char>::empty())
                    } else {
                        message
                    },
                ),
            ),
            rest,
        ),
{
    let s = tcp_response_bytes(status, message) + rest;
    assert(s[0] == status);
    if status == 0 {
        assert(s.skip(1) =~= rest);
    } else {
        let text = match message {
            Some(m) => m,
            None => Seq::<char>::empty(),
        };
        let a = encode_utf8(text);
        assert(message is None ==> a =~= Seq::<u8>::empty());
        let len = varint_bytes(a.len() as u64);
        assert(s.skip(1) =~= len + (a + rest));
        law_varint_round_trip(a.len() as u64, a + rest);
        assert((len + (a + rest)).skip(len.len() as int) =~= a + rest);
        assert((a + rest).take(a.len() as int) =~= a);
        assert((a + rest).skip(a.len() as int) =~= rest);
        encode_utf8_valid_utf8(text);
        encode_utf8_decode_utf8(text);
    }
}

/// A response that can be read from some bytes reads the same when more bytes follow, and
/// leaves those bytes behind.
pub proof fn law_tcp_response_needs_no_more(s: Seq<u8>, t: Seq<u8>)
    requires
        tcp_response_at_front(s).0 is Some,
    ensures
        tcp_response_at_front(s + t) == (
            tcp_response_at_front(s).0,
            tcp_response_at_front(s).1 + t,
        ),
{
    assert((s + t)[0] == s[0]);
    let s1 = s.skip(1);
    assert((s + t).skip(1) =~= s1 + t);
    if s[0] != 0 {
        let len = varint_at_front(s1)->0;
        law_varint_needs_no_more(s1, t);
        let s2 = s1.skip(len.1 as int);
        assert((s1 + t).skip(len.1 as int) =~= s2 + t);
        let n = size_of(len.0) as int;
        assert((s2 + t).take(n) =~= s2.take(n));
        assert((s2 + t).skip(n) =~= s2.skip(n) + t);
    }
}

/// A UDP message is read back as it was written.
#[verifier::rlimit(60)]
pub proof fn law_udp_message_round_trip(m: UDPMessageView)
    requires
        encode_utf8(m.address).len() < VARINT_LIMIT,
        encode_utf8(m.address).len() <= usize::MAX,
    ensures
        udp_message_in(udp_message_bytes(m)) == Some(m),
{
    let s = udp_message_bytes(m);
    let a = encode_utf8(m.address);
    let len = varint_bytes(a.len() as u64);
    let t = a + m.payload;
    assert(s.skip(8) =~= len + t);
    law_varint_round_trip(a.len() as u64, t);
    assert(s.skip(8).skip(len.len() as int) =~= t);
    assert(t.take(a.len() as int) =~= a);
    assert(t.skip(a.len() as int) =~= m.payload);
    encode_utf8_valid_utf8(m.address);
    encode_utf8_decode_utf8(m.address);
    crate::wire::lemma_be32_read(m.session_id);
    crate::wire::lemma_be16_read(m.packet_id);
    let h = crate::wire::be32(m.session_id);
    let p = crate::wire::be16(m.packet_id);
    assert(s[0] == h[0] && s[1] == h[1] && s[2] == h[2] && s[3] == h[3]);
    assert(s[4] == p[0] && s[5] == p[1]);
    assert(s[6] == m.fragment_id && s[7] == m.fragment_count);
}

/// A varint may be written wider than it needs to be: each of the four widths spells its number
/// in big-endian order behind the two bits of the width.
pub proof fn law_varint_of_any_width(v: u64, rest: Seq<u8>)
    ensures
        v < 0x40 ==> varint_at_front(seq![v as u8] + rest) == Some((v, 1nat)),
        v < 0x4000 ==> varint_at_front(
            seq![(0x40 + v / 0x100) as u8, (v % 0x100) as u8] + rest,
        ) == Some((v, 2nat)),
        v < 0x4000_0000 ==> varint_at_front(
            seq![
                (0x80 + v / 0x100_0000) as u8,
                (v / 0x1_0000 % 0x100) as u8,
                (v / 0x100 % 0x100) as u8,
                (v % 0x100) as u8,
            ] + rest,
        ) == Some((v, 4nat)),
        v < 0x4000_0000_0000_0000 ==> varint_at_front(
            seq![
                (0xc0 + v / 0x100_0000_0000_0000) as u8,
                (v / 0x1_0000_0000_0000 % 0x100) as u8,
                (v / 0x100_0000_0000 % 0x100) as u8,
                (v / 0x1_0000_0000 % 0x100) as u8,
                (v / 0x100_0000 % 0x100) as u8,
                (v / 0x1_0000 % 0x100) as u8,
                (v / 0x100 % 0x100) as u8,
                (v % 0x100) as u8,
            ] + rest,
        ) == Some((v, 8nat)),
{
    if v < 0x40 {
        law_varint_round_trip(v, rest);
        assert(varint_bytes(v) =~= seq![v as u8]);
    }
    if v < 0x4000 {
        lemma_varint_two(v, rest);
    }
    if v < 0x4000_0000 {
        lemma_varint_four(v, rest);
    }
    if v < 0x4000_0000_0000_0000 {
        lemma_varint_eight(v, rest);
    }
}

proof fn lemma_varint_two(v: u64, rest: Seq<u8>)
    requires
        v < 0x4000,
    ensures
        varint_at_front(seq![(0x40 + v / 0x100) as u8, (v % 0x100) as u8] + rest) == Some(
            (v, 2nat),
        ),
{
    let s = seq![(0x40 + v / 0x100) as u8, (v % 0x100) as u8] + rest;
    let t = seq![(s[0] % 64) as u8] + s.subrange(1, 2);
    let a = seq![(v / 0x100) as u8];
    assert(t =~= seq![(v / 0x100) as u8, (v % 0x100) as u8]);
    lemma_be_value_push(t);
    lemma_be_value_push(a);
    assert(t.drop_last() =~= a);
    assert(a.drop_last() =~= Seq::<u8>::empty());
}

proof fn lemma_varint_four(v: u64, rest: Seq<u8>)
    requires
        v < 0x4000_0000,
    ensures
        varint_at_front(
            seq![
                (0x80 + v / 0x100_0000) as u8,
                (v / 0x1_0000 % 0x100) as u8,
                (v / 0x100 % 0x100) as u8,
                (v % 0x100) as u8,
            ] + rest,
        ) == Some((v, 4nat)),
{
    lemma_digits_four(v);
    let s = seq![
        (0x80 + v / 0x100_0000) as u8,
        (v / 0x1_0000 % 0x100) as u8,
        (v / 0x100 % 0x100) as u8,
        (v % 0x100) as u8,
    ] + rest;
    let t = seq![(s[0] % 64) as u8] + s.subrange(1, 4);
    assert(t =~= seq![
        (v / 0x100_0000) as u8,
        (v / 0x1_0000 % 0x100) as u8,
        (v / 0x100 % 0x100) as u8,
        (v % 0x100) as u8,
    ]);
    lemma_be_value_four(t);
}

proof fn lemma_varint_eight(v: u64, rest: Seq<u8>)
    requires
        v < 0x4000_0000_0000_0000,
    ensures
        varint_at_front(
            seq![
                (0xc0 + v / 0x100_0000_0000_0000) as u8,
                (v / 0x1_0000_0000_0000 % 0x100) as u8,
                (v / 0x100_0000_0000 % 0x100) as u8,
                (v / 0x1_0000_0000 % 0x100) as u8,
                (v / 0x100_0000 % 0x100) as u8,
                (v / 0x1_0000 % 0x100) as u8,
                (v / 0x100 % 0x100) as u8,
                (v % 0x100) as u8,
            ] + rest,
        ) == Some((v, 8nat)),
{
    lemma_digits_eight(v);
    let s = seq![
        (0xc0 + v / 0x100_0000_0000_0000) as u8,
        (v / 0x1_0000_0000_0000 % 0x100) as u8,
        (v / 0x100_0000_0000 % 0x100) as u8,
        (v / 0x1_0000_0000 % 0x100) as u8,
        (v / 0x100_0000 % 0x100) as u8,
        (v / 0x1_0000 % 0x100) as u8,
        (v / 0x100 % 0x100) as u8,
        (v % 0x100) as u8,
    ] + rest;
    let t = seq![(s[0] % 64) as u8] + s.subrange(1, 8);
    assert(t =~= seq![
        (v / 0x100_0000_0000_0000) as u8,
        (v / 0x1_0000_0000_0000 % 0x100) as u8,
        (v / 0x100_0000_0000 % 0x100) as u8,
        (v / 0x1_0000_0000 % 0x100) as u8,
        (v / 0x100_0000 % 0x100) as u8,
        (v / 0x1_0000 % 0x100) as u8,
        (v / 0x100 % 0x100) as u8,
        (v % 0x100) as u8,
    ]);
    lemma_be_value_eight(t);
}

/// A varint that is not all there is none.
pub proof fn law_varint_waits(v: u64, cut: int)
    requires
        v < VARINT_LIMIT,
        0 <= cut < varint_bytes(v).len(),
    ensures
        varint_at_front(varint_bytes(v).take(cut)) is None,
{
    let b = varint_bytes(v);
    let s = b.take(cut);
    law_varint_round_trip(v, Seq::empty());
    assert(b + Seq::<u8>::empty() =~= b);
    if cut > 0 {
        assert(s[0] == b[0]);
    }
}

/// The bytes of a request for an address as UTF-8, with padding.
pub open spec fn padded_request(address: Seq<u8>, padding: Seq<u8>) -> Seq<u8> {
    varint_bytes(0x401) + varint_bytes(address.len() as u64) + address + varint_bytes(
        padding.len() as u64,
    ) + padding
}

/// Padding of any length is skipped.
proof fn lemma_padding_skipped(padding: Seq<u8>, rest: Seq<u8>)
    requires
        padding.len() < VARINT_LIMIT,
        padding.len() <= usize::MAX,
    ensures
        padding_at_front(varint_bytes(padding.len() as u64) + (padding + rest)) == (true, rest),
{
    let pad = varint_bytes(padding.len() as u64);
    let t = padding + rest;
    law_varint_round_trip(padding.len() as u64, t);
    assert((pad + t).skip(pad.len() as int) =~= t);
    assert(t.skip(padding.len() as int) =~= rest);
}

/// The number and the address of a request are read, and then its padding.
#[verifier::spinoff_prover]
#[verifier::rlimit(60)]
proof fn lemma_request_head(address: Seq<u8>, back: Seq<u8>)
    requires
        address.len() < VARINT_LIMIT,
        address.len() <= usize::MAX,
    ensures
        ({
            let s = varint_bytes(0x401) + (varint_bytes(address.len() as u64) + (address + back));
            let r = tcp_request_at_front(s);
            &&& !valid_utf8(address) ==> r.0 is None
            &&& valid_utf8(address) && padding_at_front(back).0 ==> r == (
                Some(decode_utf8(address)),
                padding_at_front(back).1,
            )
        }),
{
    let id = varint_bytes(0x401);
    let len = varint_bytes(address.len() as u64);
    let s2 = address + back;
    let s1 = len + s2;
    let s = id + s1;
    law_varint_round_trip(0x401, s1);
    assert(s.skip(id.len() as int) =~= s1);
    law_varint_round_trip(address.len() as u64, s2);
    assert(s1.skip(len.len() as int) =~= s2);
    assert(s2.take(address.len() as int) =~= address);
    assert(s2.skip(address.len() as int) =~= back);
}

/// A request with padding, and what follows it, part by part.
proof fn lemma_request_parts(address: Seq<u8>, padding: Seq<u8>, rest: Seq<u8>)
    ensures
        padded_request(address, padding) + rest == varint_bytes(0x401) + (varint_bytes(
            address.len() as u64,
        ) + (address + (varint_bytes(padding.len() as u64) + (padding + rest)))),
{
    let a = varint_bytes(0x401);
    let b = varint_bytes(address.len() as u64);
    let d = varint_bytes(padding.len() as u64);
    lemma_regroup(a, b, address, d, padding, rest);
}

/// Putting bytes together does not depend on the grouping.
proof fn lemma_regroup(
    a: Seq<u8>,
    b: Seq<u8>,
    c: Seq<u8>,
    d: Seq<u8>,
    e: Seq<u8>,
    f: Seq<u8>,
)
    ensures
        a + b + c + d + e + f == a + (b + (c + (d + (e + f)))),
{
    assert(a + b + c + d + e + f =~= a + (b + (c + (d + (e + f)))));
}

/// A request is read whatever padding it has, and the padding is gone: what is left is what
/// follows the request. With an address that is not UTF-8 it is none.
#[verifier::spinoff_prover]
#[verifier::rlimit(60)]
pub proof fn law_padding_is_skipped(address: Seq<u8>, padding: Seq<u8>, rest: Seq<u8>)
    requires
        address.len() < VARINT_LIMIT,
        address.len() <= usize::MAX,
        padding.len() < VARINT_LIMIT,
        padding.len() <= usize::MAX,
    ensures
        valid_utf8(address) ==> tcp_request_at_front(padded_request(address, padding) + rest) == (
            Some(decode_utf8(address)),
            rest,
        ),
        !valid_utf8(address) ==> tcp_request_at_front(padded_request(address, padding) + rest).0
            is None,
{
    lemma_padding_skipped(padding, rest);
    lemma_request_head(address, varint_bytes(padding.len() as u64) + (padding + rest));
    lemma_request_parts(address, padding, rest);
}

/// A request that is not all there, its padding with it, is none yet.
#[verifier::rlimit(60)]
pub proof fn law_request_waits(address: Seq<u8>, padding: Seq<u8>, cut: int)
    requires
        address.len() < VARINT_LIMIT,
        address.len() <= usize::MAX,
        padding.len() < VARINT_LIMIT,
        padding.len() <= usize::MAX,
        0 <= cut < padded_request(address, padding).len(),
    ensures
        tcp_request_at_front(padded_request(address, padding).take(cut)).0 is None,
{
    let whole = padded_request(address, padding);
    let s = whole.take(cut);
    let t = whole.skip(cut);
    assert(s + t =~= whole);
    assert(whole + Seq::<u8>::empty() =~= whole);
    if tcp_request_at_front(s).0 is Some {
        law_tcp_request_needs_no_more(s, t);
        law_padding_is_skipped(address, padding, Seq::empty());
        assert((tcp_request_at_front(s).1 + t).len() > 0);
    }
}

/// What does not open with the number of a request is none.
pub proof fn law_other_numbers_open_no_request(id: u64, rest: Seq<u8>)
    requires
        id < VARINT_LIMIT,
        id != 0x401,
    ensures
        tcp_request_at_front(varint_bytes(id) + rest).0 is None,
{
    law_varint_round_trip(id, rest);
}

/// A response other than zero has its status and its message, which is dropped if it is not
/// UTF-8; what follows is left. Status zero stands alone.
#[verifier::rlimit(60)]
pub proof fn law_response_is_read(status: u8, message: Seq<u8>, rest: Seq<u8>)
    requires
        message.len() < VARINT_LIMIT,
        message.len() <= usize::MAX,
    ensures
        tcp_response_at_front(seq![0u8] + rest) == (Some((0u8, None::<Seq<char>>)), rest),
        status != 0 ==> tcp_response_at_front(
            seq![status] + varint_bytes(message.len() as u64) + message + rest,
        ) == (
            Some(
                (
                    status,
                    if valid_utf8(message) {
                        Some(decode_utf8(message))
                    } else {
                        None
                    },
                ),
            ),
            rest,
        ),
{
    assert((seq![0u8] + rest).skip(1) =~= rest);
    let len = varint_bytes(message.len() as u64);
    let s = seq![status] + len + message + rest;
    assert(s[0] == status);
    assert(s.skip(1) =~= len + (message + rest));
    law_varint_round_trip(message.len() as u64, message + rest);
    assert((len + (message + rest)).skip(len.len() as int) =~= message + rest);
    assert((message + rest).take(message.len() as int) =~= message);
    assert((message + rest).skip(message.len() as int) =~= rest);
}

/// A response that is not all there is none yet.
pub proof fn law_response_waits(status: u8, message: Seq<u8>, cut: int)
    requires
        status != 0,
        message.len() < VARINT_LIMIT,
        message.len() <= usize::MAX,
        0 <= cut < (seq![status] + varint_bytes(message.len() as u64) + message).len(),
    ensures
        tcp_response_at_front(
            (seq![status] + varint_bytes(message.len() as u64) + message).take(cut),
        ).0 is None,
{
    let whole = seq![status] + varint_bytes(message.len() as u64) + message;
    let s = whole.take(cut);
    let t = whole.skip(cut);
    assert(s + t =~= whole);
    assert(whole + Seq::<u8>::empty() =~= whole);
    if tcp_response_at_front(s).0 is Some {
        law_tcp_response_needs_no_more(s, t);
        law_response_is_read(status, message, Seq::empty());
        assert((tcp_response_at_front(s).1 + t).len() > 0);
    }
}

/// A datagram is a message if it has the eight bytes in front, the length of an address and an
/// address of that length as UTF-8; all that follows is the payload.
#[verifier::rlimit(60)]
pub proof fn law_message_is_read(head: Seq<u8>, address: Seq<u8>, payload: Seq<u8>)
    requires
        head.len() == 8,
        address.len() < VARINT_LIMIT,
        address.len() <= usize::MAX,
    ensures
        ({
            let s = head + varint_bytes(address.len() as u64) + address + payload;
            let m = udp_message_in(s);
            &&& m is Some == valid_utf8(address)
            &&& m matches Some(m) ==> {
                &&& m.session_id == head[0] * 0x100_0000 + head[1] * 0x1_0000 + head[2] * 0x100
                    + head[3]
                &&& m.packet_id == head[4] * 0x100 + head[5]
                &&& m.fragment_id == head[6]
                &&& m.fragment_count == head[7]
                &&& m.address == decode_utf8(address)
                &&& m.payload == payload
            }
        }),
{
    let len = varint_bytes(address.len() as u64);
    let s = head + len + address + payload;
    let t = address + payload;
    assert(s.skip(8) =~= len + t);
    law_varint_round_trip(address.len() as u64, t);
    assert((len + t).skip(len.len() as int) =~= t);
    assert(t.take(address.len() as int) =~= address);
    assert(t.skip(address.len() as int) =~= payload);
    assert(forall|i: int| 0 <= i < 8 ==> s[i] == head[i]);
}

/// A datagram that ends before its address does is no message.
#[verifier::rlimit(60)]
pub proof fn law_short_message_is_none(head: Seq<u8>, address: Seq<u8>, cut: int)
    requires
        head.len() == 8,
        address.len() < VARINT_LIMIT,
        address.len() <= usize::MAX,
        0 <= cut < (head + varint_bytes(address.len() as u64) + address).len(),
    ensures
        udp_message_in((head + varint_bytes(address.len() as u64) + address).take(cut)) is None,
{
    let len = varint_bytes(address.len() as u64);
    let whole = head + len + address;
    let s = whole.take(cut);
    if cut >= 8 {
        let k = cut - 8;
        if k < len.len() {
            assert(s.skip(8) =~= len.take(k));
            law_varint_waits(address.len() as u64, k);
        } else {
            let part = address.take(k - len.len());
            assert(s.skip(8) =~= len + part);
            law_varint_round_trip(address.len() as u64, part);
            assert((len + part).skip(len.len() as int) =~= part);
        }
    }
}

/// Numbers travel as narrow as they can, and as large as they fit: the first byte tells the
/// width.
pub proof fn law_varint_is_narrow(v: u64)
    ensures
        v < 0x40 ==> varint_bytes(v).len() == 1 && varint_bytes(v)[0] == v,
        0x40 <= v < 0x4000 ==> varint_bytes(v).len() == 2 && 0x40 <= varint_bytes(v)[0] < 0x80,
        0x4000 <= v < 0x4000_0000 ==> varint_bytes(v).len() == 4 && 0x80 <= varint_bytes(v)[0]
            < 0xc0,
        0x4000_0000 <= v ==> varint_bytes(v).len() == 8 && 0xc0 <= varint_bytes(v)[0],
{
}

/// A message lies on the wire as the protocol has it: its numbers in big-endian order, then the
/// length of the address, the address and the payload.
pub proof fn law_message_layout(m: UDPMessageView)
    ensures
        ({
            let s = udp_message_bytes(m);
            let a = encode_utf8(m.address);
            &&& s.len() == 8 + varint_bytes(a.len() as u64).len() + a.len() + m.payload.len()
            &&& s[0] * 0x100_0000 + s[1] * 0x1_0000 + s[2] * 0x100 + s[3] == m.session_id
            &&& s[4] * 0x100 + s[5] == m.packet_id
            &&& s[6] == m.fragment_id
            &&& s[7] == m.fragment_count
            &&& s.skip(8) == varint_bytes(a.len() as u64) + a + m.payload
        }),
{
    let s = udp_message_bytes(m);
    let a = encode_utf8(m.address);
    let h = crate::wire::be32(m.session_id);
    let p = crate::wire::be16(m.packet_id);
    crate::wire::lemma_be32_read(m.session_id);
    assert(s[0] == h[0] && s[1] == h[1] && s[2] == h[2] && s[3] == h[3]);
    assert(s[4] == p[0] && s[5] == p[1]);
    assert(s.skip(8) =~= varint_bytes(a.len() as u64) + a + m.payload);
}

/// A request of this engine has no padding.
pub proof fn law_own_request_has_no_padding(address: Seq<char>)
    ensures
        tcp_request_bytes(address) == padded_request(encode_utf8(address), Seq::empty()),
{
    assert(tcp_request_bytes(address) =~= padded_request(encode_utf8(address), Seq::empty()));
}

/// Of a number that does not fit a varint the low sixty-two bits are kept.
pub proof fn law_varint_keeps_low_bits(v: u64, rest: Seq<u8>)
    ensures
        varint_at_front(varint_bytes(v) + rest) == Some(
            (v % 0x4000_0000_0000_0000, varint_bytes(v).len()),
        ),
{
    if v < VARINT_LIMIT {
        law_varint_round_trip(v, rest);
    } else {
        let w = v % 0x4000_0000_0000_0000;
        lemma_low_bits(v);
        lemma_varint_eight(w, rest);
        assert(varint_bytes(v) =~= seq![
            (0xc0 + w / 0x100_0000_0000_0000) as u8,
            (w / 0x1_0000_0000_0000 % 0x100) as u8,
            (w / 0x100_0000_0000 % 0x100) as u8,
            (w / 0x1_0000_0000 % 0x100) as u8,
            (w / 0x100_0000 % 0x100) as u8,
            (w / 0x1_0000 % 0x100) as u8,
            (w / 0x100 % 0x100) as u8,
            (w % 0x100) as u8,
        ]);
    }
}

proof fn lemma_low_bits(v: u64)
    by (bit_vector)
    ensures
        v % 0x4000_0000_0000_0000 < 0x4000_0000_0000_0000,
        v / 0x100_0000_0000_0000 % 64 == (v % 0x4000_0000_0000_0000) / 0x100_0000_0000_0000,
        v / 0x1_0000_0000_0000 % 0x100 == (v % 0x4000_0000_0000_0000) / 0x1_0000_0000_0000 % 0x100,
        v / 0x100_0000_0000 % 0x100 == (v % 0x4000_0000_0000_0000) / 0x100_0000_0000 % 0x100,
        v / 0x1_0000_0000 % 0x100 == (v % 0x4000_0000_0000_0000) / 0x1_0000_0000 % 0x100,
        v / 0x100_0000 % 0x100 == (v % 0x4000_0000_0000_0000) / 0x100_0000 % 0x100,
        v / 0x1_0000 % 0x100 == (v % 0x4000_0000_0000_0000) / 0x1_0000 % 0x100,
        v / 0x100 % 0x100 == (v % 0x4000_0000_0000_0000) / 0x100 % 0x100,
        v % 0x100 == (v % 0x4000_0000_0000_0000) % 0x100,
{
}

/// A message that is given is taken as it is, an empty one too.
pub proof fn law_given_message_counts(s: String, m: UDPMessage)
    ensures
        text_of(Some(s)) == Some(s@),
        text_of(None) == None::<Seq<char>>,
        m@.session_id == m.session_id && m@.packet_id == m.packet_id,
        m@.fragment_id == m.fragment_id && m@.fragment_count == m.fragment_count,
        m@.address == m.address@ && m@.payload == bytes_view(m.payload),
{
}

} // verus!
