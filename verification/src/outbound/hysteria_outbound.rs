//! The way out through a Hysteria 2 server: authentication, streams, and datagrams.

use crate::config::Hysteria2ClientConfig;
use crate::frame::{frame_bytes, write_frame};
use crate::inbound::hysteria_inbound::{padding, padding_text, STATUS_ACCEPTED};
use crate::net::{host_of, Host, IpAddress};
use crate::outbound::udp::{AfterQueue, Queued};
use crate::text::{
    decimal, decimal_text, join_address, joined_address, law_joined_address_splits, law_two_parts,
    parse_u16,
    same_text, split_in_two, split_two, unsigned_value,
};
use crate::transport::hysteria_proto::{
    size_of, tcp_response_at_front, text_of, varint_at_front, TCPRequest, TCPResponse, UDPMessage,
    UDPMessageView,
};
use crate::wire::{
    buffer_advance, buffer_chunk, buffer_view, bytes_chunk, bytes_from_slice, bytes_remaining,
    bytes_view,
};
use bytes::{Bytes, BytesMut};
use vstd::prelude::*;
use vstd::string::*;

verus! {

/// The way out through a Hysteria 2 server.
#[derive(Debug)]
pub struct Hysteria2ClientOutbound {
    pub config: Hysteria2ClientConfig,
}

/// The name that the server must have.
pub open spec fn expected_name(config: Hysteria2ClientConfig) -> Seq<char> {
    match config.tls {
        Some(t) => t.server_name@,
        None => "hysteria"@,
    }
}

/// The rate that the server is told, in megabits per second; zero where none is configured.
pub open spec fn told_rate(config: Hysteria2ClientConfig) -> nat {
    match config.down_mbps {
        Some(n) => n as nat,
        None => 0,
    }
}

impl Hysteria2ClientOutbound {
    /// The way out through a server.
    pub fn new(config: Hysteria2ClientConfig) -> (r: Hysteria2ClientOutbound)
        ensures
            r.config == config,
    {
        Hysteria2ClientOutbound { config }
    }

    /// Whether a connection to the server that was made before is used again: it is if it is
    /// still open. `open` is nothing where there is none.
    pub fn reuses(open: Option<bool>) -> (r: bool)
        ensures
            r == (open == Some(true)),
    {
        match open {
            Some(b) => b,
            None => false,
        }
    }

    /// The name that the server must have.
    pub fn server_name(&self) -> (r: String)
        ensures
            r@ == expected_name(self.config),
    {
        match &self.config.tls {
            Some(t) => t.server_name.clone(),
            None => "hysteria".to_string(),
        }
    }

    /// The headers of the request for authentication.
    pub fn auth_headers(&self) -> (r: Vec<(&'static str, String)>)
        ensures
            r@.len() == 3,
            r@[0].0@ == "Hysteria-Auth"@ && r@[0].1@ == self.config.auth@,
            r@[1].0@ == "Hysteria-CC-RX"@ && r@[1].1@ == decimal_text(told_rate(self.config)),
            r@[2].0@ == "Hysteria-Padding"@ && r@[2].1@ == padding_text(),
    {
        let rate: u64 = match self.config.down_mbps {
            Some(n) => n,
            None => 0,
        };
        let mut out: Vec<(&'static str, String)> = Vec::new();
        out.push(("Hysteria-Auth", self.config.auth.clone()));
        out.push(("Hysteria-CC-RX", decimal(rate)));
        out.push(("Hysteria-Padding", padding()));
        out
    }

    /// Whether the server has accepted.
    pub fn accepted(status: u16) -> (r: bool)
        ensures
            r == (status == STATUS_ACCEPTED),
    {
        status == STATUS_ACCEPTED
    }

    /// Whether the datagrams of many clients come through the connection, and not one stream.
    pub fn multiplexed(dest_addr: &str, dest_port: u16) -> (r: bool)
        ensures
            r == (dest_addr@ == "0.0.0.0"@ && dest_port == 0),
    {
        same_text(dest_addr, "0.0.0.0") && dest_port == 0
    }

    /// The request for a stream to a destination.
    pub fn request(dest_addr: &str, dest_port: u16) -> (r: TCPRequest)
        ensures
            r.address@ == joined_address(dest_addr@, dest_port),
    {
        TCPRequest { address: join_address(dest_addr, dest_port) }
    }
}

/// What is left behind a response is the end of what was there.
pub proof fn lemma_response_rest(s: Seq<u8>)
    ensures
        tcp_response_at_front(s).0 is Some ==> {
            let rest = tcp_response_at_front(s).1;
            rest.len() <= s.len() && rest == s.skip(s.len() - rest.len())
        },
{
    if tcp_response_at_front(s).0 is Some {
        let s1 = s.skip(1);
        if s[0] == 0 {
            assert(s1 =~= s.skip(s.len() - s1.len()));
        } else {
            let len = varint_at_front(s1)->0;
            let s2 = s1.skip(len.1 as int);
            let n = size_of(len.0) as int;
            let rest = s2.skip(n);
            assert(rest =~= s.skip(s.len() - rest.len()));
        }
    }
}

/// Takes a response off the front of what a stream has brought so far. What is not a whole
/// response stays.
pub fn take_tcp_response(buf: &mut BytesMut) -> (r: Option<TCPResponse>)
    ensures
        match tcp_response_at_front(buffer_view(*old(buf))) {
            (Some(p), rest) => r matches Some(q) && (q.status, text_of(q.error_message)) == p
                && buffer_view(*final(buf)) == rest,
            (None, _) => r is None && buffer_view(*final(buf)) == buffer_view(*old(buf)),
        },
{
    let ghost s = buffer_view(*buf);
    let mut cursor: Bytes = bytes_from_slice(buffer_chunk(buf));
    let before: usize = bytes_remaining(&cursor);
    let parsed = TCPResponse::parse(&mut cursor);
    proof {
        lemma_response_rest(s);
    }
    match parsed {
        Some(resp) => {
            let after: usize = bytes_remaining(&cursor);
            buffer_advance(buf, before - after);
            Some(resp)
        },
        None => None,
    }
}

/// The host and the port of the sender of a message. A port that is no number counts as zero;
/// an address without exactly one colon is none.
pub open spec fn sender_of(address: Seq<char>) -> Option<(Seq<char>, u16)> {
    match split_in_two(address, ':') {
        Some(p) => Some(
            (
                p.0,
                match unsigned_value(p.1, u16::MAX as nat) {
                    Some(port) => port as u16,
                    None => 0,
                },
            ),
        ),
        None => None,
    }
}

/// The host and the port of the sender of a message.
pub fn read_sender(address: &str) -> (r: Option<(String, u16)>)
    ensures
        match sender_of(address@) {
            Some(s) => r matches Some(p) && p.0@ == s.0 && p.1 == s.1,
            None => r is None,
        },
{
    match split_two(address, ':') {
        Some((host, port)) => {
            let port: u16 = match parse_u16(port.as_str()) {
                Some(n) => n,
                None => 0,
            };
            Some((host, port))
        },
        None => None,
    }
}

/// The association that a session belongs to: the low sixteen bits of its number.
pub open spec fn association_of(session_id: u32) -> u16 {
    (session_id % 65536) as u16
}

/// A message from the server as a frame for the connection. `host` is what `read_sender` gave,
/// and `literal` is the address that it spells, if it spells one.
pub fn downlink_frame(
    message: &UDPMessage,
    host: &str,
    literal: Option<IpAddress>,
    port: u16,
) -> (r: Bytes)
    ensures
        bytes_view(r) == frame_bytes(
            association_of(message@.session_id),
            host_of(host@, literal),
            port,
            message@.payload,
        ),
{
    let assoc: u16 = (message.session_id % 65536) as u16;
    let sender: Host = Host::of(host, literal);
    write_frame(assoc, &sender, port, bytes_chunk(&message.payload))
}

/// What is done after a message was put into the queue of a connection: it is counted even if
/// the queue was full, since the server has sent it.
pub fn after_message_queue(q: Queued) -> (r: AfterQueue)
    ensures
        r == match q {
            Queued::Taken => AfterQueue::Count,
            Queued::Full => AfterQueue::Count,
            Queued::Closed => AfterQueue::Stop,
        },
{
    match q {
        Queued::Taken => AfterQueue::Count,
        Queued::Full => AfterQueue::Count,
        Queued::Closed => AfterQueue::Stop,
    }
}

/// A frame of the connection as a message for the server: in the session of its association,
/// in one piece. `host` is the text of the host that the frame names.
pub fn uplink_message(assoc: u16, host: &str, port: u16, payload: &[u8]) -> (r: UDPMessage)
    ensures
        r@ == (UDPMessageView {
            session_id: assoc as u32,
            packet_id: 0,
            fragment_id: 0,
            fragment_count: 1,
            address: joined_address(host@, port),
            payload: payload@,
        }),
{
    UDPMessage {
        session_id: assoc as u32,
        packet_id: 0,
        fragment_id: 0,
        fragment_count: 1,
        address: join_address(host, port),
        payload: bytes_from_slice(payload),
    }
}

/// What comes back in the session of a datagram goes to the association that sent it.
pub proof fn law_session_leads_back(assoc: u16)
    ensures
        association_of(assoc as u32) == assoc,
{
}

/// A sender that the server names as a host without a colon and a port is understood.
pub proof fn law_sender_understood(host: Seq<char>, port: u16)
    requires
        forall|j: int| 0 <= j < host.len() ==> host[j] != ':',
    ensures
        sender_of(joined_address(host, port)) == Some((host, port)),
{
    law_joined_address_splits(host, port);
}

/// The sender of a message is understood exactly if its address has one colon; the port is what
/// stands behind it, and zero if that is no port.
pub proof fn law_sender_by_its_address(host: Seq<char>, port: Seq<char>, text: Seq<char>)
    ensures
        (forall|j: int| 0 <= j < host.len() ==> host[j] != ':') && (forall|j: int|
            0 <= j < port.len() ==> port[j] != ':') ==> sender_of(host.push(':') + port) == Some(
            (
                host,
                match unsigned_value(port, 65535) {
                    Some(n) => n as u16,
                    None => 0u16,
                },
            ),
        ),
        (forall|j: int| 0 <= j < text.len() ==> text[j] != ':') ==> sender_of(text) is None,
        (exists|i: int, j: int|
            0 <= i < j < text.len() && #[trigger] text[i] == ':' && #[trigger] text[j] == ':')
            ==> sender_of(text) is None,
{
    law_two_parts(host, port, text, ':');
}

/// Sessions belong to the association that their low sixteen bits tell.
pub proof fn law_session_and_association(session_id: u32, high: u16, assoc: u16)
    ensures
        session_id == high * 65536 + assoc ==> association_of(session_id) == assoc,
{
}

/// The server is known by the name of its settings, and else as `hysteria`; it is told the
/// configured rate, and else zero.
pub proof fn law_server_is_addressed(config: Hysteria2ClientConfig)
    ensures
        config.tls matches Some(t) ==> expected_name(config) == t.server_name@,
        config.tls is None ==> expected_name(config) == "hysteria"@,
        config.down_mbps matches Some(n) ==> told_rate(config) == n,
        config.down_mbps is None ==> told_rate(config) == 0,
{
}

} // verus!
