//! The SOCKS5 listener: greeting, request, datagrams, and the associations of its clients.

use crate::config::{Config, InboundConfig, OutboundConfig, VlessClientConfig};
use crate::frame::{
    addressed, addressed_parts, frame_bytes, lemma_addressed_read, read_addressed, write_frame,
};
use crate::ids::{uuid_error, uuid_of_text};
use crate::net::{
    host_at, host_bytes, host_fits, is_ip, lemma_host_read, missing, plain_address, push_host,
    read_host, Host, HostRead, HostReadView, HostView, IpAddress, SocketAddress,
    SocketAddressView, SOCKS_DOMAIN, SOCKS_V6,
};
use crate::outbound::vless_client::{request_header, vless_header, COMMAND_UDP};
use crate::outbound::{vless_of, vless_settings};
use crate::search::{first_where, lemma_first_where, lemma_none_where};
use crate::sessions::{
    is_idle, links_of, opened, swept, touched, AddressMap, IdSessions, Session,
};
use crate::state::{registered, ConnectionInfo, EngineState};
use crate::text::{join_address, joined_address, same_text, utf8_error};
use crate::transport::dial::{
    greeting, reply_step, request_bytes, DialError, PurposeView, ReplyView,
};
use crate::transport::{law_wrapped_datagram_addresses, socks_datagram};
use crate::wire::{
    be16, bytes_chunk, bytes_from_slice, bytes_view, high_byte, lemma_u16_between, low_byte,
    read_u16, u16_at,
};
use bytes::Bytes;
use vstd::prelude::*;
use vstd::slice::*;
use vstd::string::*;
use vstd::utf8::*;

verus! {

/// The version byte.
pub const SOCKS_VERSION: u8 = 5;

/// The command that opens a connection.
pub const SOCKS_CONNECT: u8 = 1;

/// The command that opens a relay for datagrams.
pub const SOCKS_ASSOCIATE: u8 = 3;

/// The SOCKS5 listener.
#[derive(Debug)]
pub struct Socks5Inbound {
    pub config: InboundConfig,
}

impl Socks5Inbound {
    /// A listener.
    pub fn new(config: InboundConfig) -> (r: Socks5Inbound)
        ensures
            r.config == config,
    {
        Socks5Inbound { config }
    }
}

/// Why a client is turned away.
#[derive(Debug, PartialEq, Eq)]
pub enum SocksError {
    /// The greeting has another version.
    GreetingVersion,
    /// The client insists on authentication.
    NoMethod,
    /// The request has another version.
    RequestVersion,
    Command,
    AddressType,
    /// The name of the host is not UTF-8, for the reason given.
    Domain(String),
}

/// Why a client is turned away.
pub enum SocksErrorView {
    GreetingVersion,
    NoMethod,
    RequestVersion,
    Command,
    AddressType,
    Domain(Seq<char>),
}

impl View for SocksError {
    type V = SocksErrorView;

    open spec fn view(&self) -> SocksErrorView {
        match self {
            SocksError::GreetingVersion => SocksErrorView::GreetingVersion,
            SocksError::NoMethod => SocksErrorView::NoMethod,
            SocksError::RequestVersion => SocksErrorView::RequestVersion,
            SocksError::Command => SocksErrorView::Command,
            SocksError::AddressType => SocksErrorView::AddressType,
            SocksError::Domain(e) => SocksErrorView::Domain(e@),
        }
    }
}

impl SocksError {
    /// The error in words.
    pub fn message(&self) -> (r: &str)
        ensures
            r@ == match self {
                SocksError::GreetingVersion => "Unsupported SOCKS version"@,
                SocksError::NoMethod => "No acceptable auth methods"@,
                SocksError::RequestVersion => "Invalid request version"@,
                SocksError::Command => "Unsupported command"@,
                SocksError::AddressType => "Unsupported address type"@,
                SocksError::Domain(e) => e@,
            },
    {
        match self {
            SocksError::GreetingVersion => "Unsupported SOCKS version",
            SocksError::NoMethod => "No acceptable auth methods",
            SocksError::RequestVersion => "Invalid request version",
            SocksError::Command => "Unsupported command",
            SocksError::AddressType => "Unsupported address type",
            SocksError::Domain(e) => e.as_str(),
        }
    }

    /// What the client is told before the connection is closed, if anything.
    pub fn reply(&self) -> (r: Vec<u8>)
        ensures
            r@ == error_reply(self@),
    {
        let mut out: Vec<u8> = Vec::new();
        match self {
            SocksError::NoMethod => {
                out.push(SOCKS_VERSION);
                out.push(255);
                assert(out@ =~= error_reply(self@));
            },
            SocksError::Command => {
                push_reply(&mut out, 7);
                assert(out@ =~= error_reply(self@));
            },
            SocksError::AddressType => {
                push_reply(&mut out, 8);
                assert(out@ =~= error_reply(self@));
            },
            _ => {},
        }
        out
    }
}

/// A reply without an address.
pub open spec fn plain_reply(code: u8) -> Seq<u8> {
    seq![SOCKS_VERSION, code, 0u8, 1u8, 0u8, 0u8, 0u8, 0u8, 0u8, 0u8]
}

/// What a client that is turned away is told.
pub open spec fn error_reply(e: SocksErrorView) -> Seq<u8> {
    match e {
        SocksErrorView::NoMethod => seq![SOCKS_VERSION, 255u8],
        SocksErrorView::Command => plain_reply(7),
        SocksErrorView::AddressType => plain_reply(8),
        _ => Seq::empty(),
    }
}

/// Appends a reply without an address.
fn push_reply(out: &mut Vec<u8>, code: u8)
    ensures
        final(out)@ == old(out)@ + plain_reply(code),
{
    let ghost start = out@;
    out.push(SOCKS_VERSION);
    out.push(code);
    out.push(0);
    out.push(1);
    let mut i: usize = 0;
    while i < 6
        invariant
            i <= 6,
            out@ == start + plain_reply(code).take(4 + i),
        decreases 6 - i,
    {
        out.push(0);
        assert(plain_reply(code).take(5 + i) =~= plain_reply(code).take(4 + i).push(0));
        i = i + 1;
    }
    assert(plain_reply(code).take(10) =~= plain_reply(code));
}

/// The reply that a connection is being opened.
pub fn success_reply() -> (r: Vec<u8>)
    ensures
        r@ == plain_reply(0),
{
    let mut out: Vec<u8> = Vec::new();
    push_reply(&mut out, 0);
    assert(out@ =~= plain_reply(0));
    out
}

/// The answer to a greeting that is accepted.
pub fn method_reply() -> (r: [u8; 2])
    ensures
        r@ == seq![SOCKS_VERSION, 0u8],
{
    let r: [u8; 2] = [SOCKS_VERSION, 0];
    assert(r@ =~= seq![SOCKS_VERSION, 0u8]);
    r
}

/// What the bytes of a greeting say so far.
#[derive(Debug, PartialEq, Eq)]
pub enum Greeting {
    /// That many bytes are missing.
    Missing(usize),
    Refused(SocksError),
    Accepted,
}

/// What the bytes of a greeting say so far.
pub enum GreetingView {
    /// That many bytes are missing.
    Missing(nat),
    Refused(SocksErrorView),
    Accepted,
}

impl View for Greeting {
    type V = GreetingView;

    open spec fn view(&self) -> GreetingView {
        match self {
            Greeting::Missing(n) => GreetingView::Missing(*n as nat),
            Greeting::Refused(e) => GreetingView::Refused(e@),
            Greeting::Accepted => GreetingView::Accepted,
        }
    }
}

/// What `s` says: version, number of methods, methods. The method without authentication must
/// be among them.
pub open spec fn greeting_of(s: Seq<u8>) -> GreetingView {
    if s.len() < 2 {
        GreetingView::Missing((2 - s.len()) as nat)
    } else if s[0] != SOCKS_VERSION {
        GreetingView::Refused(SocksErrorView::GreetingVersion)
    } else if s.len() < 2 + s[1] {
        GreetingView::Missing((2 + s[1] - s.len()) as nat)
    } else if s.subrange(2, 2 + s[1]).contains(0u8) {
        GreetingView::Accepted
    } else {
        GreetingView::Refused(SocksErrorView::NoMethod)
    }
}

/// Reads a greeting as far as it is there.
pub fn read_greeting(s: &[u8]) -> (r: Greeting)
    ensures
        r@ == greeting_of(s@),
{
    let n: usize = s.len();
    if n < 2 {
        return Greeting::Missing(2 - n);
    }
    if s[0] != SOCKS_VERSION {
        return Greeting::Refused(SocksError::GreetingVersion);
    }
    let count: usize = s[1] as usize;
    if n < 2 + count {
        return Greeting::Missing(2 + count - n);
    }
    let ghost methods = s@.subrange(2, 2 + count);
    let mut i: usize = 0;
    while i < count
        invariant
            i <= count,
            n == s@.len(),
            2 + count <= n,
            s@[0] == SOCKS_VERSION,
            count == s@[1],
            methods == s@.subrange(2, 2 + count),
            forall|j: int| 0 <= j < i ==> methods[j] != 0,
        decreases count - i,
    {
        if s[2 + i] == 0 {
            assert(methods[i as int] == 0);
            return Greeting::Accepted;
        }
        i = i + 1;
    }
    Greeting::Refused(SocksError::NoMethod)
}

/// What a request asks for.
pub enum RequestView {
    /// That many bytes are missing.
    Missing(nat),
    Refused(SocksErrorView),
    /// The command, the host and the port.
    Accepted(u8, HostView, u16),
}

/// What a request asks for.
#[derive(Debug)]
pub enum Request {
    /// That many bytes are missing.
    Missing(usize),
    Refused(SocksError),
    /// The command, the host and the port.
    Accepted(u8, Host, u16),
}

impl View for Request {
    type V = RequestView;

    open spec fn view(&self) -> RequestView {
        match self {
            Request::Missing(n) => RequestView::Missing(*n as nat),
            Request::Refused(e) => RequestView::Refused(e@),
            Request::Accepted(c, h, p) => RequestView::Accepted(*c, h@, *p),
        }
    }
}

/// What `s` says: version, command, a reserved byte, host, port.
pub open spec fn request_of(s: Seq<u8>) -> RequestView {
    if s.len() < 4 {
        RequestView::Missing(missing(s, 4))
    } else if s[0] != SOCKS_VERSION {
        RequestView::Refused(SocksErrorView::RequestVersion)
    } else if s[1] != SOCKS_CONNECT && s[1] != SOCKS_ASSOCIATE {
        RequestView::Refused(SocksErrorView::Command)
    } else {
        match host_at(s, 3, SOCKS_DOMAIN, SOCKS_V6, 0) {
            HostReadView::Missing(n) => RequestView::Missing(n),
            HostReadView::UnknownType => RequestView::Refused(SocksErrorView::AddressType),
            HostReadView::BadDomain(e) => RequestView::Refused(SocksErrorView::Domain(e)),
            HostReadView::Found(host, end) => if s.len() < end + 2 {
                RequestView::Missing(missing(s, end as int + 2))
            } else {
                RequestView::Accepted(s[1], host, u16_at(s, end as int))
            },
        }
    }
}

/// Reads a request as far as it is there.
pub fn read_request(s: &[u8]) -> (r: Request)
    ensures
        r@ == request_of(s@),
{
    let n: usize = s.len();
    if n < 4 {
        return Request::Missing(4 - n);
    }
    if s[0] != SOCKS_VERSION {
        return Request::Refused(SocksError::RequestVersion);
    }
    let command: u8 = s[1];
    if command != SOCKS_CONNECT && command != SOCKS_ASSOCIATE {
        return Request::Refused(SocksError::Command);
    }
    match read_host(s, 3, SOCKS_DOMAIN, SOCKS_V6, 0) {
        HostRead::Missing(k) => Request::Missing(k),
        HostRead::UnknownType => Request::Refused(SocksError::AddressType),
        HostRead::BadDomain(e) => Request::Refused(SocksError::Domain(e)),
        HostRead::Found(host, end) => {
            let have: usize = n - end;
            if have < 2 {
                return Request::Missing(2 - have);
            }
            Request::Accepted(command, host, read_u16(s, end))
        },
    }
}

/// The greeting that this engine sends as a client is one that it accepts as a server.
pub proof fn law_own_greeting_accepted()
    ensures
        greeting_of(greeting()) == GreetingView::Accepted,
{
    let methods = greeting().subrange(2, 3);
    assert(methods[0] == 0);
}

/// The request that this engine sends as a client for a connection is read back as it was
/// written. From any cut of it the reader asks for more, and for no more than the request.
pub proof fn law_own_request_read(host: HostView, port: u16, cut: int)
    requires
        host_fits(host),
        0 <= cut <= request_bytes(PurposeView::Connect(host, port)).len(),
    ensures
        ({
            let whole = request_bytes(PurposeView::Connect(host, port));
            let r = request_of(whole.take(cut));
            if cut < whole.len() {
                r matches RequestView::Missing(k) && 0 < k && cut + k <= whole.len()
            } else {
                r == RequestView::Accepted(SOCKS_CONNECT, host, port)
            }
        }),
{
    let h = host_bytes(host, SOCKS_DOMAIN, SOCKS_V6);
    let whole = request_bytes(PurposeView::Connect(host, port));
    let front = seq![5u8, 1u8, 0u8];
    assert(whole =~= front + h + be16(port));
    let s = whole.take(cut);
    if cut >= 4 {
        lemma_host_read(front, host, be16(port), SOCKS_DOMAIN, SOCKS_V6, 0, cut);
        let end = (front + h).len() as int;
        if cut >= end + 2 {
            assert(whole =~= (front + h) + be16(port) + Seq::<u8>::empty());
            lemma_u16_between(front + h, port, Seq::empty());
            assert(s[end] == whole[end] && s[end + 1] == whole[end + 1]);
        }
    }
}

/// The request that this engine sends as a client for a relay is read as such.
pub proof fn law_own_associate_read()
    ensures
        request_of(request_bytes(PurposeView::Associate)) == RequestView::Accepted(
            SOCKS_ASSOCIATE,
            HostView::Ip(seq![0u8, 0u8, 0u8, 0u8]),
            0,
        ),
{
    let s = request_bytes(PurposeView::Associate);
    assert(s.subrange(4, 8) =~= seq![0u8, 0u8, 0u8, 0u8]);
}

/// The replies of this engine as a server are understood by it as a client: the one to a
/// request for a connection, and those with which it turns a client away.
pub proof fn law_own_replies_understood()
    ensures
        reply_step(plain_reply(0), false) == ReplyView::Accepted(None),
        reply_step(error_reply(SocksErrorView::Command), false) == ReplyView::Failed(
            DialError::Rejected,
        ),
        reply_step(error_reply(SocksErrorView::AddressType), false) == ReplyView::Failed(
            DialError::Rejected,
        ),
{
}

/// The reply to a request for a relay: where it listens.
pub open spec fn associate_reply_bytes(ip: Seq<u8>, port: u16) -> Seq<u8> {
    seq![SOCKS_VERSION, 0u8, 0u8] + host_bytes(HostView::Ip(ip), SOCKS_DOMAIN, SOCKS_V6) + be16(
        port,
    )
}

/// A client learns from that reply where the relay listens.
pub proof fn law_relay_address_learnt(ip: Seq<u8>, port: u16)
    requires
        is_ip(ip),
    ensures
        reply_step(associate_reply_bytes(ip, port), true) == ReplyView::Accepted(
            Some(plain_address(ip, port)),
        ),
{
    let h = host_bytes(HostView::Ip(ip), SOCKS_DOMAIN, SOCKS_V6);
    let front = seq![SOCKS_VERSION, 0u8, 0u8] + h;
    let s = associate_reply_bytes(ip, port);
    assert(s =~= front + be16(port) + Seq::<u8>::empty());
    lemma_u16_between(front, port, Seq::empty());
    assert(s[3] == h[0]);
    assert(s.subrange(4, 4 + ip.len() as int) =~= ip);
}

/// The reply to a request for a relay.
pub fn associate_reply(ip: IpAddress, port: u16) -> (r: Vec<u8>)
    ensures
        r@ == associate_reply_bytes(ip@, port),
{
    let mut out: Vec<u8> = Vec::new();
    out.push(SOCKS_VERSION);
    out.push(0);
    out.push(0);
    let host: Host = Host::Ip(ip);
    push_host(&mut out, &host, SOCKS_DOMAIN, SOCKS_V6);
    out.push(high_byte(port));
    out.push(low_byte(port));
    assert(out@ =~= associate_reply_bytes(ip@, port));
    out
}

/// Where a datagram goes.
#[derive(Debug, PartialEq, Eq)]
pub enum UdpTarget {
    Ip(IpAddress, u16),
    Domain(String, u16),
}

impl UdpTarget {
    /// The host.
    pub open spec fn host_view(&self) -> HostView {
        match self {
            UdpTarget::Ip(ip, _) => HostView::Ip(ip@),
            UdpTarget::Domain(d, _) => HostView::Domain(d@),
        }
    }

    /// The port.
    pub open spec fn port_view(&self) -> u16 {
        match self {
            UdpTarget::Ip(_, p) => *p,
            UdpTarget::Domain(_, p) => *p,
        }
    }

    /// The host.
    pub fn host(&self) -> (r: Host)
        ensures
            r@ == self.host_view(),
    {
        match self {
            UdpTarget::Ip(ip, _) => Host::Ip(*ip),
            UdpTarget::Domain(d, _) => Host::Domain(d.clone()),
        }
    }

    /// The port.
    pub fn port(&self) -> (r: u16)
        ensures
            r == self.port_view(),
    {
        match self {
            UdpTarget::Ip(_, port) => *port,
            UdpTarget::Domain(_, port) => *port,
        }
    }
}

/// Where the datagram of a client goes and where its payload starts. Datagrams that are parts
/// of larger ones are not taken.
pub open spec fn client_datagram(s: Seq<u8>) -> Option<(HostView, u16, nat)> {
    if s.len() < 4 || s[2] != 0 {
        None
    } else {
        addressed_parts(s, 3)
    }
}

/// What a client wraps for a host, by address or by name, is unwrapped again.
pub proof fn law_client_datagram_read(host: HostView, port: u16, payload: Seq<u8>)
    requires
        host_fits(host),
    ensures
        ({
            let s = socks_datagram(host, port, payload);
            client_datagram(s) matches Some(p) && p.0 == host && p.1 == port && s.skip(
                p.2 as int,
            ) == payload
        }),
{
    law_wrapped_datagram_addresses(host, port, payload);
}

/// Where the datagram of a client goes, and its payload.
pub fn read_client_datagram(s: &[u8]) -> (r: Option<(UdpTarget, Bytes)>)
    ensures
        match client_datagram(s@) {
            Some(p) => r matches Some(q) && q.0.host_view() == p.0 && q.0.port_view() == p.1
                && bytes_view(q.1) == s@.skip(p.2 as int),
            None => r is None,
        },
{
    if s.len() < 4 || s[2] != 0 {
        return None;
    }
    match read_addressed(s, 3) {
        Some((host, port, start)) => {
            let target = match host {
                Host::Ip(ip) => UdpTarget::Ip(ip, port),
                Host::Domain(d) => UdpTarget::Domain(d, port),
            };
            let payload: &[u8] = slice_subrange(s, start, s.len());
            assert(payload@ =~= s@.skip(start as int));
            Some((target, bytes_from_slice(payload)))
        },
        None => None,
    }
}

/// A datagram on its way to the tunnel.
#[derive(Debug)]
pub struct UdpUpstreamPacket {
    pub assoc_id: u16,
    pub target: UdpTarget,
    pub payload: Bytes,
}

impl UdpUpstreamPacket {
    /// The frame that carries the datagram through the tunnel.
    pub fn frame(&self) -> (r: Bytes)
        ensures
            bytes_view(r) == frame_bytes(
                self.assoc_id,
                self.target.host_view(),
                self.target.port_view(),
                bytes_view(self.payload),
            ),
    {
        let host: Host = self.target.host();
        write_frame(self.assoc_id, &host, self.target.port(), bytes_chunk(&self.payload))
    }
}

/// The VLESS server of the first way out that is one.
pub open spec fn tunnel_outbound(config: Config) -> Option<OutboundConfig> {
    first_where(config.outbounds@, |o: OutboundConfig| o.protocol@ == "vless"@)
}

/// The VLESS server that the tunnel for datagrams goes through.
pub open spec fn tunnel_config(config: Config) -> Option<VlessClientConfig> {
    match tunnel_outbound(config) {
        Some(o) => vless_settings(o),
        None => None,
    }
}

/// The tag under which connections through the tunnel are listed.
pub open spec fn tunnel_tag(config: Config) -> Seq<char> {
    match tunnel_outbound(config) {
        Some(o) => o.tag@,
        None => "vless"@,
    }
}

/// The first way out that is a VLESS server.
fn find_tunnel(config: &Config) -> (r: Option<&OutboundConfig>)
    ensures
        match r {
            Some(o) => tunnel_outbound(*config) == Some(*o),
            None => tunnel_outbound(*config) is None,
        },
{
    let ghost p = |o: OutboundConfig| o.protocol@ == "vless"@;
    let mut i: usize = 0;
    while i < config.outbounds.len()
        invariant
            i <= config.outbounds@.len(),
            p == (|o: OutboundConfig| o.protocol@ == "vless"@),
            forall|j: int| 0 <= j < i ==> !p(#[trigger] config.outbounds@[j]),
        decreases config.outbounds@.len() - i,
    {
        if same_text(config.outbounds[i].protocol.as_str(), "vless") {
            proof {
                lemma_first_where(config.outbounds@, p, i as int);
            }
            return Some(&config.outbounds[i]);
        }
        i = i + 1;
    }
    proof {
        lemma_none_where(config.outbounds@, p);
    }
    None
}

/// The VLESS server that the tunnel for datagrams goes through.
pub fn find_tunnel_config(config: &Config) -> (r: Option<VlessClientConfig>)
    ensures
        r == tunnel_config(*config),
{
    match find_tunnel(config) {
        Some(o) => vless_of(o),
        None => None,
    }
}

/// The tag under which connections through the tunnel are listed.
pub fn find_tunnel_tag(config: &Config) -> (r: String)
    ensures
        r@ == tunnel_tag(*config),
{
    match find_tunnel(config) {
        Some(o) => o.tag.clone(),
        None => "vless".to_string(),
    }
}

/// Why the tunnel cannot be asked for.
#[derive(Debug, PartialEq, Eq)]
pub enum TunnelError {
    /// No VLESS server is configured.
    NoServer,
    /// The user that is configured for it is no UUID, for the reason given.
    NoUuid(String),
    /// The server answers with another version.
    Version,
}

impl TunnelError {
    /// The error in words.
    pub fn message(&self) -> (r: &str)
        ensures
            r@ == match self {
                TunnelError::NoServer => "VLESS config missing"@,
                TunnelError::NoUuid(e) => e@,
                TunnelError::Version => "Invalid response protocol version"@,
            },
    {
        match self {
            TunnelError::NoServer => "VLESS config missing",
            TunnelError::NoUuid(e) => e.as_str(),
            TunnelError::Version => "Invalid response protocol version",
        }
    }
}

/// The request that opens the tunnel for datagrams to a host.
pub fn tunnel_request(config: &Config, host: &Host, port: u16) -> (r: Result<
    Vec<u8>,
    TunnelError,
>)
    ensures
        match tunnel_config(*config) {
            None => r == Err::<Vec<u8>, TunnelError>(TunnelError::NoServer),
            Some(c) => match uuid_of_text(c.uuid@) {
                None => r matches Err(TunnelError::NoUuid(e)) && e@ == uuid_error(c.uuid@),
                Some(user) => r matches Ok(b) && b@ == vless_header(
                    user,
                    COMMAND_UDP,
                    port,
                    host@,
                ),
            },
        },
{
    let c = match find_tunnel_config(config) {
        Some(c) => c,
        None => {
            return Err(TunnelError::NoServer);
        },
    };
    match request_header(c.uuid.as_str(), COMMAND_UDP, port, host) {
        Ok(b) => Ok(b),
        Err(e) => Err(TunnelError::NoUuid(e)),
    }
}

/// How long to wait before the tunnel is tried again, in milliseconds.
pub const TUNNEL_PAUSE: u64 = 2000;

/// What became of the tunnel.
#[derive(Debug, Clone, Copy, PartialEq, Eq)]
pub enum TunnelEvent {
    /// It could not be opened.
    NotConnected,
    /// Its reading side has ended.
    ReadEnded,
    /// Its writing side has failed.
    WriteFailed,
    /// There is nobody left to send for.
    QueueClosed,
}

/// What is to be done then.
#[derive(Debug, Clone, Copy, PartialEq, Eq)]
pub enum TunnelAction {
    /// Sleep for that many milliseconds, and open it again.
    Retry(u64),
    /// Open it again.
    Reconnect,
    /// Nothing more.
    Stop,
}

/// What is to be done about the tunnel: it is opened again until there is nobody left to send
/// for.
pub fn after_tunnel(event: TunnelEvent) -> (r: TunnelAction)
    ensures
        r == match event {
            TunnelEvent::NotConnected => TunnelAction::Retry(TUNNEL_PAUSE),
            TunnelEvent::ReadEnded => TunnelAction::Reconnect,
            TunnelEvent::WriteFailed => TunnelAction::Reconnect,
            TunnelEvent::QueueClosed => TunnelAction::Stop,
        },
{
    match event {
        TunnelEvent::NotConnected => TunnelAction::Retry(TUNNEL_PAUSE),
        TunnelEvent::ReadEnded => TunnelAction::Reconnect,
        TunnelEvent::WriteFailed => TunnelAction::Reconnect,
        TunnelEvent::QueueClosed => TunnelAction::Stop,
    }
}

/// Takes note of a client that has asked for a relay.
pub fn register_relay(
    state: &mut EngineState,
    id: u128,
    inbound_tag: &str,
    client_ip: &str,
    dest_host: &str,
    dest_port: u16,
    now: u64,
)
    requires
        old(state).wf(),
    ensures
        final(state).wf(),
        exists|conn: ConnectionInfo|
            final(state)@ == #[trigger] registered(old(state)@, conn) && conn.id == id
                && conn.inbound_tag@ == inbound_tag@ && conn.client_ip@ == client_ip@
                && conn.dest_address@ == joined_address(dest_host@, dest_port) && conn.sni is None
                && conn.outbound_tag@ == tunnel_tag(old(state)@.config) && conn.rx == 0 && conn.tx
                == 0 && conn.start_time == now,
{
    let conn = ConnectionInfo {
        id,
        inbound_tag: inbound_tag.to_string(),
        client_ip: client_ip.to_string(),
        dest_address: join_address(dest_host, dest_port),
        sni: None,
        outbound_tag: find_tunnel_tag(state.config()),
        rx: 0,
        tx: 0,
        start_time: now,
    };
    state.register_connection(conn);
}

/// The association of a client: where it sends from, and over what it is answered.
#[derive(Debug)]
pub struct ClientAssociation<S> {
    pub client_addr: SocketAddress,
    pub socket: S,
}

/// What the associations are.
#[verifier::ext_equal]
pub struct AssociationsView<S> {
    /// By number, with the second in which they were last used.
    pub by_id: Map<u16, Session<ClientAssociation<S>>>,
    /// The numbers by client.
    pub ids: Map<SocketAddressView, u16>,
    /// The number that is given out next.
    pub next: u16,
}

/// The associations of all clients.
pub struct Associations<S> {
    by_id: IdSessions<ClientAssociation<S>>,
    ids: AddressMap<u16>,
    next: u16,
}

impl<S> View for Associations<S> {
    type V = AssociationsView<S>;

    closed spec fn view(&self) -> AssociationsView<S> {
        AssociationsView { by_id: self.by_id@, ids: self.ids@, next: self.next }
    }
}

/// Whether each association is the one that its client has the number of.
pub open spec fn consistent<S>(v: AssociationsView<S>) -> bool {
    forall|id: u16| #[trigger]
        v.by_id.contains_key(id) ==> {
            let c = v.by_id[id].link.client_addr@;
            v.ids.contains_key(c) && v.ids[c] == id
        }
}

/// The associations with one of them used now.
pub open spec fn association_used<S>(
    v: AssociationsView<S>,
    id: u16,
    now: u64,
) -> AssociationsView<S> {
    AssociationsView { by_id: touched(v.by_id, id, now), ..v }
}

/// The associations after a client was heard of: it keeps its number, or gets the next one.
/// The numbers start again when they have run out.
pub open spec fn heard_of<S>(
    v: AssociationsView<S>,
    client_addr: SocketAddress,
    socket: S,
    now: u64,
) -> (AssociationsView<S>, u16) {
    if v.ids.contains_key(client_addr@) {
        let id = v.ids[client_addr@];
        (association_used(v, id, now), id)
    } else {
        (
            AssociationsView {
                by_id: opened(v.by_id, v.next, ClientAssociation { client_addr, socket }, now),
                ids: v.ids.insert(client_addr@, v.next),
                next: v.next.wrapping_add(1),
            },
            v.next,
        )
    }
}

/// The clients whose associations have been idle for too long.
pub open spec fn idle_clients<S>(v: AssociationsView<S>, now: u64) -> Set<SocketAddressView> {
    Set::new(
        |c: SocketAddressView|
            exists|id: u16| #[trigger]
                v.by_id.contains_key(id) && is_idle(v.by_id[id].last_active, now)
                    && v.by_id[id].link.client_addr@ == c,
    )
}

/// The associations without those that have been idle for too long.
pub open spec fn associations_swept<S>(v: AssociationsView<S>, now: u64) -> AssociationsView<S> {
    AssociationsView {
        by_id: swept(v.by_id, now),
        ids: v.ids.remove_keys(idle_clients(v, now)),
        next: v.next,
    }
}

/// An answer under the number of an association goes to the client that was last given that
/// number: this holds from the beginning, and hearing of a client, using an association and
/// forgetting idle ones keep it so.
pub proof fn law_associations_stay_consistent<S>(
    v: AssociationsView<S>,
    client_addr: SocketAddress,
    socket: S,
    id: u16,
    now: u64,
)
    requires
        consistent(v),
    ensures
        consistent(heard_of(v, client_addr, socket, now).0),
        consistent(association_used(v, id, now)),
        consistent(associations_swept(v, now)),
{
    let w = heard_of(v, client_addr, socket, now).0;
    assert forall|k: u16| #[trigger] w.by_id.contains_key(k) implies ({
        let c = w.by_id[k].link.client_addr@;
        w.ids.contains_key(c) && w.ids[c] == k
    }) by {
        if v.by_id.contains_key(k) {
            assert(v.ids.contains_key(v.by_id[k].link.client_addr@));
        }
    }
    lemma_swept_consistent(v, now);
}

/// Forgetting idle associations leaves those that stay with their clients.
proof fn lemma_swept_consistent<S>(v: AssociationsView<S>, now: u64)
    requires
        consistent(v),
    ensures
        consistent(associations_swept(v, now)),
{
    let t = associations_swept(v, now);
    assert forall|k: u16| #[trigger] t.by_id.contains_key(k) implies ({
        let c = t.by_id[k].link.client_addr@;
        t.ids.contains_key(c) && t.ids[c] == k
    }) by {
        assert(v.by_id.contains_key(k));
        let c = v.by_id[k].link.client_addr@;
        if idle_clients(v, now).contains(c) {
            let other = choose|other: u16| #[trigger]
                v.by_id.contains_key(other) && is_idle(v.by_id[other].last_active, now)
                    && v.by_id[other].link.client_addr@ == c;
            assert(v.ids[c] == other);
        }
    }
}

/// How many numbers there are.
pub const NUMBERS: u32 = 65536;

/// The number that is given out after `made` others: they start at one, and zero is the last.
pub open spec fn number_after(made: nat) -> u16 {
    ((made + 1) % (NUMBERS as nat)) as u16
}

/// How many numbers are given out before a number.
pub open spec fn given_before(number: u16) -> int {
    if number == 0 {
        NUMBERS - 1
    } else {
        number - 1
    }
}

/// What holds of the associations when `made` of them have been made and the numbers have not
/// run out: the clients and the associations belong together one by one, and all numbers are
/// among those that have been given out.
pub open spec fn sound<S>(v: AssociationsView<S>, made: nat) -> bool {
    &&& made <= NUMBERS
    &&& v.next == number_after(made)
    &&& consistent(v)
    &&& forall|c: SocketAddressView| #[trigger]
        v.ids.contains_key(c) ==> {
            &&& v.by_id.contains_key(v.ids[c])
            &&& v.by_id[v.ids[c]].link.client_addr@ == c
            &&& given_before(v.ids[c]) < made
        }
}

/// What happens to the associations.
pub enum AssociationEvent<S> {
    /// A client was heard of.
    Heard(SocketAddress, S, u64),
    /// An association was used.
    Used(u16, u64),
    /// Idle associations were forgotten.
    Swept(u64),
}

/// The associations after an event.
pub open spec fn associations_step<S>(
    v: AssociationsView<S>,
    e: AssociationEvent<S>,
) -> AssociationsView<S> {
    match e {
        AssociationEvent::Heard(client_addr, socket, now) => heard_of(
            v,
            client_addr,
            socket,
            now,
        ).0,
        AssociationEvent::Used(id, now) => association_used(v, id, now),
        AssociationEvent::Swept(now) => associations_swept(v, now),
    }
}

/// How many associations an event makes: one if a client is heard of that is not known.
pub open spec fn made_by<S>(v: AssociationsView<S>, e: AssociationEvent<S>) -> nat {
    match e {
        AssociationEvent::Heard(client_addr, _, _) => if v.ids.contains_key(client_addr@) {
            0
        } else {
            1
        },
        _ => 0,
    }
}

/// The associations after a run of events, and how many the run has made.
pub open spec fn associations_run<S>(
    v: AssociationsView<S>,
    events: Seq<AssociationEvent<S>>,
) -> (AssociationsView<S>, nat)
    decreases events.len(),
{
    if events.len() == 0 {
        (v, 0)
    } else {
        let (w, made) = associations_run(v, events.drop_last());
        (associations_step(w, events.last()), made + made_by(w, events.last()))
    }
}

/// Whether a client is known before a run of events, after it and all the while.
pub open spec fn stays_known<S>(
    v: AssociationsView<S>,
    events: Seq<AssociationEvent<S>>,
    client: SocketAddressView,
) -> bool
    decreases events.len(),
{
    &&& associations_run(v, events).0.ids.contains_key(client)
    &&& events.len() > 0 ==> stays_known(v, events.drop_last(), client)
}

/// A client that is heard of leaves the associations sound.
proof fn lemma_heard_sound<S>(
    v: AssociationsView<S>,
    made: nat,
    client_addr: SocketAddress,
    socket: S,
    now: u64,
)
    requires
        sound(v, made),
        v.ids.contains_key(client_addr@) || made < NUMBERS,
    ensures
        sound(
            heard_of(v, client_addr, socket, now).0,
            made + made_by(v, AssociationEvent::Heard(client_addr, socket, now)),
        ),
{
    let w = heard_of(v, client_addr, socket, now).0;
    law_associations_stay_consistent(v, client_addr, socket, 0, now);
    if !v.ids.contains_key(client_addr@) {
        let next = v.next;
        assert(given_before(next) == made);
        assert(next.wrapping_add(1) == number_after(made + 1));
        assert forall|c: SocketAddressView| #[trigger] w.ids.contains_key(c) implies {
            &&& w.by_id.contains_key(w.ids[c])
            &&& w.by_id[w.ids[c]].link.client_addr@ == c
            &&& given_before(w.ids[c]) < made + 1
        } by {
            if c != client_addr@ {
                assert(v.ids.contains_key(c));
                assert(v.ids[c] != next);
            }
        }
    }
}

/// Forgetting idle associations leaves them sound.
proof fn lemma_swept_sound<S>(v: AssociationsView<S>, made: nat, now: u64)
    requires
        sound(v, made),
    ensures
        sound(associations_swept(v, now), made),
{
    let w = associations_swept(v, now);
    assert(consistent(w)) by {
        lemma_swept_consistent(v, now);
    }
    assert forall|c: SocketAddressView| #[trigger] w.ids.contains_key(c) implies {
        &&& w.by_id.contains_key(w.ids[c])
        &&& w.by_id[w.ids[c]].link.client_addr@ == c
        &&& given_before(w.ids[c]) < made
    } by {
        assert(v.ids.contains_key(c));
        let id = v.ids[c];
        assert(v.by_id.contains_key(id));
        assert(!idle_clients(v, now).contains(c));
    }
}

/// Whatever happens, as long as the numbers have not run out: each known client has its
/// association and each association its client, and a number is given out only once.
pub proof fn law_associations_stay_sound<S>(
    v: AssociationsView<S>,
    made: nat,
    events: Seq<AssociationEvent<S>>,
)
    requires
        sound(v, made),
        made + associations_run(v, events).1 <= NUMBERS,
    ensures
        sound(associations_run(v, events).0, made + associations_run(v, events).1),
    decreases events.len(),
{
    if events.len() > 0 {
        let front = events.drop_last();
        let (w, more) = associations_run(v, front);
        law_associations_stay_sound(v, made, front);
        match events.last() {
            AssociationEvent::Heard(client_addr, socket, now) => {
                lemma_heard_sound(w, made + more, client_addr, socket, now);
            },
            AssociationEvent::Used(id, now) => {
                let x = association_used(w, id, now);
                assert forall|c: SocketAddressView| #[trigger] x.ids.contains_key(c) implies {
                    &&& x.by_id.contains_key(x.ids[c])
                    &&& x.by_id[x.ids[c]].link.client_addr@ == c
                    &&& given_before(x.ids[c]) < made + more
                } by {
                    assert(w.ids.contains_key(c));
                }
                assert forall|k: u16| #[trigger] x.by_id.contains_key(k) implies ({
                    let c = x.by_id[k].link.client_addr@;
                    x.ids.contains_key(c) && x.ids[c] == k
                }) by {
                    assert(w.by_id.contains_key(k));
                }
            },
            AssociationEvent::Swept(now) => {
                lemma_swept_sound(w, made + more, now);
            },
        }
    }
}

/// A client keeps its number and what it is answered over for as long as it is known, whatever
/// else happens, and no other client has its number.
pub proof fn law_client_keeps_its_association<S>(
    v: AssociationsView<S>,
    made: nat,
    events: Seq<AssociationEvent<S>>,
    client: SocketAddressView,
)
    requires
        sound(v, made),
        made + associations_run(v, events).1 <= NUMBERS,
        stays_known(v, events, client),
    ensures
        ({
            let w = associations_run(v, events).0;
            let id = v.ids[client];
            &&& v.ids.contains_key(client)
            &&& w.ids[client] == id
            &&& w.by_id.contains_key(id)
            &&& w.by_id[id].link == v.by_id[id].link
            &&& forall|other: SocketAddressView| #[trigger]
                w.ids.contains_key(other) && other != client ==> w.ids[other] != id
        }),
    decreases events.len(),
{
    law_associations_stay_sound(v, made, events);
    if events.len() > 0 {
        let front = events.drop_last();
        law_associations_stay_sound(v, made, front);
        law_client_keeps_its_association(v, made, front, client);
        let (w, more) = associations_run(v, front);
        let id = v.ids[client];
        match events.last() {
            AssociationEvent::Heard(client_addr, socket, now) => {
                if !w.ids.contains_key(client_addr@) {
                    assert(given_before(w.next) == made + more);
                    assert(given_before(id) < made + more);
                }
            },
            _ => {},
        }
    }
    let w = associations_run(v, events).0;
    assert forall|other: SocketAddressView| #[trigger]
        w.ids.contains_key(other) && other != client implies w.ids[other] != v.ids[client] by {
        assert(w.by_id[w.ids[other]].link.client_addr@ == other);
        assert(w.by_id[w.ids[client]].link.client_addr@ == client);
    }
}

/// A client that is heard of again while it is known gets the number that it has. Its
/// association is marked as used and stays as it is otherwise, the new socket is not taken, and
/// nothing else changes. Another client that is heard of gets another number, as long as the
/// numbers have not run out.
pub proof fn law_client_heard_again<S>(
    v: AssociationsView<S>,
    made: nat,
    client_addr: SocketAddress,
    other: SocketAddress,
    socket: S,
    now: u64,
)
    requires
        sound(v, made),
        v.ids.contains_key(client_addr@),
        other@ != client_addr@,
    ensures
        ({
            let id = v.ids[client_addr@];
            let (w, r) = heard_of(v, client_addr, socket, now);
            &&& r == id
            &&& w.ids == v.ids
            &&& w.next == v.next
            &&& w.by_id == v.by_id.insert(
                id,
                Session { link: v.by_id[id].link, last_active: now },
            )
            &&& v.ids.contains_key(other@) || made < NUMBERS ==> heard_of(
                v,
                other,
                socket,
                now,
            ).1 != id
        }),
{
    let id = v.ids[client_addr@];
    if v.ids.contains_key(other@) {
        assert(v.by_id[v.ids[other@]].link.client_addr@ == other@);
    } else if made < NUMBERS {
        assert(given_before(v.next) == made);
    }
}

/// The clients of the first `n` associations.
spec fn link_clients<S>(links: Seq<ClientAssociation<S>>, n: int) -> Set<SocketAddressView> {
    Set::new(
        |c: SocketAddressView| exists|j: int| 0 <= j < n && (#[trigger] links[j]).client_addr@ == c,
    )
}

impl<S> Associations<S> {
    /// Whether no client occurs twice.
    pub closed spec fn wf(&self) -> bool {
        self.ids.wf()
    }

    /// No associations.
    pub fn new() -> (r: Associations<S>)
        ensures
            r.wf(),
            r@.by_id == Map::<u16, Session<ClientAssociation<S>>>::empty(),
            r@.ids == Map::<SocketAddressView, u16>::empty(),
            r@.next == 1,
            sound(r@, 0),
    {
        Associations { by_id: IdSessions::new(), ids: AddressMap::new(), next: 1 }
    }

    /// The association with a number.
    pub fn get(&self, id: u16) -> (r: Option<&Session<ClientAssociation<S>>>)
        ensures
            match r {
                Some(a) => self@.by_id.contains_key(id) && *a == self@.by_id[id],
                None => !self@.by_id.contains_key(id),
            },
    {
        self.by_id.get(id)
    }

    /// Takes note that an association is used now. Says whether there is such an association.
    pub fn touch(&mut self, id: u16, now: u64) -> (r: bool)
        requires
            old(self).wf(),
        ensures
            final(self).wf(),
            r == old(self)@.by_id.contains_key(id),
            final(self)@ == association_used(old(self)@, id, now),
    {
        self.by_id.touch(id, now)
    }

    /// The number of a client that was heard of now.
    pub fn get_or_create_association(
        &mut self,
        client_addr: SocketAddress,
        socket: S,
        now: u64,
    ) -> (r: u16)
        requires
            old(self).wf(),
        ensures
            final(self).wf(),
            (final(self)@, r) == heard_of(old(self)@, client_addr, socket, now),
    {
        let known: Option<u16> = match self.ids.get(&client_addr) {
            Some(id) => Some(*id),
            None => None,
        };
        match known {
            Some(id) => {
                let _ = self.touch(id, now);
                id
            },
            None => {
                let id: u16 = self.next;
                self.next = id.wrapping_add(1);
                self.ids.insert(client_addr, id);
                self.by_id.open(id, ClientAssociation { client_addr, socket }, now);
                id
            },
        }
    }

    /// Forgets the associations that have been idle for too long.
    pub fn sweep(&mut self, now: u64)
        requires
            old(self).wf(),
        ensures
            final(self).wf(),
            final(self)@ == associations_swept(old(self)@, now),
    {
        let ghost before = self@;
        let links: Vec<ClientAssociation<S>> = self.by_id.sweep(now);
        let ghost ids = before.ids;
        assert(ids.remove_keys(link_clients(links@, 0)) =~= ids);
        let mut i: usize = 0;
        while i < links.len()
            invariant
                i <= links@.len(),
                self.ids.wf(),
                self.ids@ == ids.remove_keys(link_clients(links@, i as int)),
                self.by_id@ == swept(before.by_id, now),
                self.next == before.next,
            decreases links@.len() - i,
        {
            self.ids.remove(&links[i].client_addr);
            proof {
                let n = i as int;
                let more = link_clients(links@, n + 1);
                assert forall|c: SocketAddressView| more.contains(c) <==> link_clients(
                    links@,
                    n,
                ).contains(c) || c == links@[n].client_addr@ by {
                    if c == links@[n].client_addr@ {
                        assert(links@[n].client_addr@ == c);
                    }
                    if link_clients(links@, n).contains(c) {
                        let j = choose|j: int|
                            0 <= j < n && (#[trigger] links@[j]).client_addr@ == c;
                        assert(links@[j].client_addr@ == c);
                    }
                }
                assert(self.ids@ =~= ids.remove_keys(more));
            }
            i = i + 1;
        }
        proof {
            let m = before.by_id;
            let keys = choose|keys: Seq<u16>| #[trigger]
                links_of(m, self.by_id@, links@, keys);
            assert forall|c: SocketAddressView| link_clients(links@, i as int).contains(c)
                <==> idle_clients(before, now).contains(c) by {
                if link_clients(links@, i as int).contains(c) {
                    let j = choose|j: int|
                        0 <= j < i && (#[trigger] links@[j]).client_addr@ == c;
                    assert(links@[j] == m[keys[j]].link);
                    assert(keys.contains(keys[j]));
                    assert(m.contains_key(keys[j]));
                }
                if idle_clients(before, now).contains(c) {
                    let id = choose|id: u16| #[trigger]
                        m.contains_key(id) && is_idle(m[id].last_active, now)
                            && m[id].link.client_addr@ == c;
                    assert(!self.by_id@.contains_key(id));
                    assert(keys.contains(id));
                    let j = choose|j: int| 0 <= j < keys.len() && keys[j] == id;
                    assert(links@[j] == m[keys[j]].link);
                    assert(links@[j].client_addr@ == c);
                }
            }
            assert(link_clients(links@, i as int) =~= idle_clients(before, now));
            assert(self@ =~= associations_swept(before, now));
        }
    }
}

/// A greeting is accepted if it offers to do without authentication, wherever in its list it
/// does; otherwise it is refused. It is refused at once if it has another version, and asked for
/// as far as it is not there.
pub proof fn law_greeting_decides(methods: Seq<u8>, rest: Seq<u8>, version: u8)
    requires
        methods.len() <= 255,
    ensures
        ({
            let s = seq![5u8, methods.len() as u8] + methods + rest;
            &&& (exists|i: int| 0 <= i < methods.len() && #[trigger] methods[i] == 0) ==> greeting_of(
                s,
            ) == GreetingView::Accepted
            &&& (forall|i: int| 0 <= i < methods.len() ==> #[trigger] methods[i] != 0)
                ==> greeting_of(s) == GreetingView::Refused(SocksErrorView::NoMethod)
        }),
        version != 5 && rest.len() > 0 ==> greeting_of(seq![version] + rest)
            == GreetingView::Refused(SocksErrorView::GreetingVersion),
{
    let s = seq![5u8, methods.len() as u8] + methods + rest;
    assert(s.subrange(2, 2 + s[1]) =~= methods);
    if exists|i: int| 0 <= i < methods.len() && #[trigger] methods[i] == 0 {
        let i = choose|i: int| 0 <= i < methods.len() && #[trigger] methods[i] == 0;
        assert(methods.contains(0));
    }
}

/// Of a greeting that is not all there, as many bytes are asked for as its count of methods
/// says.
pub proof fn law_greeting_waits(methods: Seq<u8>, cut: int)
    requires
        methods.len() <= 255,
        0 <= cut < 2 + methods.len(),
    ensures
        greeting_of((seq![5u8, methods.len() as u8] + methods).take(cut)) == GreetingView::Missing(
            if cut < 2 {
                (2 - cut) as nat
            } else {
                (2 + methods.len() - cut) as nat
            },
        ),
{
    let s = (seq![5u8, methods.len() as u8] + methods).take(cut);
    if cut >= 2 {
        assert(s[0] == 5 && s[1] == methods.len());
    }
}

/// A request for a connection or a relay is read with its host and its port, whatever its
/// reserved byte says. Another version, another command and another type of address are refused,
/// in this order, and so is a name that is not UTF-8.
pub proof fn law_request_decides(command: u8, reserved: u8, host: HostView, port: u16, s: Seq<u8>)
    ensures
        host_fits(host) && (command == 1 || command == 3) ==> request_of(
            seq![5u8, command, reserved] + host_bytes(host, 3, 4) + be16(port),
        ) == RequestView::Accepted(command, host, port),
        s.len() >= 4 && s[0] != 5 ==> request_of(s) == RequestView::Refused(
            SocksErrorView::RequestVersion,
        ),
        s.len() >= 4 && s[0] == 5 && s[1] != 1 && s[1] != 3 ==> request_of(s)
            == RequestView::Refused(SocksErrorView::Command),
        s.len() >= 4 && s[0] == 5 && (s[1] == 1 || s[1] == 3) && s[3] != 1 && s[3] != 3 && s[3] != 4
            ==> request_of(s) == RequestView::Refused(SocksErrorView::AddressType),
        s.len() >= 5 && s[0] == 5 && (s[1] == 1 || s[1] == 3) && s[3] == 3 && s.len() >= 5 + s[4]
            && !valid_utf8(s.subrange(5, 5 + s[4])) ==> request_of(s) == RequestView::Refused(
            SocksErrorView::Domain(utf8_error(s.subrange(5, 5 + s[4]))),
        ),
{
    if host_fits(host) && (command == 1 || command == 3) {
        let front = seq![5u8, command, reserved];
        let h = host_bytes(host, 3, 4);
        let whole = front + h + be16(port);
        assert(whole.take(whole.len() as int) =~= whole);
        lemma_host_read(front, host, be16(port), 3, 4, 0, whole.len() as int);
        assert(whole =~= (front + h) + be16(port) + Seq::<u8>::empty());
        lemma_u16_between(front + h, port, Seq::empty());
        assert(whole[0] == 5 && whole[1] == command);
    }
}

/// A client that is turned away is told why where the protocol has an answer for it.
pub proof fn law_turned_away_in_words(reason: Seq<char>)
    ensures
        error_reply(SocksErrorView::NoMethod) == seq![5u8, 255u8],
        error_reply(SocksErrorView::Command) == seq![5u8, 7, 0, 1, 0, 0, 0, 0, 0, 0],
        error_reply(SocksErrorView::AddressType) == seq![5u8, 8, 0, 1, 0, 0, 0, 0, 0, 0],
        error_reply(SocksErrorView::GreetingVersion).len() == 0,
        error_reply(SocksErrorView::RequestVersion).len() == 0,
        error_reply(SocksErrorView::Domain(reason)).len() == 0,
        plain_reply(0) == seq![5u8, 0, 0, 1, 0, 0, 0, 0, 0, 0],
{
}

/// A datagram of a client is taken if it is no part of a larger one and names a host; whatever
/// its two reserved bytes are, its payload is all that follows the port.
pub proof fn law_client_datagram_taken(
    a: u8,
    b: u8,
    part: u8,
    host: HostView,
    port: u16,
    payload: Seq<u8>,
)
    requires
        host_fits(host),
    ensures
        ({
            let s = seq![a, b, part] + host_bytes(host, 3, 4) + be16(port) + payload;
            &&& part != 0 ==> client_datagram(s) is None
            &&& part == 0 ==> (client_datagram(s) matches Some(d) && d.0 == host && d.1 == port
                && s.skip(d.2 as int) == payload)
        }),
{
    let front = seq![a, b, part];
    let s = front + host_bytes(host, 3, 4) + be16(port) + payload;
    assert(s =~= front + addressed(host, port, payload));
    lemma_addressed_read(front, host, port, payload);
}

/// A datagram that names no host is not taken: one that is too short, or has an address of an
/// unknown type, or a name that is not UTF-8.
pub proof fn law_other_datagrams_not_taken(s: Seq<u8>)
    requires
        ({
            ||| s.len() < 4
            ||| s[3] != 1 && s[3] != 3 && s[3] != 4
            ||| s[3] == 1 && s.len() < 10
            ||| s[3] == 4 && s.len() < 22
            ||| s[3] == 3 && (s.len() < 5 || s.len() < 7 + s[4])
            ||| s[3] == 3 && !valid_utf8(s.subrange(5, 5 + s[4]))
        }),
    ensures
        client_datagram(s) is None,
{
}

/// The tunnel goes through the first way out that is a VLESS server, and is listed under its
/// tag; without one there is none, and the tag is `vless`.
pub proof fn law_tunnel_is_the_first_server(config: Config, i: int)
    ensures
        0 <= i < config.outbounds@.len() && config.outbounds@[i].protocol@ == "vless"@ && (forall|
            j: int,
        |
            0 <= j < i ==> (#[trigger] config.outbounds@[j]).protocol@ != "vless"@) ==> {
            &&& tunnel_tag(config) == config.outbounds@[i].tag@
            &&& tunnel_config(config) == match config.outbounds@[i].settings {
                Some(s) => s.vless,
                None => None,
            }
        },
        (forall|j: int|
            0 <= j < config.outbounds@.len() ==> (#[trigger] config.outbounds@[j]).protocol@
                != "vless"@) ==> tunnel_config(config) is None && tunnel_tag(config) == "vless"@,
{
    let p = |o: OutboundConfig| o.protocol@ == "vless"@;
    let outs = config.outbounds@;
    if 0 <= i < outs.len() && outs[i].protocol@ == "vless"@ && (forall|j: int|
        0 <= j < i ==> (#[trigger] outs[j]).protocol@ != "vless"@) {
        assert forall|j: int| 0 <= j < i implies !p(#[trigger] outs[j]) by {}
        lemma_first_where(outs, p, i);
    }
    if forall|j: int| 0 <= j < outs.len() ==> (#[trigger] outs[j]).protocol@ != "vless"@ {
        assert forall|j: int| 0 <= j < outs.len() implies !p(#[trigger] outs[j]) by {}
        lemma_none_where(outs, p);
    }
}

/// A client that is not known gets the next number and an association of its own; all others
/// keep theirs, unless the numbers have run out and its number was theirs.
pub proof fn law_new_client_gets_an_association<S>(
    v: AssociationsView<S>,
    client_addr: SocketAddress,
    socket: S,
    now: u64,
    other: SocketAddressView,
    id: u16,
)
    requires
        !v.ids.contains_key(client_addr@),
    ensures
        ({
            let (w, r) = heard_of(v, client_addr, socket, now);
            &&& r == v.next
            &&& w.next == (v.next + 1) % 65536
            &&& w.ids.contains_key(client_addr@) && w.ids[client_addr@] == r
            &&& w.by_id.contains_key(r)
            &&& w.by_id[r].link.client_addr == client_addr
            &&& w.by_id[r].link.socket == socket
            &&& w.by_id[r].last_active == now
            &&& other != client_addr@ ==> w.ids.contains_key(other) == v.ids.contains_key(other)
                && w.ids[other] == v.ids[other]
            &&& id != r ==> w.by_id.contains_key(id) == v.by_id.contains_key(id) && w.by_id[id]
                == v.by_id[id]
        }),
{
}

/// A client is forgotten exactly if its association was last used more than a minute ago.
pub proof fn law_idle_clients_are_forgotten<S>(
    v: AssociationsView<S>,
    made: nat,
    now: u64,
    client: SocketAddressView,
)
    requires
        sound(v, made),
    ensures
        ({
            let w = associations_swept(v, now);
            &&& w.ids.contains_key(client) <==> v.ids.contains_key(client) && now
                - v.by_id[v.ids[client]].last_active <= 60
            &&& w.ids.contains_key(client) ==> w.ids[client] == v.ids[client]
                && w.by_id.contains_key(w.ids[client]) && w.by_id[w.ids[client]]
                == v.by_id[v.ids[client]]
            &&& w.next == v.next
        }),
{
    lemma_swept_sound(v, made, now);
    let w = associations_swept(v, now);
    if v.ids.contains_key(client) {
        let id = v.ids[client];
        assert(v.by_id.contains_key(id));
        if idle_clients(v, now).contains(client) {
            let other = choose|other: u16| #[trigger]
                v.by_id.contains_key(other) && is_idle(v.by_id[other].last_active, now)
                    && v.by_id[other].link.client_addr@ == client;
            assert(other == id);
        } else {
            assert(!is_idle(v.by_id[id].last_active, now));
        }
    }
}

/// Where a datagram goes is told by its target, by address or by name; what was read of a
/// greeting or a request is told as it was read, and an error as what it is.
pub proof fn law_told_as_read(
    ip: IpAddress,
    name: String,
    port: u16,
    n: usize,
    command: u8,
    host: Host,
    e: SocksError,
)
    ensures
        UdpTarget::Ip(ip, port).host_view() == HostView::Ip(ip@),
        UdpTarget::Domain(name, port).host_view() == HostView::Domain(name@),
        UdpTarget::Ip(ip, port).port_view() == port,
        UdpTarget::Domain(name, port).port_view() == port,
        Greeting::Missing(n)@ == GreetingView::Missing(n as nat),
        Greeting::Refused(e)@ == GreetingView::Refused(e@),
        Greeting::Accepted@ == GreetingView::Accepted,
        Request::Missing(n)@ == RequestView::Missing(n as nat),
        Request::Refused(e)@ == RequestView::Refused(e@),
        Request::Accepted(command, host, port)@ == RequestView::Accepted(command, host@, port),
        SocksError::GreetingVersion@ == SocksErrorView::GreetingVersion,
        SocksError::NoMethod@ == SocksErrorView::NoMethod,
        SocksError::RequestVersion@ == SocksErrorView::RequestVersion,
        SocksError::Command@ == SocksErrorView::Command,
        SocksError::AddressType@ == SocksErrorView::AddressType,
        SocksError::Domain(name)@ == SocksErrorView::Domain(name@),
{
}

} // verus!
