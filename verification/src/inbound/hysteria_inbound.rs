//! The Hysteria 2 listener: authentication, requests for streams, and datagrams.

use crate::config::{copy_text, Client, Config, InboundConfig};
use crate::ids::{parse_uuid, uuid_error, uuid_of_text};
use crate::router::text_view;
use crate::search::{first_where, lemma_first_where, lemma_none_where};
use crate::state::{registered, ConnectionInfo, EngineState};
use crate::text::{
    joined_address, law_joined_address_splits, law_two_parts, parse_u16, same_text, split_in_two,
    split_two, unsigned_value,
};
use crate::transport::hysteria_proto::{
    padding_at_front, size_of, tcp_request_at_front, tcp_response_at_front, varint_at_front,
    TCPRequest, UDPMessage, UDPMessageView,
};
use crate::wire::{
    be_value, buffer_advance, buffer_chunk, buffer_view, bytes_from_slice, bytes_remaining,
};
use bytes::{Bytes, BytesMut};
use vstd::prelude::*;
use vstd::string::*;
use vstd::utf8::*;

verus! {

/// The status with which a client is accepted.
pub const STATUS_ACCEPTED: u16 = 233;

/// The Hysteria 2 listener.
#[derive(Debug)]
pub struct HysteriaInbound {
    pub config: InboundConfig,
}

impl HysteriaInbound {
    /// A listener.
    pub fn new(config: InboundConfig) -> (r: HysteriaInbound)
        ensures
            r.config == config,
    {
        HysteriaInbound { config }
    }
}

/// Why a client is not accepted.
#[derive(Debug, PartialEq, Eq)]
pub enum AuthError {
    /// The request is not the one for authentication.
    Request,
    /// It does not say who asks.
    NoHeader,
    /// What it says is no UUID, for the reason given.
    NoUuid(String),
    /// The user may not use the engine.
    Refused,
}

/// Why a client is not accepted.
pub enum AuthErrorView {
    Request,
    NoHeader,
    NoUuid(Seq<char>),
    Refused,
}

impl View for AuthError {
    type V = AuthErrorView;

    open spec fn view(&self) -> AuthErrorView {
        match self {
            AuthError::Request => AuthErrorView::Request,
            AuthError::NoHeader => AuthErrorView::NoHeader,
            AuthError::NoUuid(e) => AuthErrorView::NoUuid(e@),
            AuthError::Refused => AuthErrorView::Refused,
        }
    }
}

impl AuthError {
    /// The error in words.
    pub fn message(&self) -> (r: &str)
        ensures
            r@ == match self {
                AuthError::Request => "Invalid HTTP/3 auth path or method"@,
                AuthError::NoHeader => "Missing Hysteria-Auth header"@,
                AuthError::NoUuid(e) => e@,
                AuthError::Refused => "Authentication failed"@,
            },
    {
        match self {
            AuthError::Request => "Invalid HTTP/3 auth path or method",
            AuthError::NoHeader => "Missing Hysteria-Auth header",
            AuthError::NoUuid(e) => e.as_str(),
            AuthError::Refused => "Authentication failed",
        }
    }
}

/// The address of a client of a listener, by the text of its identifier.
pub open spec fn email_by_text(config: Config, inbound_tag: Seq<char>, id: Seq<char>) -> Option<
    String,
> {
    match first_where(config.inbounds@, |i: InboundConfig| i.tag@ == inbound_tag) {
        Some(inbound) => match inbound.settings.clients {
            Some(clients) => match first_where(clients@, |c: Client| c.id@ == id) {
                Some(client) => client.email,
                None => None,
            },
            None => None,
        },
        None => None,
    }
}

/// Whether a client is accepted: it posts to `/auth`, and says who it is with the UUID of a
/// user.
pub open spec fn admits(
    method: Seq<char>,
    path: Seq<char>,
    auth: Option<Seq<char>>,
    users: Set<Seq<u8>>,
) -> Result<(), AuthErrorView> {
    if method != "POST"@ || path != "/auth"@ {
        Err(AuthErrorView::Request)
    } else {
        match auth {
            None => Err(AuthErrorView::NoHeader),
            Some(text) => match uuid_of_text(text) {
                None => Err(AuthErrorView::NoUuid(uuid_error(text))),
                Some(id) => if users.contains(id) {
                    Ok(())
                } else {
                    Err(AuthErrorView::Refused)
                },
            },
        }
    }
}

/// Nobody is accepted who is no user of the configuration.
pub proof fn law_only_users_admitted(
    method: Seq<char>,
    path: Seq<char>,
    auth: Option<Seq<char>>,
    users: Set<Seq<u8>>,
)
    ensures
        admits(method, path, auth, users) is Ok ==> auth is Some && uuid_of_text(auth->0) is Some
            && users.contains(uuid_of_text(auth->0)->0),
{
}

/// The text of a client of a listener.
fn find_by_text(clients: &Vec<Client>, id: &str) -> (r: Option<String>)
    ensures
        r == match first_where(clients@, |c: Client| c.id@ == id@) {
            Some(client) => client.email,
            None => None,
        },
{
    let ghost p = |c: Client| c.id@ == id@;
    let mut i: usize = 0;
    while i < clients.len()
        invariant
            i <= clients@.len(),
            p == (|c: Client| c.id@ == id@),
            forall|j: int| 0 <= j < i ==> !p(#[trigger] clients@[j]),
        decreases clients@.len() - i,
    {
        if same_text(clients[i].id.as_str(), id) {
            proof {
                lemma_first_where(clients@, p, i as int);
            }
            return copy_text(&clients[i].email);
        }
        i = i + 1;
    }
    proof {
        lemma_none_where(clients@, p);
    }
    None
}

/// The address of a client of a listener, by the text of its identifier.
pub fn find_email_by_text(config: &Config, inbound_tag: &str, id: &str) -> (r: Option<String>)
    ensures
        r == email_by_text(*config, inbound_tag@, id@),
{
    let ghost p = |i: InboundConfig| i.tag@ == inbound_tag@;
    let mut i: usize = 0;
    while i < config.inbounds.len()
        invariant
            i <= config.inbounds@.len(),
            p == (|i: InboundConfig| i.tag@ == inbound_tag@),
            forall|j: int| 0 <= j < i ==> !p(#[trigger] config.inbounds@[j]),
        decreases config.inbounds@.len() - i,
    {
        if same_text(config.inbounds[i].tag.as_str(), inbound_tag) {
            proof {
                lemma_first_where(config.inbounds@, p, i as int);
            }
            return match &config.inbounds[i].settings.clients {
                Some(clients) => find_by_text(clients, id),
                None => None,
            };
        }
        i = i + 1;
    }
    proof {
        lemma_none_where(config.inbounds@, p);
    }
    None
}

/// Decides whether a client is accepted, and under which address its traffic is counted. The
/// method and the path are those of its request, `auth` is what its `Hysteria-Auth` header
/// says.
pub fn authenticate(
    method: &str,
    path: &str,
    auth: &Option<String>,
    inbound_tag: &str,
    state: &EngineState,
) -> (r: Result<Option<String>, AuthError>)
    ensures
        match admits(method@, path@, text_view(*auth), state@.users) {
            Ok(_) => r == Ok::<Option<String>, AuthError>(
                email_by_text(state@.config, inbound_tag@, (*auth)->0@),
            ),
            Err(e) => r matches Err(f) && f@ == e,
        },
{
    if !same_text(method, "POST") || !same_text(path, "/auth") {
        return Err(AuthError::Request);
    }
    let text = match auth {
        Some(t) => t,
        None => {
            return Err(AuthError::NoHeader);
        },
    };
    let id = match parse_uuid(text.as_str()) {
        Ok(id) => id,
        Err(e) => {
            return Err(AuthError::NoUuid(e));
        },
    };
    if !state.is_user_allowed(&id) {
        return Err(AuthError::Refused);
    }
    Ok(find_email_by_text(state.config(), inbound_tag, text.as_str()))
}

/// The padding of an authentication request and of its answer.
pub open spec fn padding_text() -> Seq<char> {
    Seq::new(16, |i: int| 'a')
}

/// The padding of an authentication request and of its answer.
pub fn padding() -> (r: String)
    ensures
        r@ == padding_text(),
{
    proof {
        reveal_strlit("aaaaaaaaaaaaaaaa");
    }
    let r = "aaaaaaaaaaaaaaaa".to_string();
    assert(r@ =~= padding_text());
    r
}

/// The headers with which a client is accepted.
pub fn accepting_headers() -> (r: Vec<(&'static str, String)>)
    ensures
        r@.len() == 3,
        r@[0].0@ == "Hysteria-UDP"@ && r@[0].1@ == "true"@,
        r@[1].0@ == "Hysteria-CC-RX"@ && r@[1].1@ == "auto"@,
        r@[2].0@ == "Hysteria-Padding"@ && r@[2].1@ == padding_text(),
{
    let mut out: Vec<(&'static str, String)> = Vec::new();
    out.push(("Hysteria-UDP", "true".to_string()));
    out.push(("Hysteria-CC-RX", "auto".to_string()));
    out.push(("Hysteria-Padding", padding()));
    out
}

/// Takes note of a client that was accepted.
pub fn register_client(
    state: &mut EngineState,
    id: u128,
    inbound_tag: &str,
    client_ip: &str,
    now: u64,
)
    requires
        old(state).wf(),
    ensures
        final(state).wf(),
        exists|conn: ConnectionInfo|
            final(state)@ == #[trigger] registered(old(state)@, conn) && conn.id == id
                && conn.inbound_tag@ == inbound_tag@ && conn.client_ip@ == client_ip@
                && conn.dest_address@ == "hysteria-multiplexed"@ && conn.sni is None
                && conn.outbound_tag@ == "freedom"@ && conn.rx == 0 && conn.tx == 0
                && conn.start_time == now,
{
    let conn = ConnectionInfo {
        id,
        inbound_tag: inbound_tag.to_string(),
        client_ip: client_ip.to_string(),
        dest_address: "hysteria-multiplexed".to_string(),
        sni: None,
        outbound_tag: "freedom".to_string(),
        rx: 0,
        tx: 0,
        start_time: now,
    };
    state.register_connection(conn);
}

/// What is left behind a request is the end of what was there.
pub proof fn lemma_request_rest(s: Seq<u8>)
    ensures
        tcp_request_at_front(s).0 is Some ==> {
            let rest = tcp_request_at_front(s).1;
            rest.len() <= s.len() && rest == s.skip(s.len() - rest.len())
        },
{
    if tcp_request_at_front(s).0 is Some {
        let id = varint_at_front(s)->0;
        let s1 = s.skip(id.1 as int);
        let len = varint_at_front(s1)->0;
        let s2 = s1.skip(len.1 as int);
        let n = size_of(len.0) as int;
        let s3 = s2.skip(n);
        let rest = padding_at_front(s3).1;
        assert(rest =~= s.skip(s.len() - rest.len()));
    }
}

/// Takes a request off the front of what a stream has brought so far. What is not a whole
/// request stays.
pub fn take_tcp_request(buf: &mut BytesMut) -> (r: Option<TCPRequest>)
    ensures
        match tcp_request_at_front(buffer_view(*old(buf))) {
            (Some(address), rest) => r matches Some(q) && q.address@ == address && buffer_view(
                *final(buf),
            ) == rest,
            (None, _) => r is None && buffer_view(*final(buf)) == buffer_view(*old(buf)),
        },
{
    let ghost s = buffer_view(*buf);
    let mut cursor: Bytes = bytes_from_slice(buffer_chunk(buf));
    let before: usize = bytes_remaining(&cursor);
    let parsed = TCPRequest::parse(&mut cursor);
    proof {
        lemma_request_rest(s);
    }
    match parsed {
        Some(req) => {
            let after: usize = bytes_remaining(&cursor);
            buffer_advance(buf, before - after);
            Some(req)
        },
        None => None,
    }
}

/// Where a request leads: its address is a host and a port with one colon between them.
pub open spec fn stream_target(address: Seq<char>) -> Option<(Seq<char>, u16)> {
    match split_in_two(address, ':') {
        Some(p) => match unsigned_value(p.1, u16::MAX as nat) {
            Some(port) => Some((p.0, port as u16)),
            None => None,
        },
        None => None,
    }
}

/// Where a request leads.
pub fn read_stream_target(address: &str) -> (r: Option<(String, u16)>)
    ensures
        match stream_target(address@) {
            Some(t) => r matches Some(p) && p.0@ == t.0 && p.1 == t.1,
            None => r is None,
        },
{
    match split_two(address, ':') {
        Some((host, port)) => match parse_u16(port.as_str()) {
            Some(port) => Some((host, port)),
            None => None,
        },
        None => None,
    }
}

/// A request for a host without a colon leads there.
pub proof fn law_request_leads_to_its_target(host: Seq<char>, port: u16)
    requires
        forall|j: int| 0 <= j < host.len() ==> host[j] != ':',
    ensures
        stream_target(joined_address(host, port)) == Some((host, port)),
{
    law_joined_address_splits(host, port);
}

/// The answer to a request: one byte if the stream is open, two if it is not.
pub fn stream_answer(open: bool) -> (r: Vec<u8>)
    ensures
        r@ == stream_answer_bytes(open),
{
    let mut out: Vec<u8> = Vec::new();
    if open {
        out.push(0);
    } else {
        out.push(1);
        out.push(0);
    }
    assert(out@ =~= stream_answer_bytes(open));
    out
}

/// The answer to a request.
pub open spec fn stream_answer_bytes(open: bool) -> Seq<u8> {
    if open {
        seq![0u8]
    } else {
        seq![1u8, 0u8]
    }
}

/// A client understands the answer to its request: status zero if and only if the stream is
/// open, and what follows the answer is left for the stream.
pub proof fn law_stream_answer_understood(open: bool, rest: Seq<u8>)
    ensures
        tcp_response_at_front(stream_answer_bytes(open) + rest).0 matches Some(p) && (p.0 == 0)
            == open,
        tcp_response_at_front(stream_answer_bytes(open) + rest).1 == rest,
{
    let s = stream_answer_bytes(open) + rest;
    if open {
        assert(s.skip(1) =~= rest);
    } else {
        let s1 = s.skip(1);
        assert(s1[0] == 0);
        let w = be_value(seq![(s1[0] % 64) as u8] + s1.subrange(1, 1));
        assert(seq![(s1[0] % 64) as u8] + s1.subrange(1, 1) =~= seq![0u8]);
        assert(seq![0u8].drop_last() =~= Seq::<u8>::empty());
        assert(be_value(seq![0u8].drop_last()) == 0);
        assert(varint_at_front(s1) == Some((0u64, 1nat)));
        let s2 = s1.skip(1);
        assert(s2.skip(0) =~= rest);
    }
}

/// The message that takes a datagram from outside to the client: in the session and with the
/// packet number of the datagram that opened it, in one piece.
pub fn reply_message(session_id: u32, packet_id: u16, sender: &str, payload: &[u8]) -> (r:
    UDPMessage)
    ensures
        r@ == (UDPMessageView {
            session_id,
            packet_id,
            fragment_id: 0,
            fragment_count: 1,
            address: sender@,
            payload: payload@,
        }),
{
    UDPMessage {
        session_id,
        packet_id,
        fragment_id: 0,
        fragment_count: 1,
        address: sender.to_string(),
        payload: bytes_from_slice(payload),
    }
}

/// A client is admitted exactly if it posts to `/auth` with the UUID of a user. Otherwise the
/// first thing that is wrong is why not: the request, the missing header, the text that is no
/// UUID, the user.
pub proof fn law_admitted_exactly_if(
    method: Seq<char>,
    path: Seq<char>,
    auth: Option<Seq<char>>,
    users: Set<Seq<u8>>,
)
    ensures
        ({
            let r = admits(method, path, auth, users);
            let asks = method == "POST"@ && path == "/auth"@;
            &&& r is Ok <==> asks && auth is Some && uuid_of_text(auth->0) is Some
                && users.contains(uuid_of_text(auth->0)->0)
            &&& !asks ==> r == Err::<(), AuthErrorView>(AuthErrorView::Request)
            &&& asks && auth is None ==> r == Err::<(), AuthErrorView>(AuthErrorView::NoHeader)
            &&& asks && auth is Some && uuid_of_text(auth->0) is None ==> r == Err::<
                (),
                AuthErrorView,
            >(AuthErrorView::NoUuid(uuid_error(auth->0)))
            &&& asks && auth is Some && uuid_of_text(auth->0) is Some && !users.contains(
                uuid_of_text(auth->0)->0,
            ) ==> r == Err::<(), AuthErrorView>(AuthErrorView::Refused)
        }),
{
}

/// Traffic is counted under the address of the first client of the first listener with the tag
/// whose identifier is written as the client wrote it; without such a client under none.
pub proof fn law_email_of_the_first_by_text(
    config: Config,
    tag: String,
    id: String,
    i: int,
    k: int,
)
    requires
        0 <= i < config.inbounds@.len(),
        config.inbounds@[i].tag@ == tag@,
        forall|j: int| 0 <= j < i ==> (#[trigger] config.inbounds@[j]).tag@ != tag@,
    ensures
        ({
            let clients = config.inbounds@[i].settings.clients;
            let r = email_by_text(config, tag@, id@);
            &&& clients is None ==> r is None
            &&& clients is Some && 0 <= k < (clients->0)@.len() && (clients->0)@[k].id@ == id@ && (
            forall|j: int| 0 <= j < k ==> (#[trigger] (clients->0)@[j]).id@ != id@) ==> r
                == (clients->0)@[k].email
            &&& clients is Some && (forall|j: int|
                0 <= j < (clients->0)@.len() ==> (#[trigger] (clients->0)@[j]).id@ != id@) ==> r
                is None
        }),
{
    let p = |x: InboundConfig| x.tag@ == tag@;
    let inbounds = config.inbounds@;
    assert forall|j: int| 0 <= j < i implies !p(#[trigger] inbounds[j]) by {}
    lemma_first_where(inbounds, p, i);
    if let Some(clients) = inbounds[i].settings.clients {
        let c = |x: Client| x.id@ == id@;
        let all = clients@;
        if 0 <= k < all.len() && all[k].id@ == id@ && (forall|j: int|
            0 <= j < k ==> (#[trigger] all[j]).id@ != id@) {
            assert forall|j: int| 0 <= j < k implies !c(#[trigger] all[j]) by {}
            lemma_first_where(all, c, k);
        }
        if forall|j: int| 0 <= j < all.len() ==> (#[trigger] all[j]).id@ != id@ {
            assert forall|j: int| 0 <= j < all.len() implies !c(#[trigger] all[j]) by {}
            lemma_none_where(all, c);
        }
    }
}

/// A request leads somewhere exactly if its address has one colon with a port behind it; the
/// host is all that stands before the colon.
pub proof fn law_target_of_request(host: Seq<char>, port: Seq<char>, text: Seq<char>)
    ensures
        (forall|j: int| 0 <= j < host.len() ==> host[j] != ':') && (forall|j: int|
            0 <= j < port.len() ==> port[j] != ':') ==> stream_target(host.push(':') + port)
            == match unsigned_value(port, 65535) {
            Some(n) => Some((host, n as u16)),
            None => None,
        },
        (forall|j: int| 0 <= j < text.len() ==> text[j] != ':') ==> stream_target(text) is None,
        (exists|i: int, j: int|
            0 <= i < j < text.len() && #[trigger] text[i] == ':' && #[trigger] text[j] == ':')
            ==> stream_target(text) is None,
{
    law_two_parts(host, port, text, ':');
}

/// Requests and answers are padded with sixteen letters, and a refusal says why.
pub proof fn law_padding_and_refusals(i: int, e: String)
    ensures
        padding_text().len() == 16,
        0 <= i < 16 ==> padding_text()[i] == 'a',
        AuthError::Request@ == AuthErrorView::Request,
        AuthError::NoHeader@ == AuthErrorView::NoHeader,
        AuthError::NoUuid(e)@ == AuthErrorView::NoUuid(e@),
        AuthError::Refused@ == AuthErrorView::Refused,
{
}

} // verus!
