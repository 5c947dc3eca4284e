//! From a request to a connection: who asks, which way out it takes, and how it is listed.

use crate::config::{copy_text, Client, Config, InboundConfig, OutboundConfig};
use crate::ids::{is_random_id, new_connection_id, parse_uuid, uuid_of_text};
use crate::net::{same_octets, IpAddress};
use crate::outbound::udp::UdpOutbound;
use crate::outbound::{chosen_handler, get_outbound_handler, Handler, HandlerError};
use crate::outbound::vless_client::COMMAND_UDP;
use crate::router::{routed_tag, text_view, Request, Router};
use crate::search::{first_where, lemma_first_where, lemma_none_where};
use crate::state::{is_user, registered, ConnectionInfo, EngineState, EngineView};
use crate::text::{decimal_text, join_address, joined_address, same_text};
use vstd::prelude::*;
use vstd::string::*;

verus! {

/// A request that was accepted by a listener.
#[derive(Debug)]
pub struct Incoming {
    pub inbound_tag: String,
    pub client_ip: String,
    pub dest_addr: String,
    /// The address that `dest_addr` spells, if it spells one.
    pub literal: Option<IpAddress>,
    pub dest_port: u16,
    pub user: [u8; 16],
    pub command: u8,
    pub sni: Option<String>,
}

/// What is to be done with a request.
#[derive(Debug)]
pub struct Dispatch {
    /// The connection that was opened for it.
    pub id: u128,
    /// Under which address its traffic is counted.
    pub email: Option<String>,
    pub outbound_tag: String,
    pub handler: Handler,
}

/// The address of a user: that of the first client of the listener that is the user.
pub open spec fn email_of(config: Config, inbound_tag: Seq<char>, user: Seq<u8>) -> Option<
    String,
> {
    match first_where(config.inbounds@, |i: InboundConfig| i.tag@ == inbound_tag) {
        Some(inbound) => match inbound.settings.clients {
            Some(clients) => match first_where(clients@, |c: Client| is_user(c, user)) {
                Some(client) => client.email,
                None => None,
            },
            None => None,
        },
        None => None,
    }
}

/// The first way out with a tag.
pub open spec fn outbound_by_tag(config: Config, tag: Seq<char>) -> Option<OutboundConfig> {
    first_where(config.outbounds@, |o: OutboundConfig| o.tag@ == tag)
}

/// The way out for a command. Datagrams go through a VLESS server if that is the way out, and
/// otherwise directly, whatever the way out is.
pub open spec fn handler_for(outbound: Option<OutboundConfig>, command: u8) -> Result<
    Handler,
    HandlerError,
> {
    if outbound matches Some(o) && o.protocol@ == "vless"@ {
        chosen_handler(outbound, command == COMMAND_UDP)
    } else if command == COMMAND_UDP {
        Ok(Handler::Udp(UdpOutbound { outbound_proxy: None, bind_address: None }))
    } else {
        chosen_handler(outbound, false)
    }
}

/// What the router looks at.
pub open spec fn routing_request(q: Incoming) -> Request {
    Request {
        inbound_tag: q.inbound_tag@,
        dest_addr: q.dest_addr@,
        dest_is_name: q.literal is None,
        dest_port: q.dest_port,
        sni: text_view(q.sni),
    }
}

/// Whether a connection is listed as the one of a request.
pub open spec fn listed_as(
    conn: ConnectionInfo,
    id: u128,
    q: Incoming,
    tag: Seq<char>,
    now: u64,
) -> bool {
    &&& conn.id == id
    &&& conn.inbound_tag == q.inbound_tag
    &&& conn.client_ip == q.client_ip
    &&& conn.dest_address@ == joined_address(q.dest_addr@, q.dest_port)
    &&& conn.sni == q.sni
    &&& conn.outbound_tag@ == tag
    &&& conn.rx == 0
    &&& conn.tx == 0
    &&& conn.start_time == now
}

/// Whether a request was dispatched under an identifier: it takes the way out of the first
/// rule that applies, and is listed; where that way out is not configured, nothing happens.
pub open spec fn dispatched(
    before: EngineView,
    after: EngineView,
    id: u128,
    q: Incoming,
    now: u64,
    r: Result<Dispatch, HandlerError>,
) -> bool {
    let tag = routed_tag(before.config, routing_request(q));
    match handler_for(outbound_by_tag(before.config, tag), q.command) {
        Ok(handler) => {
            &&& r matches Ok(d)
            &&& d.id == id
            &&& d.email == email_of(before.config, q.inbound_tag@, q.user@)
            &&& d.outbound_tag@ == tag
            &&& d.handler == handler
            &&& exists|conn: ConnectionInfo|
                after == #[trigger] registered(before, conn) && listed_as(conn, id, q, tag, now)
        },
        Err(e) => r == Err::<Dispatch, HandlerError>(e) && after == before,
    }
}

/// A request is listed exactly if it has a way out, and then under its own identifier.
pub proof fn law_dispatched_is_listed(
    before: EngineView,
    after: EngineView,
    id: u128,
    q: Incoming,
    now: u64,
    r: Result<Dispatch, HandlerError>,
)
    requires
        dispatched(before, after, id, q, now, r),
    ensures
        r is Ok ==> after.connections.contains_key(id) && after.connections[id].id == id,
        r is Err ==> after == before,
{
}

/// Every request has a way out unless its way out is a VLESS or Hysteria 2 server that is not
/// configured: with a way out that is none of these it is never refused.
pub proof fn law_only_missing_servers_refuse(outbound: Option<OutboundConfig>, command: u8)
    requires
        outbound matches Some(o) ==> o.protocol@ != "vless"@ && o.protocol@ != "hysteria2"@,
    ensures
        handler_for(outbound, command) is Ok,
{
}

/// The client of a listener that is a user.
fn find_client(clients: &Vec<Client>, user: &[u8; 16]) -> (r: Option<String>)
    ensures
        r == match first_where(clients@, |c: Client| is_user(c, user@)) {
            Some(client) => client.email,
            None => None,
        },
{
    let ghost p = |c: Client| is_user(c, user@);
    let mut i: usize = 0;
    while i < clients.len()
        invariant
            i <= clients@.len(),
            p == (|c: Client| is_user(c, user@)),
            forall|j: int| 0 <= j < i ==> !p(#[trigger] clients@[j]),
        decreases clients@.len() - i,
    {
        let parsed = match parse_uuid(clients[i].id.as_str()) {
            Ok(id) => Some(id),
            Err(_) => None,
        };
        if names_user(&parsed, user) {
            proof {
                lemma_first_where(clients@, p, i as int);
            }
            return copy_text(&clients[i].email);
        }
        i = i + 1;
    }
    proof {
        lemma_none_where(clients@, p);
    }
    None
}

/// Whether an identifier that may be none is that of a user.
pub fn names_user(parsed: &Option<[u8; 16]>, user: &[u8; 16]) -> (r: bool)
    ensures
        r == (parsed matches Some(id) && id@ == user@),
{
    match parsed {
        Some(id) => same_octets(id.as_slice(), user.as_slice()),
        None => false,
    }
}

/// The address of a user of a listener.
pub fn find_email(config: &Config, inbound_tag: &str, user: &[u8; 16]) -> (r: Option<String>)
    ensures
        r == email_of(*config, inbound_tag@, user@),
{
    let ghost p = |i: InboundConfig| i.tag@ == inbound_tag@;
    let mut i: usize = 0;
    while i < config.inbounds.len()
        invariant
            i <= config.inbounds@.len(),
            p == (|i: InboundConfig| i.tag@ == inbound_tag@),
            forall|j: int| 0 <= j < i ==> !p(#[trigger] config.inbounds@[j]),
        decreases config.inbounds@.len() - i,
    {
        if same_text(config.inbounds[i].tag.as_str(), inbound_tag) {
            proof {
                lemma_first_where(config.inbounds@, p, i as int);
            }
            return match &config.inbounds[i].settings.clients {
                Some(clients) => find_client(clients, user),
                None => None,
            };
        }
        i = i + 1;
    }
    proof {
        lemma_none_where(config.inbounds@, p);
    }
    None
}

/// The first way out with a tag.
pub fn find_outbound<'a>(config: &'a Config, tag: &str) -> (r: Option<&'a OutboundConfig>)
    ensures
        match r {
            Some(o) => outbound_by_tag(*config, tag@) == Some(*o),
            None => outbound_by_tag(*config, tag@) is None,
        },
{
    let ghost p = |o: OutboundConfig| o.tag@ == tag@;
    let mut i: usize = 0;
    while i < config.outbounds.len()
        invariant
            i <= config.outbounds@.len(),
            p == (|o: OutboundConfig| o.tag@ == tag@),
            forall|j: int| 0 <= j < i ==> !p(#[trigger] config.outbounds@[j]),
        decreases config.outbounds@.len() - i,
    {
        if same_text(config.outbounds[i].tag.as_str(), tag) {
            proof {
                lemma_first_where(config.outbounds@, p, i as int);
            }
            return Some(&config.outbounds[i]);
        }
        i = i + 1;
    }
    proof {
        lemma_none_where(config.outbounds@, p);
    }
    None
}

/// The way out for a command.
pub fn select_handler(outbound: Option<&OutboundConfig>, command: u8) -> (r: Result<
    Handler,
    HandlerError,
>)
    ensures
        r == handler_for(
            match outbound {
                Some(o) => Some(*o),
                None => None,
            },
            command,
        ),
{
    let is_udp: bool = command == COMMAND_UDP;
    let vless: bool = match outbound {
        Some(o) => same_text(o.protocol.as_str(), "vless"),
        None => false,
    };
    if vless {
        get_outbound_handler(outbound, is_udp)
    } else if is_udp {
        Ok(Handler::Udp(UdpOutbound::new(None, None)))
    } else {
        get_outbound_handler(outbound, false)
    }
}

/// Dispatches a request under an identifier.
pub fn dispatch_with_id(
    state: &mut EngineState,
    id: u128,
    incoming: &Incoming,
    now: u64,
) -> (r: Result<Dispatch, HandlerError>)
    requires
        old(state).wf(),
    ensures
        final(state).wf(),
        dispatched(old(state)@, final(state)@, id, *incoming, now, r),
{
    let router = Router::new();
    let tag: String = router.route(
        incoming.inbound_tag.as_str(),
        incoming.dest_addr.as_str(),
        incoming.literal,
        incoming.dest_port,
        &incoming.sni,
        state.config(),
    );
    let email = find_email(state.config(), incoming.inbound_tag.as_str(), &incoming.user);
    let handler = match select_handler(
        find_outbound(state.config(), tag.as_str()),
        incoming.command,
    ) {
        Ok(h) => h,
        Err(e) => {
            return Err(e);
        },
    };
    let conn = ConnectionInfo {
        id,
        inbound_tag: incoming.inbound_tag.clone(),
        client_ip: incoming.client_ip.clone(),
        dest_address: join_address(incoming.dest_addr.as_str(), incoming.dest_port),
        sni: copy_text(&incoming.sni),
        outbound_tag: tag.clone(),
        rx: 0,
        tx: 0,
        start_time: now,
    };
    state.register_connection(conn);
    Ok(Dispatch { id, email, outbound_tag: tag, handler })
}

/// Dispatches a request under a fresh identifier.
pub fn dispatch_connection(state: &mut EngineState, incoming: &Incoming, now: u64) -> (r: Result<
    Dispatch,
    HandlerError,
>)
    requires
        old(state).wf(),
    ensures
        final(state).wf(),
        exists|id: u128|
            is_random_id(id) && #[trigger] dispatched(
                old(state)@,
                final(state)@,
                id,
                *incoming,
                now,
                r,
            ),
{
    let id: u128 = new_connection_id();
    dispatch_with_id(state, id, incoming, now)
}

/// Datagrams go through a VLESS server if that is the way out, and else directly, without proxy
/// and local address, whatever the way out is; connections take their way out.
pub proof fn law_way_out_for_command(o: OutboundConfig, command: u8)
    ensures
        command == 2 && o.protocol@ == "vless"@ ==> handler_for(Some(o), command) == chosen_handler(
            Some(o),
            true,
        ),
        command == 2 && o.protocol@ != "vless"@ ==> (handler_for(Some(o), command) matches Ok(
            Handler::Udp(u),
        ) && u.outbound_proxy is None && u.bind_address is None),
        command == 2 ==> (handler_for(None, command) matches Ok(Handler::Udp(u))
            && u.outbound_proxy is None && u.bind_address is None),
        command != 2 ==> handler_for(Some(o), command) == chosen_handler(Some(o), false),
        command != 2 ==> handler_for(None, command) == chosen_handler(None, false),
{
}

/// The way out with a tag is the first one that has it.
pub proof fn law_first_way_out_with_the_tag(config: Config, tag: String, i: int)
    ensures
        0 <= i < config.outbounds@.len() && config.outbounds@[i].tag@ == tag@ && (forall|j: int|
            0 <= j < i ==> (#[trigger] config.outbounds@[j]).tag@ != tag@) ==> outbound_by_tag(
            config,
            tag@,
        ) == Some(config.outbounds@[i]),
        (forall|j: int|
            0 <= j < config.outbounds@.len() ==> (#[trigger] config.outbounds@[j]).tag@ != tag@)
            ==> outbound_by_tag(config, tag@) is None,
{
    let p = |o: OutboundConfig| o.tag@ == tag@;
    let outs = config.outbounds@;
    if 0 <= i < outs.len() && outs[i].tag@ == tag@ && (forall|j: int|
        0 <= j < i ==> (#[trigger] outs[j]).tag@ != tag@) {
        assert forall|j: int| 0 <= j < i implies !p(#[trigger] outs[j]) by {}
        lemma_first_where(outs, p, i);
    }
    if forall|j: int| 0 <= j < outs.len() ==> (#[trigger] outs[j]).tag@ != tag@ {
        assert forall|j: int| 0 <= j < outs.len() implies !p(#[trigger] outs[j]) by {}
        lemma_none_where(outs, p);
    }
}

/// Traffic of a user is counted under the address of the first client of the first listener
/// with the tag whose identifier is the UUID of the user, however it is written; without such a
/// client under none.
pub proof fn law_email_of_the_first_client(
    config: Config,
    tag: String,
    user: [u8; 16],
    i: int,
    k: int,
)
    requires
        0 <= i < config.inbounds@.len(),
        config.inbounds@[i].tag@ == tag@,
        forall|j: int| 0 <= j < i ==> (#[trigger] config.inbounds@[j]).tag@ != tag@,
    ensures
        ({
            let clients = config.inbounds@[i].settings.clients;
            let r = email_of(config, tag@, user@);
            &&& clients is None ==> r is None
            &&& clients is Some && 0 <= k < (clients->0)@.len() && uuid_of_text(
                (clients->0)@[k].id@,
            ) == Some(user@) && (forall|j: int|
                0 <= j < k ==> uuid_of_text((#[trigger] (clients->0)@[j]).id@) != Some(user@)) ==> r
                == (clients->0)@[k].email
            &&& clients is Some && (forall|j: int|
                0 <= j < (clients->0)@.len() ==> uuid_of_text((#[trigger] (clients->0)@[j]).id@)
                    != Some(user@)) ==> r is None
        }),
{
    let p = |x: InboundConfig| x.tag@ == tag@;
    let inbounds = config.inbounds@;
    assert forall|j: int| 0 <= j < i implies !p(#[trigger] inbounds[j]) by {}
    lemma_first_where(inbounds, p, i);
    if let Some(clients) = inbounds[i].settings.clients {
        let c = |x: Client| is_user(x, user@);
        let all = clients@;
        if 0 <= k < all.len() && uuid_of_text(all[k].id@) == Some(user@) && (forall|j: int|
            0 <= j < k ==> uuid_of_text((#[trigger] all[j]).id@) != Some(user@)) {
            assert forall|j: int| 0 <= j < k implies !c(#[trigger] all[j]) by {}
            lemma_first_where(all, c, k);
        }
        if forall|j: int|
            0 <= j < all.len() ==> uuid_of_text((#[trigger] all[j]).id@) != Some(user@) {
            assert forall|j: int| 0 <= j < all.len() implies !c(#[trigger] all[j]) by {}
            lemma_none_where(all, c);
        }
    }
}

/// No listener has the tag, so nobody's traffic is counted.
pub proof fn law_no_listener_no_email(config: Config, tag: String, user: [u8; 16])
    requires
        forall|j: int|
            0 <= j < config.inbounds@.len() ==> (#[trigger] config.inbounds@[j]).tag@ != tag@,
    ensures
        email_of(config, tag@, user@) is None,
{
    let p = |x: InboundConfig| x.tag@ == tag@;
    assert forall|j: int| 0 <= j < config.inbounds@.len() implies !p(
        #[trigger] config.inbounds@[j],
    ) by {}
    lemma_none_where(config.inbounds@, p);
}

/// A request that is dispatched takes the way out that the rules give it, is counted under the
/// address of its user, and is listed with its own particulars and with nothing carried yet;
/// nothing else changes. A request without a way out changes nothing.
pub proof fn law_dispatch_as_routed(
    before: EngineView,
    after: EngineView,
    id: u128,
    q: Incoming,
    now: u64,
    r: Result<Dispatch, HandlerError>,
)
    requires
        dispatched(before, after, id, q, now, r),
    ensures
        ({
            let tag = routed_tag(
                before.config,
                Request {
                    inbound_tag: q.inbound_tag@,
                    dest_addr: q.dest_addr@,
                    dest_is_name: q.literal is None,
                    dest_port: q.dest_port,
                    sni: match q.sni {
                        Some(s) => Some(s@),
                        None => None,
                    },
                },
            );
            let way = handler_for(outbound_by_tag(before.config, tag), q.command);
            &&& r is Ok <==> way is Ok
            &&& r matches Ok(d) ==> {
                let c = after.connections[id];
                &&& d.id == id
                &&& Ok::<Handler, HandlerError>(d.handler) == way
                &&& d.outbound_tag@ == tag
                &&& d.email == email_of(before.config, q.inbound_tag@, q.user@)
                &&& after.connections.dom() == before.connections.dom().insert(id)
                &&& forall|k: u128|
                    k != id && before.connections.contains_key(k)
                        ==> #[trigger] after.connections[k] == before.connections[k]
                &&& c.id == id
                &&& c.inbound_tag@ == q.inbound_tag@
                &&& c.client_ip@ == q.client_ip@
                &&& c.dest_address@ == q.dest_addr@.push(':') + decimal_text(q.dest_port as nat)
                &&& c.sni == q.sni
                &&& c.outbound_tag@ == tag
                &&& c.rx == 0 && c.tx == 0
                &&& c.start_time == now
                &&& after.users == before.users && after.stats == before.stats && after.config
                    == before.config
            }
            &&& r matches Err(e) ==> after == before && Err::<Handler, HandlerError>(e) == way
        }),
{
    let tag = routed_tag(before.config, routing_request(q));
    if r is Ok {
        let conn = choose|conn: ConnectionInfo|
            after == #[trigger] registered(before, conn) && listed_as(conn, id, q, tag, now);
        assert(after.connections.dom() =~= before.connections.dom().insert(id));
    }
}

} // verus!
