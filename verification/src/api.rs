//! What the admin service answers.

use crate::config::copy_text;
use crate::config::Config;
use crate::ids::{format_uuid, uuid_text};
use crate::state::{reconfigured, ConnectionInfo, EngineState, UserStats};
use vstd::prelude::*;
use vstd::std_specs::iter::IteratorSpec;
use vstd::string::*;

verus! {

broadcast use vstd::std_specs::hash::group_hash_axioms;

/// Nanoseconds in a second.
pub const NANOS_PER_SECOND: u64 = 1_000_000_000;

/// The counters of one address.
#[derive(Debug)]
pub struct UserStatsResponse {
    pub email: String,
    pub rx: u64,
    pub tx: u64,
}

/// An open connection.
#[derive(Debug)]
pub struct ConnectionResponse {
    pub id: String,
    pub inbound_tag: String,
    pub client_ip: String,
    pub dest_address: String,
    pub sni: Option<String>,
    pub outbound_tag: String,
    pub rx: u64,
    pub tx: u64,
    pub uptime_secs: u64,
}

/// A configuration to reload.
#[derive(Debug)]
pub struct ReloadConfigPayload {
    pub config: Config,
}

/// Whole seconds between two moments, none if the clock did not move on.
pub open spec fn uptime(start: u64, now: u64) -> u64 {
    if now < start {
        0
    } else {
        ((now - start) / NANOS_PER_SECOND as int) as u64
    }
}

/// Whether an answer describes a connection at a moment.
pub open spec fn describes(r: ConnectionResponse, c: ConnectionInfo, now: u64) -> bool {
    &&& r.id@ == uuid_text(c.id)
    &&& r.inbound_tag == c.inbound_tag
    &&& r.client_ip == c.client_ip
    &&& r.dest_address == c.dest_address
    &&& r.sni == c.sni
    &&& r.outbound_tag == c.outbound_tag
    &&& r.rx == c.rx
    &&& r.tx == c.tx
    &&& r.uptime_secs == uptime(c.start_time, now)
}

/// Whether answers describe each connection once, in the order of `ids`.
pub open spec fn describes_all(
    r: Seq<ConnectionResponse>,
    connections: Map<u128, ConnectionInfo>,
    now: u64,
    ids: Seq<u128>,
) -> bool {
    &&& ids.no_duplicates()
    &&& ids.to_set() == connections.dom()
    &&& r.len() == ids.len()
    &&& forall|i: int| 0 <= i < ids.len() ==> describes(#[trigger] r[i], connections[ids[i]], now)
}

/// Whether answers hold the counters of each address once.
pub open spec fn lists_stats(
    r: Seq<UserStatsResponse>,
    stats: Map<Seq<char>, UserStats>,
) -> bool {
    &&& forall|i: int|
        0 <= i < r.len() ==> {
            let row = #[trigger] r[i];
            &&& stats.contains_key(row.email@)
            &&& stats[row.email@] == (UserStats { rx: row.rx, tx: row.tx })
        }
    &&& forall|e: Seq<char>| #[trigger]
        stats.contains_key(e) ==> exists|i: int| 0 <= i < r.len() && (#[trigger] r[i]).email@ == e
    &&& forall|i: int, j: int| 0 <= i < j < r.len() ==> r[i].email@ != r[j].email@
}

/// The counters of all addresses, in no particular order.
pub fn get_stats(state: &EngineState) -> (r: Vec<UserStatsResponse>)
    requires
        state.wf(),
    ensures
        lists_stats(r@, state@.stats),
{
    let rows = state.user_stats();
    let mut out: Vec<UserStatsResponse> = Vec::new();
    let mut i: usize = 0;
    while i < rows.len()
        invariant
            i <= rows@.len(),
            out@.len() == i,
            forall|j: int|
                0 <= j < i ==> (#[trigger] out@[j]).email@ == rows@[j].0@ && out@[j].rx
                    == rows@[j].1.rx && out@[j].tx == rows@[j].1.tx,
        decreases rows@.len() - i,
    {
        out.push(
            UserStatsResponse { email: rows[i].0.clone(), rx: rows[i].1.rx, tx: rows[i].1.tx },
        );
        i = i + 1;
    }
    proof {
        assert forall|e: Seq<char>| #[trigger] state@.stats.contains_key(e) implies exists|i: int|
            0 <= i < out@.len() && (#[trigger] out@[i]).email@ == e by {
            let k = choose|k: int| 0 <= k < rows@.len() && (#[trigger] rows@[k]).0@ == e;
            assert(out@[k].email@ == e);
        }
        assert forall|i: int, j: int| 0 <= i < j < out@.len() implies out@[i].email@
            != out@[j].email@ by {
            assert(rows@[i].0@ != rows@[j].0@);
        }
    }
    out
}

/// The answer for one connection.
fn describe(conn: &ConnectionInfo, now: u64) -> (r: ConnectionResponse)
    ensures
        describes(r, *conn, now),
{
    ConnectionResponse {
        id: format_uuid(conn.id),
        inbound_tag: conn.inbound_tag.clone(),
        client_ip: conn.client_ip.clone(),
        dest_address: conn.dest_address.clone(),
        sni: copy_text(&conn.sni),
        outbound_tag: conn.outbound_tag.clone(),
        rx: conn.rx,
        tx: conn.tx,
        uptime_secs: if now < conn.start_time {
            0
        } else {
            (now - conn.start_time) / NANOS_PER_SECOND
        },
    }
}

/// The open connections at a moment, in no particular order.
pub fn list_connections(state: &EngineState, now: u64) -> (r: Vec<ConnectionResponse>)
    requires
        state.wf(),
    ensures
        exists|ids: Seq<u128>| describes_all(r@, state@.connections, now, ids),
{
    let connections = state.connections();
    let ghost ids: Seq<u128> = connections.keys().remaining().unref();
    let mut out: Vec<ConnectionResponse> = Vec::new();
    for id in it: connections.keys()
        invariant
            it.seq() == connections.keys().remaining(),
            ids == connections.keys().remaining().unref(),
            ids.to_set() == connections@.dom(),
            out@.len() == it.index(),
            forall|j: int|
                0 <= j < out@.len() ==> describes(#[trigger] out@[j], connections@[ids[j]], now),
    {
        assert(ids[it.index() as int] == *id);
        assert(ids.to_set().contains(*id));
        if let Some(conn) = connections.get(id) {
            out.push(describe(conn, now));
        }
    }
    proof {
        assert forall|i: int, j: int| 0 <= i < ids.len() && 0 <= j < ids.len() && i != j implies ids[i]
            != ids[j] by {
            let s = connections.keys().remaining();
            assert(s[i] != s[j]);
        }
        assert(describes_all(out@, state@.connections, now, ids));
    }
    out
}

/// Takes over the configuration of a reload, and says that it did.
pub fn reload_config(state: &mut EngineState, payload: ReloadConfigPayload) -> (r: bool)
    requires
        old(state).wf(),
    ensures
        r,
        final(state).wf(),
        final(state)@ == reconfigured(old(state)@, payload.config),
{
    state.update_config(payload.config);
    true
}

/// The uptime is counted in whole seconds: what is more than the last full second does not
/// count, and a clock that did not move on counts nothing.
pub proof fn law_uptime_in_whole_seconds(start: u64, now: u64)
    ensures
        now >= start ==> uptime(start, now) * 1_000_000_000 <= now - start < (uptime(start, now)
            + 1) * 1_000_000_000,
        now < start ==> uptime(start, now) == 0,
{
}

/// What is said of a connection is what is known of it.
pub proof fn law_description_is_faithful(r: ConnectionResponse, c: ConnectionInfo, now: u64)
    requires
        describes(r, c, now),
    ensures
        r.id@ == uuid_text(c.id),
        r.inbound_tag@ == c.inbound_tag@,
        r.client_ip@ == c.client_ip@,
        r.dest_address@ == c.dest_address@,
        r.sni == c.sni,
        r.outbound_tag@ == c.outbound_tag@,
        r.rx == c.rx,
        r.tx == c.tx,
        now >= c.start_time ==> r.uptime_secs == (now - c.start_time) / 1_000_000_000,
{
}

/// Each open connection is listed once, and nothing else is.
pub proof fn law_each_connection_listed_once(
    r: Seq<ConnectionResponse>,
    connections: Map<u128, ConnectionInfo>,
    now: u64,
    ids: Seq<u128>,
)
    requires
        describes_all(r, connections, now, ids),
    ensures
        r.len() == connections.dom().len(),
        forall|id: u128| #[trigger]
            connections.contains_key(id) ==> exists|i: int|
                0 <= i < r.len() && describes(#[trigger] r[i], connections[id], now),
        forall|x: ConnectionResponse| #[trigger]
            r.contains(x) ==> exists|id: u128| #[trigger]
                connections.contains_key(id) && describes(x, connections[id], now),
{
    ids.unique_seq_to_set();
    assert forall|id: u128| #[trigger] connections.contains_key(id) implies exists|i: int|
        0 <= i < r.len() && describes(#[trigger] r[i], connections[id], now) by {
        assert(ids.to_set().contains(id));
        let i = choose|i: int| 0 <= i < ids.len() && ids[i] == id;
        assert(describes(r[i], connections[ids[i]], now));
    }
    assert forall|x: ConnectionResponse| #[trigger] r.contains(x) implies exists|id: u128| #[trigger]
        connections.contains_key(id) && describes(x, connections[id], now) by {
        let i = choose|i: int| 0 <= i < r.len() && r[i] == x;
        assert(ids.to_set().contains(ids[i]));
        assert(connections.contains_key(ids[i]));
        assert(describes(r[i], connections[ids[i]], now));
    }
}

/// The counters of each address are listed once, as they are, and nothing else is.
pub proof fn law_each_address_listed_once(
    r: Seq<UserStatsResponse>,
    stats: Map<Seq<char>, UserStats>,
    email: Seq<char>,
)
    requires
        lists_stats(r, stats),
    ensures
        stats.contains_key(email) <==> exists|i: int|
            0 <= i < r.len() && (#[trigger] r[i]).email@ == email,
        forall|i: int|
            0 <= i < r.len() && (#[trigger] r[i]).email@ == email ==> r[i].rx == stats[email].rx
                && r[i].tx == stats[email].tx,
        forall|i: int, j: int|
            0 <= i < r.len() && 0 <= j < r.len() && (#[trigger] r[i]).email@ == email && (
            #[trigger] r[j]).email@ == email ==> i == j,
{
    assert forall|i: int| 0 <= i < r.len() && (#[trigger] r[i]).email@ == email implies r[i].rx
        == stats[email].rx && r[i].tx == stats[email].tx by {
        assert(stats[r[i].email@] == (UserStats { rx: r[i].rx, tx: r[i].tx }));
    }
}

} // verus!
