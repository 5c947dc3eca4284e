//! The state of the engine: its configuration, who may use it, what was carried for whom, and
//! the connections that are open.

use crate::config::{Client, Config, InboundConfig};
use crate::ids::{
    lemma_be_value_bound, lemma_be_value_injective, parse_uuid, uuid_key, uuid_of_text,
};
use crate::router::text_view;
use crate::wire::be_value;
use std::collections::{HashMap, HashSet};
use vstd::hash_map::StringHashMap;
use vstd::prelude::*;
use vstd::string::*;

verus! {

broadcast use vstd::std_specs::hash::group_hash_axioms;

/// Bytes received and sent.
#[derive(Debug, Clone, Copy, PartialEq, Eq)]
pub struct UserStats {
    pub rx: u64,
    pub tx: u64,
}

/// Counters that nothing was added to yet.
pub open spec fn no_traffic() -> UserStats {
    UserStats { rx: 0, tx: 0 }
}

/// A connection that is open.
#[derive(Debug)]
pub struct ConnectionInfo {
    pub id: u128,
    pub inbound_tag: String,
    pub client_ip: String,
    pub dest_address: String,
    pub sni: Option<String>,
    pub outbound_tag: String,
    pub rx: u64,
    pub tx: u64,
    /// When the connection was opened, in nanoseconds on the clock of the engine.
    pub start_time: u64,
}

/// The clients of a listener.
pub open spec fn clients_of(inbound: InboundConfig) -> Seq<Client> {
    match inbound.settings.clients {
        Some(clients) => clients@,
        None => Seq::empty(),
    }
}

/// The clients of all listeners, in order.
pub open spec fn all_clients(inbounds: Seq<InboundConfig>) -> Seq<Client>
    decreases inbounds.len(),
{
    if inbounds.len() == 0 {
        Seq::empty()
    } else {
        all_clients(inbounds.drop_last()) + clients_of(inbounds.last())
    }
}

/// Whether the client is the user with these bytes.
pub open spec fn is_user(client: Client, id: Seq<u8>) -> bool {
    uuid_of_text(client.id@) == Some(id)
}

/// The users among some clients. A client whose identifier is no UUID is none.
pub open spec fn users_of(clients: Seq<Client>) -> Set<Seq<u8>> {
    Set::new(
        |id: Seq<u8>| exists|k: int| 0 <= k < clients.len() && is_user(#[trigger] clients[k], id),
    )
}

/// Whether traffic of the client is counted under the address.
pub open spec fn counts_under(client: Client, email: Seq<char>) -> bool {
    &&& uuid_of_text(client.id@) is Some
    &&& client.email matches Some(e) && e@ == email
}

/// The addresses under which traffic of some clients is counted.
pub open spec fn emails_of(clients: Seq<Client>) -> Set<Seq<char>> {
    Set::new(
        |email: Seq<char>|
            exists|k: int| 0 <= k < clients.len() && counts_under(#[trigger] clients[k], email),
    )
}

/// Counters for further addresses. An address that has counters keeps them.
pub open spec fn with_emails(
    stats: Map<Seq<char>, UserStats>,
    emails: Set<Seq<char>>,
) -> Map<Seq<char>, UserStats> {
    Map::new(
        |e: Seq<char>| stats.contains_key(e) || emails.contains(e),
        |e: Seq<char>|
            if stats.contains_key(e) {
                stats[e]
            } else {
                no_traffic()
            },
    )
}

/// What the state of the engine is.
#[verifier::ext_equal]
pub struct EngineView {
    pub config: Config,
    pub users: Set<Seq<u8>>,
    pub stats: Map<Seq<char>, UserStats>,
    pub connections: Map<u128, ConnectionInfo>,
}

/// The state with another configuration: the users are those of the new configuration alone,
/// the counters and the open connections stay.
pub open spec fn reconfigured(s: EngineView, config: Config) -> EngineView {
    let clients = all_clients(config.inbounds@);
    EngineView {
        config,
        users: users_of(clients),
        stats: with_emails(s.stats, emails_of(clients)),
        connections: s.connections,
    }
}

/// The state with a further open connection.
pub open spec fn registered(s: EngineView, conn: ConnectionInfo) -> EngineView {
    EngineView { connections: s.connections.insert(conn.id, conn), ..s }
}

/// The state without a connection.
pub open spec fn deregistered(s: EngineView, id: u128) -> EngineView {
    EngineView { connections: s.connections.remove(id), ..s }
}

/// Counters with further bytes. They start again from zero when they are full.
pub open spec fn counted(u: UserStats, rx: u64, tx: u64) -> UserStats {
    UserStats { rx: u.rx.wrapping_add(rx), tx: u.tx.wrapping_add(tx) }
}

/// The state with further bytes received and sent: for the address, if it has counters, and
/// for the connection, if it is open.
pub open spec fn recorded(
    s: EngineView,
    id: u128,
    email: Option<Seq<char>>,
    rx: u64,
    tx: u64,
) -> EngineView {
    EngineView {
        stats: match email {
            Some(e) => if s.stats.contains_key(e) {
                s.stats.insert(e, counted(s.stats[e], rx, tx))
            } else {
                s.stats
            },
            None => s.stats,
        },
        connections: if s.connections.contains_key(id) {
            let c = s.connections[id];
            s.connections.insert(
                id,
                ConnectionInfo { rx: c.rx.wrapping_add(rx), tx: c.tx.wrapping_add(tx), ..c },
            )
        } else {
            s.connections
        },
        ..s
    }
}

/// After a reload exactly the users of the new configuration are admitted: one that it no
/// longer names is refused.
pub proof fn law_reload_replaces_users(s: EngineView, config: Config, id: Seq<u8>)
    ensures
        reconfigured(s, config).users.contains(id) <==> exists|k: int|
            0 <= k < all_clients(config.inbounds@).len() && is_user(
                #[trigger] all_clients(config.inbounds@)[k],
                id,
            ),
{
}

/// A reload loses no counter and no open connection.
pub proof fn law_reload_keeps_counters(s: EngineView, config: Config, email: Seq<char>)
    requires
        s.stats.contains_key(email),
    ensures
        reconfigured(s, config).stats.contains_key(email),
        reconfigured(s, config).stats[email] == s.stats[email],
        reconfigured(s, config).connections == s.connections,
{
}

/// Reloading the same configuration once more changes nothing.
pub proof fn law_reload_is_idempotent(s: EngineView, config: Config)
    ensures
        reconfigured(reconfigured(s, config), config) == reconfigured(s, config),
{
    assert(reconfigured(reconfigured(s, config), config) =~= reconfigured(s, config));
}

/// Opening and closing a connection leaves the state as it was.
pub proof fn law_register_then_deregister(s: EngineView, conn: ConnectionInfo)
    requires
        !s.connections.contains_key(conn.id),
    ensures
        deregistered(registered(s, conn), conn.id) == s,
{
    assert(deregistered(registered(s, conn), conn.id) =~= s);
}

/// Counting touches nothing but the counters of that address and of that connection.
pub proof fn law_record_touches_nothing_else(
    s: EngineView,
    id: u128,
    email: Option<Seq<char>>,
    rx: u64,
    tx: u64,
    other_email: Seq<char>,
    other_id: u128,
)
    requires
        email != Some(other_email),
        id != other_id,
    ensures
        ({
            let t = recorded(s, id, email, rx, tx);
            &&& t.config == s.config
            &&& t.users == s.users
            &&& t.stats.dom() == s.stats.dom()
            &&& t.connections.dom() == s.connections.dom()
            &&& t.stats[other_email] == s.stats[other_email]
            &&& t.connections[other_id] == s.connections[other_id]
        }),
{
    let t = recorded(s, id, email, rx, tx);
    assert(t.stats.dom() =~= s.stats.dom());
    assert(t.connections.dom() =~= s.connections.dom());
}

/// Counting bytes in two steps is counting their sum, and receiving and sending are counted
/// apart from each other.
pub proof fn law_record_adds_up(
    s: EngineView,
    id: u128,
    email: Option<Seq<char>>,
    rx1: u64,
    tx1: u64,
    rx2: u64,
    tx2: u64,
)
    ensures
        recorded(recorded(s, id, email, rx1, tx1), id, email, rx2, tx2) == recorded(
            s,
            id,
            email,
            rx1.wrapping_add(rx2),
            tx1.wrapping_add(tx2),
        ),
{
    let t = recorded(recorded(s, id, email, rx1, tx1), id, email, rx2, tx2);
    let u = recorded(s, id, email, rx1.wrapping_add(rx2), tx1.wrapping_add(tx2));
    assert(t.stats =~= u.stats);
    assert(t.connections =~= u.connections);
}

/// The state of the engine.
pub struct EngineState {
    config: Config,
    /// The users, each by the number that its UUID spells.
    allowed_users: HashSet<u128>,
    /// The counters, each with its address.
    stats: Vec<(String, UserStats)>,
    /// Where in `stats` an address stands.
    positions: StringHashMap<usize>,
    active_connections: HashMap<u128, ConnectionInfo>,
}

impl View for EngineState {
    type V = EngineView;

    closed spec fn view(&self) -> EngineView {
        EngineView {
            config: self.config,
            users: users_by_key(self.allowed_users@),
            stats: stats_by_email(self.stats@, self.positions@),
            connections: self.active_connections@,
        }
    }
}

/// The users that numbers stand for.
spec fn users_by_key(keys: Set<u128>) -> Set<Seq<u8>> {
    Set::new(|id: Seq<u8>| id.len() == 16 && keys.contains(be_value(id) as u128))
}

/// The counters by address.
spec fn stats_by_email(
    rows: Seq<(String, UserStats)>,
    positions: Map<Seq<char>, usize>,
) -> Map<Seq<char>, UserStats> {
    Map::new(
        |e: Seq<char>| positions.contains_key(e),
        |e: Seq<char>| rows[positions[e] as int].1,
    )
}

/// Whether the positions are those of the rows.
spec fn positions_fit(
    rows: Seq<(String, UserStats)>,
    positions: Map<Seq<char>, usize>,
) -> bool {
    &&& forall|e: Seq<char>| #[trigger]
        positions.contains_key(e) ==> positions[e] < rows.len() && rows[positions[e] as int].0@
            == e
    &&& forall|i: int|
        0 <= i < rows.len() ==> positions.contains_key((#[trigger] rows[i]).0@)
            && positions[rows[i].0@] == i
}

/// A further client adds its user and its address.
proof fn lemma_clients_push(seen: Seq<Client>, client: Client)
    ensures
        forall|id: Seq<u8>| #[trigger]
            users_of(seen.push(client)).contains(id) <==> users_of(seen).contains(id) || is_user(
                client,
                id,
            ),
        forall|e: Seq<char>| #[trigger]
            emails_of(seen.push(client)).contains(e) <==> emails_of(seen).contains(e)
                || counts_under(client, e),
{
    let more = seen.push(client);
    assert forall|id: Seq<u8>| #[trigger] users_of(more).contains(id) <==> users_of(
        seen,
    ).contains(id) || is_user(client, id) by {
        if users_of(seen).contains(id) {
            let k = choose|k: int| 0 <= k < seen.len() && is_user(#[trigger] seen[k], id);
            assert(is_user(more[k], id));
        }
        if is_user(client, id) {
            assert(is_user(more[seen.len() as int], id));
        }
        if users_of(more).contains(id) {
            let k = choose|k: int| 0 <= k < more.len() && is_user(#[trigger] more[k], id);
            if k < seen.len() {
                assert(is_user(seen[k], id));
            }
        }
    }
    assert forall|e: Seq<char>| #[trigger] emails_of(more).contains(e) <==> emails_of(
        seen,
    ).contains(e) || counts_under(client, e) by {
        if emails_of(seen).contains(e) {
            let k = choose|k: int| 0 <= k < seen.len() && counts_under(#[trigger] seen[k], e);
            assert(counts_under(more[k], e));
        }
        if counts_under(client, e) {
            assert(counts_under(more[seen.len() as int], e));
        }
        if emails_of(more).contains(e) {
            let k = choose|k: int| 0 <= k < more.len() && counts_under(#[trigger] more[k], e);
            if k < seen.len() {
                assert(counts_under(seen[k], e));
            }
        }
    }
}

/// Adds one client to the users, and counters for its address.
fn admit_client(
    client: &Client,
    users: &mut HashSet<u128>,
    rows: &mut Vec<(String, UserStats)>,
    positions: &mut StringHashMap<usize>,
    Ghost(seen): Ghost<Seq<Client>>,
    Ghost(start): Ghost<Map<Seq<char>, UserStats>>,
)
    requires
        positions_fit(old(rows)@, old(positions)@),
        users_by_key(old(users)@) == users_of(seen),
        stats_by_email(old(rows)@, old(positions)@) == with_emails(start, emails_of(seen)),
    ensures
        positions_fit(final(rows)@, final(positions)@),
        users_by_key(final(users)@) == users_of(seen.push(*client)),
        stats_by_email(final(rows)@, final(positions)@) == with_emails(
            start,
            emails_of(seen.push(*client)),
        ),
{
    let ghost more = seen.push(*client);
    proof {
        lemma_clients_push(seen, *client);
    }
    match parse_uuid(client.id.as_str()) {
        Ok(id) => {
            let key: u128 = uuid_key(&id);
            let ghost keys = users@;
            users.insert(key);
            proof {
                assert forall|x: Seq<u8>| users_by_key(users@).contains(x) <==> users_by_key(
                    keys,
                ).contains(x) || x == id@ by {
                    if x.len() == 16 && be_value(x) as u128 == key {
                        lemma_be_value_bits(x);
                        lemma_be_value_injective(x, id@);
                    }
                }
                assert forall|x: Seq<u8>| users_by_key(users@).contains(x) <==> users_of(
                    more,
                ).contains(x) by {
                    assert(users_by_key(keys).contains(x) == users_of(seen).contains(x));
                    assert(is_user(*client, x) == (x == id@));
                }
                assert(users_by_key(users@) =~= users_of(more));
            }
            let ghost rows_before = rows@;
            let ghost positions_before = positions@;
            match &client.email {
                Some(e) => {
                    if !positions.contains_key(e.as_str()) {
                        let i: usize = rows.len();
                        rows.push((e.clone(), UserStats { rx: 0, tx: 0 }));
                        positions.insert(e.clone(), i);
                        assert(positions_fit(rows@, positions@));
                    }
                },
                None => {},
            }
            proof {
                assert forall|e: Seq<char>| positions@.contains_key(e) <==> with_emails(
                    start,
                    emails_of(more),
                ).contains_key(e) by {
                    assert(emails_of(more).contains(e) == (emails_of(seen).contains(e)
                        || counts_under(*client, e)));
                    assert(stats_by_email(rows_before, positions_before).contains_key(e)
                        == with_emails(start, emails_of(seen)).contains_key(e));
                }
                assert forall|e: Seq<char>| positions@.contains_key(e) implies stats_by_email(
                    rows@,
                    positions@,
                )[e] == with_emails(start, emails_of(more))[e] by {
                    if positions_before.contains_key(e) {
                        assert(stats_by_email(rows_before, positions_before)[e] == with_emails(
                            start,
                            emails_of(seen),
                        )[e]);
                    } else {
                        assert(!with_emails(start, emails_of(seen)).contains_key(e));
                    }
                }
            }
            assert(stats_by_email(rows@, positions@) =~= with_emails(start, emails_of(more)));
        },
        Err(_) => {
            assert(users_by_key(users@) =~= users_of(more));
            assert(stats_by_email(rows@, positions@) =~= with_emails(start, emails_of(more)));
        },
    }
}

/// Sixteen bytes spell a number that fits.
proof fn lemma_be_value_bits(s: Seq<u8>)
    requires
        s.len() == 16,
    ensures
        be_value(s) <= u128::MAX,
{
    lemma_be_value_bound(s.drop_last(), 15);
}

/// Adds all clients of a configuration to the users, and counters for their addresses.
fn admit_clients(
    config: &Config,
    users: &mut HashSet<u128>,
    rows: &mut Vec<(String, UserStats)>,
    positions: &mut StringHashMap<usize>,
)
    requires
        positions_fit(old(rows)@, old(positions)@),
        users_by_key(old(users)@) == users_of(Seq::empty()),
    ensures
        positions_fit(final(rows)@, final(positions)@),
        users_by_key(final(users)@) == users_of(all_clients(config.inbounds@)),
        stats_by_email(final(rows)@, final(positions)@) == with_emails(
            stats_by_email(old(rows)@, old(positions)@),
            emails_of(all_clients(config.inbounds@)),
        ),
{
    let ghost start = stats_by_email(rows@, positions@);
    let ghost mut seen: Seq<Client> = Seq::empty();
    assert(start =~= with_emails(start, emails_of(seen)));
    let mut i: usize = 0;
    while i < config.inbounds.len()
        invariant
            i <= config.inbounds@.len(),
            seen == all_clients(config.inbounds@.take(i as int)),
            positions_fit(rows@, positions@),
            users_by_key(users@) == users_of(seen),
            stats_by_email(rows@, positions@) == with_emails(start, emails_of(seen)),
        decreases config.inbounds@.len() - i,
    {
        let ghost before = seen;
        match &config.inbounds[i].settings.clients {
            Some(clients) => {
                let mut k: usize = 0;
                assert(before + clients@.take(0) =~= before);
                while k < clients.len()
                    invariant
                        k <= clients@.len(),
                        seen == before + clients@.take(k as int),
                        positions_fit(rows@, positions@),
                        users_by_key(users@) == users_of(seen),
                        stats_by_email(rows@, positions@) == with_emails(start, emails_of(seen)),
                    decreases clients@.len() - k,
                {
                    admit_client(
                        &clients[k],
                        users,
                        rows,
                        positions,
                        Ghost(seen),
                        Ghost(start),
                    );
                    proof {
                        seen = seen.push(clients@[k as int]);
                        assert(seen =~= before + clients@.take(k + 1));
                    }
                    k = k + 1;
                }
                assert(clients@.take(k as int) =~= clients@);
            },
            None => {},
        }
        proof {
            let upto = config.inbounds@.take(i + 1);
            assert(upto.drop_last() =~= config.inbounds@.take(i as int));
            assert(seen =~= all_clients(upto));
        }
        i = i + 1;
    }
    assert(config.inbounds@.take(i as int) =~= config.inbounds@);
}

impl EngineState {
    /// Whether the parts of the state agree: each address has one row, and each connection
    /// stands under its own identifier.
    pub closed spec fn wf(&self) -> bool {
        &&& positions_fit(self.stats@, self.positions@)
        &&& forall|id: u128| #[trigger]
            self.active_connections@.contains_key(id) ==> self.active_connections@[id].id == id
    }

    /// The state of an engine that has carried nothing yet.
    pub fn new(config: Config) -> (r: EngineState)
        ensures
            r.wf(),
            r@.config == config,
            r@.users == users_of(all_clients(config.inbounds@)),
            r@.stats == with_emails(Map::empty(), emails_of(all_clients(config.inbounds@))),
            r@.connections == Map::<u128, ConnectionInfo>::empty(),
    {
        let mut allowed_users: HashSet<u128> = HashSet::new();
        let mut stats: Vec<(String, UserStats)> = Vec::new();
        let mut positions: StringHashMap<usize> = StringHashMap::new();
        assert(users_by_key(allowed_users@) =~= users_of(Seq::empty()));
        assert(stats_by_email(stats@, positions@) =~= Map::empty());
        admit_clients(&config, &mut allowed_users, &mut stats, &mut positions);
        EngineState {
            config,
            allowed_users,
            stats,
            positions,
            active_connections: HashMap::new(),
        }
    }

    /// The configuration.
    pub fn config(&self) -> (r: &Config)
        ensures
            *r == self@.config,
    {
        &self.config
    }

    /// Whether a user may use the engine.
    pub fn is_user_allowed(&self, id: &[u8; 16]) -> (r: bool)
        ensures
            r == self@.users.contains(id@),
    {
        let key: u128 = uuid_key(id);
        self.allowed_users.contains(&key)
    }

    /// Takes over another configuration.
    pub fn update_config(&mut self, new_config: Config)
        requires
            old(self).wf(),
        ensures
            final(self).wf(),
            final(self)@ == reconfigured(old(self)@, new_config),
    {
        let ghost before = *self;
        self.allowed_users.clear();
        assert(users_by_key(self.allowed_users@) =~= users_of(Seq::empty()));
        admit_clients(
            &new_config,
            &mut self.allowed_users,
            &mut self.stats,
            &mut self.positions,
        );
        self.config = new_config;
        assert(self@.users =~= reconfigured(before@, new_config).users);
    }

    /// The counters of an address.
    pub fn get_user_stats(&self, email: &Option<String>) -> (r: Option<UserStats>)
        requires
            self.wf(),
        ensures
            r == match *email {
                Some(e) => if self@.stats.contains_key(e@) {
                    Some(self@.stats[e@])
                } else {
                    None
                },
                None => None,
            },
    {
        match email {
            Some(e) => match self.positions.get(e.as_str()) {
                Some(i) => Some(self.stats[*i].1),
                None => None,
            },
            None => None,
        }
    }

    /// All counters, each with its address, in no particular order.
    pub fn user_stats(&self) -> (r: &Vec<(String, UserStats)>)
        requires
            self.wf(),
        ensures
            forall|i: int|
                0 <= i < r@.len() ==> self@.stats.contains_key((#[trigger] r@[i]).0@)
                    && self@.stats[r@[i].0@] == r@[i].1,
            forall|e: Seq<char>| #[trigger]
                self@.stats.contains_key(e) ==> exists|i: int|
                    0 <= i < r@.len() && (#[trigger] r@[i]).0@ == e,
            forall|i: int, j: int| 0 <= i < j < r@.len() ==> r@[i].0@ != r@[j].0@,
    {
        proof {
            assert forall|e: Seq<char>| #[trigger] self@.stats.contains_key(e) implies exists|
                i: int,
            |
                0 <= i < self.stats@.len() && (#[trigger] self.stats@[i]).0@ == e by {
                assert(self.positions@.contains_key(e));
                assert(self.stats@[self.positions@[e] as int].0@ == e);
            }
        }
        &self.stats
    }

    /// The open connections.
    pub fn connections(&self) -> (r: &HashMap<u128, ConnectionInfo>)
        requires
            self.wf(),
        ensures
            r@ == self@.connections,
            forall|id: u128| #[trigger] r@.contains_key(id) ==> r@[id].id == id,
    {
        &self.active_connections
    }

    /// Takes note of a connection that was opened.
    pub fn register_connection(&mut self, conn: ConnectionInfo)
        requires
            old(self).wf(),
        ensures
            final(self).wf(),
            final(self)@ == registered(old(self)@, conn),
    {
        let id: u128 = conn.id;
        self.active_connections.insert(id, conn);
    }

    /// Takes note of a connection that was closed.
    pub fn deregister_connection(&mut self, id: u128)
        requires
            old(self).wf(),
        ensures
            final(self).wf(),
            final(self)@ == deregistered(old(self)@, id),
    {
        self.active_connections.remove(&id);
    }

    /// Counts bytes that were received for a connection.
    pub fn record_rx(&mut self, conn_id: u128, bytes: u64, email: &Option<String>)
        requires
            old(self).wf(),
        ensures
            final(self).wf(),
            final(self)@ == recorded(
                old(self)@,
                conn_id,
                text_view(*email),
                bytes,
                0,
            ),
    {
        self.record(conn_id, bytes, 0, email);
    }

    /// Counts bytes that were sent for a connection.
    pub fn record_tx(&mut self, conn_id: u128, bytes: u64, email: &Option<String>)
        requires
            old(self).wf(),
        ensures
            final(self).wf(),
            final(self)@ == recorded(
                old(self)@,
                conn_id,
                text_view(*email),
                0,
                bytes,
            ),
    {
        self.record(conn_id, 0, bytes, email);
    }

    /// Counts bytes that were received and sent for a connection.
    fn record(&mut self, conn_id: u128, rx: u64, tx: u64, email: &Option<String>)
        requires
            old(self).wf(),
        ensures
            final(self).wf(),
            final(self)@ == recorded(
                old(self)@,
                conn_id,
                text_view(*email),
                rx,
                tx,
            ),
    {
        let ghost before = *self;
        if let Some(e) = email {
            if let Some(i) = self.positions.get(e.as_str()) {
                let i: usize = *i;
                let u: UserStats = self.stats[i].1;
                self.stats[i].1 = UserStats {
                    rx: u.rx.wrapping_add(rx),
                    tx: u.tx.wrapping_add(tx),
                };
            }
        }
        match self.active_connections.remove(&conn_id) {
            Some(mut conn) => {
                conn.rx = conn.rx.wrapping_add(rx);
                conn.tx = conn.tx.wrapping_add(tx);
                self.active_connections.insert(conn_id, conn);
            },
            None => {},
        }
        proof {
            let after = recorded(before@, conn_id, text_view(*email), rx, tx);
            assert(self@.stats =~= after.stats);
            assert(self@.connections =~= after.connections);
        }
    }
}

/// Whether client `k` of listener `i` of a configuration is there.
proof fn lemma_all_clients(inbounds: Seq<InboundConfig>)
    ensures
        forall|i: int, k: int|
            0 <= i < inbounds.len() && inbounds[i].settings.clients is Some && 0 <= k < (
            inbounds[i].settings.clients->0)@.len() ==> all_clients(inbounds).contains(
                #[trigger] (inbounds[i].settings.clients->0)@[k],
            ),
        forall|c: Client| #[trigger]
            all_clients(inbounds).contains(c) ==> exists|i: int, k: int|
                0 <= i < inbounds.len() && inbounds[i].settings.clients is Some && 0 <= k < (
                inbounds[i].settings.clients->0)@.len() && #[trigger] (
                inbounds[i].settings.clients->0)@[k] == c,
    decreases inbounds.len(),
{
    if inbounds.len() > 0 {
        let front = inbounds.drop_last();
        let last = inbounds.last();
        let before = all_clients(front);
        let all = all_clients(inbounds);
        let more = clients_of(last);
        lemma_all_clients(front);
        assert(all == before + more);
        assert forall|i: int, k: int|
            0 <= i < inbounds.len() && inbounds[i].settings.clients is Some && 0 <= k < (
            inbounds[i].settings.clients->0)@.len() implies all.contains(
            #[trigger] (inbounds[i].settings.clients->0)@[k],
        ) by {
            let c = (inbounds[i].settings.clients->0)@[k];
            if i < front.len() {
                assert(front[i] == inbounds[i]);
                assert(before.contains((front[i].settings.clients->0)@[k]));
                let j = choose|j: int| 0 <= j < before.len() && before[j] == c;
                assert(all[j] == c);
            } else {
                assert(all[before.len() + k] == c);
            }
        }
        assert forall|c: Client| #[trigger] all.contains(c) implies exists|i: int, k: int|
            0 <= i < inbounds.len() && inbounds[i].settings.clients is Some && 0 <= k < (
            inbounds[i].settings.clients->0)@.len() && #[trigger] (
            inbounds[i].settings.clients->0)@[k] == c by {
            let j = choose|j: int| 0 <= j < all.len() && all[j] == c;
            if j < before.len() {
                assert(before[j] == c);
                assert(before.contains(c));
                let (i, k) = choose|i: int, k: int|
                    0 <= i < front.len() && front[i].settings.clients is Some && 0 <= k < (
                    front[i].settings.clients->0)@.len() && #[trigger] (
                    front[i].settings.clients->0)@[k] == c;
                assert((inbounds[i].settings.clients->0)@[k] == c);
            } else {
                let i = inbounds.len() - 1;
                assert((inbounds[i].settings.clients->0)@[j - before.len()] == c);
            }
        }
    }
}

/// Exactly the clients of the configuration are admitted, those of every listener: whoever has
/// the UUID of some client of some listener, and nobody else. This holds from the beginning and
/// after every reload.
pub proof fn law_clients_of_every_listener_admitted(s: EngineView, config: Config, id: Seq<u8>)
    ensures
        ({
            let named = exists|i: int, k: int|
                0 <= i < config.inbounds@.len() && config.inbounds@[i].settings.clients is Some
                    && 0 <= k < (config.inbounds@[i].settings.clients->0)@.len() && uuid_of_text(
                    (#[trigger] (config.inbounds@[i].settings.clients->0)@[k]).id@,
                ) == Some(id);
            &&& reconfigured(s, config).users.contains(id) <==> named
            &&& users_of(all_clients(config.inbounds@)).contains(id) <==> named
        }),
{
    let inbounds = config.inbounds@;
    let all = all_clients(inbounds);
    lemma_all_clients(inbounds);
    if users_of(all).contains(id) {
        let j = choose|j: int| 0 <= j < all.len() && is_user(#[trigger] all[j], id);
        assert(all.contains(all[j]));
        let (i, k) = choose|i: int, k: int|
            0 <= i < inbounds.len() && inbounds[i].settings.clients is Some && 0 <= k < (
            inbounds[i].settings.clients->0)@.len() && #[trigger] (
            inbounds[i].settings.clients->0)@[k] == all[j];
        assert(uuid_of_text((inbounds[i].settings.clients->0)@[k].id@) == Some(id));
    }
    assert forall|i: int, k: int|
        0 <= i < inbounds.len() && inbounds[i].settings.clients is Some && 0 <= k < (
        inbounds[i].settings.clients->0)@.len() && uuid_of_text(
            (#[trigger] (inbounds[i].settings.clients->0)@[k]).id@,
        ) == Some(id) implies users_of(all).contains(id) by {
        let c = (inbounds[i].settings.clients->0)@[k];
        assert(all.contains(c));
        let j = choose|j: int| 0 <= j < all.len() && all[j] == c;
        assert(is_user(all[j], id));
    }
}

/// Exactly the addresses of admitted clients get counters, those of every listener; counters
/// that are there stay as they are, and new ones start at zero. This holds from the beginning,
/// where none are there, and after every reload.
pub proof fn law_clients_of_every_listener_counted(
    s: EngineView,
    config: Config,
    email: Seq<char>,
)
    ensures
        ({
            let named = exists|i: int, k: int|
                0 <= i < config.inbounds@.len() && config.inbounds@[i].settings.clients is Some
                    && 0 <= k < (config.inbounds@[i].settings.clients->0)@.len() && uuid_of_text(
                    (#[trigger] (config.inbounds@[i].settings.clients->0)@[k]).id@,
                ) is Some && (config.inbounds@[i].settings.clients->0)@[k].email is Some && (
                config.inbounds@[i].settings.clients->0)@[k].email->0@ == email;
            let after = reconfigured(s, config).stats;
            let begun = with_emails(Map::empty(), emails_of(all_clients(config.inbounds@)));
            &&& after.contains_key(email) <==> s.stats.contains_key(email) || named
            &&& s.stats.contains_key(email) ==> after[email] == s.stats[email]
            &&& named && !s.stats.contains_key(email) ==> after[email].rx == 0 && after[email].tx
                == 0
            &&& begun.contains_key(email) <==> named
            &&& named ==> begun[email].rx == 0 && begun[email].tx == 0
        }),
{
    let inbounds = config.inbounds@;
    let all = all_clients(inbounds);
    lemma_all_clients(inbounds);
    if emails_of(all).contains(email) {
        let j = choose|j: int| 0 <= j < all.len() && counts_under(#[trigger] all[j], email);
        assert(all.contains(all[j]));
        let (i, k) = choose|i: int, k: int|
            0 <= i < inbounds.len() && inbounds[i].settings.clients is Some && 0 <= k < (
            inbounds[i].settings.clients->0)@.len() && #[trigger] (
            inbounds[i].settings.clients->0)@[k] == all[j];
        assert(uuid_of_text((inbounds[i].settings.clients->0)@[k].id@) is Some);
    }
    assert forall|i: int, k: int|
        0 <= i < inbounds.len() && inbounds[i].settings.clients is Some && 0 <= k < (
        inbounds[i].settings.clients->0)@.len() && uuid_of_text(
            (#[trigger] (inbounds[i].settings.clients->0)@[k]).id@,
        ) is Some && (inbounds[i].settings.clients->0)@[k].email is Some && (
        inbounds[i].settings.clients->0)@[k].email->0@ == email implies emails_of(all).contains(
        email,
    ) by {
        let c = (inbounds[i].settings.clients->0)@[k];
        assert(all.contains(c));
        let j = choose|j: int| 0 <= j < all.len() && all[j] == c;
        assert(counts_under(all[j], email));
    }
}

/// A reload takes over the configuration and leaves the open connections alone.
pub proof fn law_reload_takes_over(s: EngineView, config: Config)
    ensures
        reconfigured(s, config).config == config,
        reconfigured(s, config).connections == s.connections,
{
}

/// A connection that is opened is listed as it is, one that is closed is not, and the others,
/// the users, the counters and the configuration stay.
pub proof fn law_connections_are_listed(s: EngineView, conn: ConnectionInfo, id: u128, other: u128)
    ensures
        registered(s, conn).connections.contains_key(conn.id),
        registered(s, conn).connections[conn.id] == conn,
        !deregistered(s, id).connections.contains_key(id),
        other != conn.id ==> registered(s, conn).connections.contains_key(other)
            == s.connections.contains_key(other) && registered(s, conn).connections[other]
            == s.connections[other],
        other != id && s.connections.contains_key(other) ==> deregistered(
            s,
            id,
        ).connections.contains_key(other) && deregistered(s, id).connections[other]
            == s.connections[other],
        deregistered(s, id).connections.contains_key(other) ==> s.connections.contains_key(other),
        registered(s, conn).users == s.users && deregistered(s, id).users == s.users,
        registered(s, conn).stats == s.stats && deregistered(s, id).stats == s.stats,
        registered(s, conn).config == s.config && deregistered(s, id).config == s.config,
{
}

/// What is counted is what was carried: the bytes are added to the counters of the address and
/// to those of the connection, received ones to those of received bytes and sent ones to those
/// of sent bytes; all else that is known of the connection stays. Counters start again from zero
/// when they are full.
pub proof fn law_record_counts(
    s: EngineView,
    id: u128,
    email: Option<Seq<char>>,
    rx: u64,
    tx: u64,
)
    ensures
        ({
            let t = recorded(s, id, email, rx, tx);
            &&& email matches Some(e) ==> s.stats.contains_key(e) ==> {
                &&& t.stats[e].rx == (s.stats[e].rx + rx) % 0x1_0000_0000_0000_0000
                &&& t.stats[e].tx == (s.stats[e].tx + tx) % 0x1_0000_0000_0000_0000
            }
            &&& s.connections.contains_key(id) ==> {
                let (c, d) = (s.connections[id], t.connections[id]);
                &&& d.rx == (c.rx + rx) % 0x1_0000_0000_0000_0000
                &&& d.tx == (c.tx + tx) % 0x1_0000_0000_0000_0000
                &&& d == (ConnectionInfo { rx: d.rx, tx: d.tx, ..c })
            }
        }),
{
}

} // verus!
