use target_core::api::{get_stats, list_connections, reload_config, ReloadConfigPayload};
use target_core::config::{
    ApiConfig, Client, Config, InboundConfig, InboundSettings, RoutingConfig,
};
use target_core::ids::{new_connection_id, uuid_key};
use target_core::net::IpAddress;
use target_core::state::{ConnectionInfo, EngineState, UserStats};

const ALICE: &str = "ad60c2b2-cc0c-492a-89aa-c92330a10cc9";
const ALICE_BYTES: [u8; 16] = [
    0xad, 0x60, 0xc2, 0xb2, 0xcc, 0x0c, 0x49, 0x2a, 0x89, 0xaa, 0xc9, 0x23, 0x30, 0xa1, 0x0c, 0xc9,
];
const BOB: &str = "{00000000-0000-0000-0000-0000000000FF}";

fn bob_bytes() -> [u8; 16] {
    let mut b = [0u8; 16];
    b[15] = 255;
    b
}

fn client(id: &str, email: Option<&str>) -> Client {
    Client { id: id.to_string(), email: email.map(|e| e.to_string()) }
}

fn config(clients: Vec<Client>) -> Config {
    Config {
        inbounds: vec![
            InboundConfig {
                tag: "none".to_string(),
                listen: IpAddress::V4([0, 0, 0, 0]),
                port: 1,
                protocol: "socks".to_string(),
                settings: InboundSettings { clients: None },
                stream_settings: None,
            },
            InboundConfig {
                tag: "in".to_string(),
                listen: IpAddress::V6([0; 16]),
                port: 2,
                protocol: "vless".to_string(),
                settings: InboundSettings { clients: Some(clients) },
                stream_settings: None,
            },
        ],
        outbounds: vec![],
        routing: RoutingConfig { rules: vec![] },
        api: ApiConfig { listen: IpAddress::V4([127, 0, 0, 1]), port: 9091 },
    }
}

fn conn(id: u128, start_time: u64) -> ConnectionInfo {
    ConnectionInfo {
        id,
        inbound_tag: "in".to_string(),
        client_ip: "1.1.1.1:5".to_string(),
        dest_address: "d:1".to_string(),
        sni: None,
        outbound_tag: "out".to_string(),
        rx: 0,
        tx: 0,
        start_time,
    }
}

fn some(e: &str) -> Option<String> {
    Some(e.to_string())
}

#[test]
fn users_of_the_configuration_are_admitted() {
    let state = EngineState::new(config(vec![
        client(ALICE, Some("a")),
        client("no uuid", Some("b")),
        client(BOB, None),
    ]));
    assert!(state.is_user_allowed(&ALICE_BYTES));
    assert!(state.is_user_allowed(&bob_bytes()));
    assert!(!state.is_user_allowed(&[0; 16]));
    assert_eq!(state.get_user_stats(&some("a")), Some(UserStats { rx: 0, tx: 0 }));
    assert_eq!(state.get_user_stats(&some("b")), None);
    assert_eq!(state.get_user_stats(&None), None);
}

#[test]
fn uuids_are_read_in_all_their_forms() {
    let forms = [
        "ad60c2b2cc0c492a89aac92330a10cc9",
        "AD60C2B2-CC0C-492A-89AA-C92330A10CC9",
        "{ad60c2b2-cc0c-492a-89aa-c92330a10cc9}",
        "urn:uuid:ad60c2b2-cc0c-492a-89aa-c92330a10cc9",
        "URN:UUID:ad60c2b2-cc0c-492a-89aa-c92330a10cc9",
    ];
    for f in forms {
        let state = EngineState::new(config(vec![client(f, None)]));
        assert!(state.is_user_allowed(&ALICE_BYTES));
    }
    let wrong = [
        "",
        "ad60c2b2cc0c492a89aac92330a10cc",
        "ad60c2b2cc0c492a89aac92330a10ccg",
        "ad60c2b2-cc0c-492a-89aa+c92330a10cc9",
        "(ad60c2b2-cc0c-492a-89aa-c92330a10cc9)",
        "urn:guid:ad60c2b2-cc0c-492a-89aa-c92330a10cc9",
        " ad60c2b2-cc0c-492a-89aa-c92330a10cc",
    ];
    for f in wrong {
        let state = EngineState::new(config(vec![client(f, None)]));
        assert!(!state.is_user_allowed(&ALICE_BYTES));
    }
}

#[test]
fn reload_replaces_users_and_keeps_counters() {
    let mut state = EngineState::new(config(vec![client(ALICE, Some("a"))]));
    state.register_connection(conn(1, 0));
    state.record_rx(1, 10, &some("a"));
    state.record_tx(1, 20, &some("a"));
    let done = reload_config(
        &mut state,
        ReloadConfigPayload { config: config(vec![client(BOB, Some("b"))]) },
    );
    assert!(done);
    assert!(!state.is_user_allowed(&ALICE_BYTES));
    assert!(state.is_user_allowed(&bob_bytes()));
    assert_eq!(state.get_user_stats(&some("a")), Some(UserStats { rx: 10, tx: 20 }));
    assert_eq!(state.get_user_stats(&some("b")), Some(UserStats { rx: 0, tx: 0 }));
    assert_eq!(state.connections().len(), 1);
    assert_eq!(state.config().inbounds[1].settings.clients.as_ref().unwrap()[0].id, BOB);
}

#[test]
fn counting_is_per_address_and_per_connection() {
    let mut state = EngineState::new(config(vec![
        client(ALICE, Some("a")),
        client(BOB, Some("b")),
    ]));
    state.register_connection(conn(1, 0));
    state.register_connection(conn(2, 0));
    state.record_rx(1, 5, &some("a"));
    state.record_rx(1, 6, &some("a"));
    state.record_tx(2, 7, &some("b"));
    state.record_tx(3, 8, &some("a"));
    state.record_tx(1, 9, &None);
    state.record_tx(1, 1, &some("unknown"));
    assert_eq!(state.get_user_stats(&some("a")), Some(UserStats { rx: 11, tx: 8 }));
    assert_eq!(state.get_user_stats(&some("b")), Some(UserStats { rx: 0, tx: 7 }));
    assert_eq!(state.connections().get(&1).unwrap().rx, 11);
    assert_eq!(state.connections().get(&1).unwrap().tx, 10);
    assert_eq!(state.connections().get(&2).unwrap().tx, 7);
    assert!(state.connections().get(&3).is_none());
}

#[test]
fn counters_start_again_when_full() {
    let mut state = EngineState::new(config(vec![client(ALICE, Some("a"))]));
    state.record_rx(1, u64::MAX, &some("a"));
    state.record_rx(1, 3, &some("a"));
    assert_eq!(state.get_user_stats(&some("a")), Some(UserStats { rx: 2, tx: 0 }));
}

#[test]
fn closing_undoes_opening() {
    let mut state = EngineState::new(config(vec![]));
    state.register_connection(conn(7, 0));
    assert_eq!(state.connections().len(), 1);
    state.deregister_connection(7);
    assert_eq!(state.connections().len(), 0);
    state.deregister_connection(7);
    assert_eq!(state.connections().len(), 0);
}

#[test]
fn stats_list_each_address_once() {
    let mut state = EngineState::new(config(vec![
        client(ALICE, Some("a")),
        client(BOB, Some("b")),
        client(BOB, Some("a")),
    ]));
    state.record_rx(0, 4, &some("b"));
    let mut rows: Vec<(String, u64, u64)> =
        get_stats(&state).into_iter().map(|r| (r.email, r.rx, r.tx)).collect();
    rows.sort();
    assert_eq!(rows, vec![("a".to_string(), 0, 0), ("b".to_string(), 4, 0)]);
}

#[test]
fn connections_are_described() {
    let mut state = EngineState::new(config(vec![]));
    state.register_connection(conn(0xad60c2b2cc0c492a89aac92330a10cc9, 1_000_000_000));
    let list = list_connections(&state, 4_999_999_999);
    assert_eq!(list.len(), 1);
    assert_eq!(list[0].id, ALICE);
    assert_eq!(list[0].inbound_tag, "in");
    assert_eq!(list[0].client_ip, "1.1.1.1:5");
    assert_eq!(list[0].dest_address, "d:1");
    assert_eq!(list[0].outbound_tag, "out");
    assert_eq!(list[0].sni, None);
    assert_eq!(list[0].uptime_secs, 3);
    assert_eq!(list_connections(&state, 0)[0].uptime_secs, 0);
    state.register_connection(conn(2, 0));
    assert_eq!(list_connections(&state, 0).len(), 2);
}

#[test]
fn identifiers_are_random_uuids() {
    let a = new_connection_id();
    assert_ne!(a, new_connection_id());
    assert_eq!(a >> 76 & 15, 4);
    assert_eq!(a >> 62 & 3, 2);
    assert_eq!(uuid_key(&ALICE_BYTES), 0xad60c2b2cc0c492a89aac92330a10cc9);
}
