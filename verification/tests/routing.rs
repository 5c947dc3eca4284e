use target_core::config::{
    ApiConfig, Client, Config, FragmentSettings, Hysteria2ClientConfig, InboundConfig,
    InboundSettings, OutboundConfig, OutboundSettings, RoutingConfig, RoutingRule,
    TlsClientSettings, VlessClientConfig,
};
use target_core::dispatcher::{
    dispatch_connection, dispatch_with_id, find_email, find_outbound, names_user, select_handler,
    Incoming,
};
use target_core::net::IpAddress;
use target_core::outbound::{get_outbound_handler, Handler, HandlerError};
use target_core::router::Router;
use target_core::state::EngineState;

const ALICE: &str = "ad60c2b2-cc0c-492a-89aa-c92330a10cc9";
const ALICE_BYTES: [u8; 16] = [
    0xad, 0x60, 0xc2, 0xb2, 0xcc, 0x0c, 0x49, 0x2a, 0x89, 0xaa, 0xc9, 0x23, 0x30, 0xa1, 0x0c, 0xc9,
];

fn rule(outbound: &str) -> RoutingRule {
    RoutingRule {
        domain: None,
        ip: None,
        port: None,
        inbound_tag: None,
        outbound_tag: outbound.to_string(),
    }
}

fn outbound(tag: &str, protocol: &str) -> OutboundConfig {
    OutboundConfig {
        tag: tag.to_string(),
        protocol: protocol.to_string(),
        settings: None,
        outbound_proxy: None,
        bind_address: None,
    }
}

fn config(rules: Vec<RoutingRule>, outbounds: Vec<OutboundConfig>) -> Config {
    Config {
        inbounds: vec![InboundConfig {
            tag: "in".to_string(),
            listen: IpAddress::V4([0, 0, 0, 0]),
            port: 443,
            protocol: "vless".to_string(),
            settings: InboundSettings {
                clients: Some(vec![
                    Client { id: "nonsense".to_string(), email: Some("x@example.com".to_string()) },
                    Client {
                        id: ALICE.to_string(),
                        email: Some("test_user@example.com".to_string()),
                    },
                ]),
            },
            stream_settings: None,
        }],
        outbounds,
        routing: RoutingConfig { rules },
        api: ApiConfig { listen: IpAddress::V4([127, 0, 0, 1]), port: 9091 },
    }
}

/// The address that a text of four numbers spells.
fn literal(dest: &str) -> Option<IpAddress> {
    let parts: Vec<u8> = dest.split('.').filter_map(|p| p.parse().ok()).collect();
    let octets: [u8; 4] = parts.try_into().ok()?;
    Some(IpAddress::V4(octets))
}

fn route(c: &Config, dest: &str, port: u16, sni: Option<&str>) -> String {
    Router::new().route("in", dest, literal(dest), port, &sni.map(|s| s.to_string()), c)
}

#[test]
fn domain_rule_looks_for_part_of_the_name() {
    let mut r = rule("bypass-sni");
    r.domain = Some(vec!["tiktok.com".to_string(), "byteoversea.com".to_string()]);
    let c = config(vec![r], vec![outbound("bypass-sni", "fragment"), outbound("freedom", "freedom")]);
    assert_eq!(route(&c, "www.tiktok.com", 443, None), "bypass-sni");
    assert_eq!(route(&c, "x.byteoversea.com.cdn", 443, None), "bypass-sni");
    assert_eq!(route(&c, "1.2.3.4", 443, Some("api.tiktok.com")), "bypass-sni");
    assert_eq!(route(&c, "tiktok.co", 443, None), "freedom");
}

#[test]
fn domain_patterns_speak_of_names() {
    let mut r = rule("x");
    r.domain = Some(vec!["0.0.1".to_string()]);
    let router = Router::new();
    let address = Some(IpAddress::V4([10, 0, 0, 1]));
    assert!(!router.match_rule(&r, "in", "10.0.0.1", address, 80, &None));
    assert!(router.match_rule(&r, "in", "v10.0.0.1.example", None, 80, &None));
    let sni = Some("v10.0.0.1.example".to_string());
    assert!(router.match_rule(&r, "in", "10.0.0.1", address, 80, &sni));
    let c = config(vec![r], vec![outbound("freedom", "freedom")]);
    assert_eq!(route(&c, "10.0.0.1", 80, None), "freedom");
}

#[test]
fn first_rule_that_applies_decides() {
    let mut a = rule("a");
    a.port = Some(vec![80, 443]);
    let mut b = rule("b");
    b.ip = Some(vec!["10.0.0.1".to_string()]);
    let c = config(vec![a, b, rule("c")], vec![outbound("freedom", "freedom")]);
    assert_eq!(route(&c, "10.0.0.1", 443, None), "a");
    assert_eq!(route(&c, "10.0.0.1", 8080, None), "b");
    assert_eq!(route(&c, "10.0.0.10", 8080, None), "c");
}

#[test]
fn all_conditions_of_a_rule_must_hold() {
    let mut r = rule("a");
    r.port = Some(vec![443]);
    r.inbound_tag = Some(vec!["in".to_string()]);
    r.ip = Some(vec!["10.0.0.1".to_string()]);
    let router = Router::new();
    assert!(router.match_rule(&r, "in", "10.0.0.1", literal("10.0.0.1"), 443, &None));
    assert!(!router.match_rule(&r, "other", "10.0.0.1", literal("10.0.0.1"), 443, &None));
    assert!(!router.match_rule(&r, "in", "10.0.0.2", literal("10.0.0.2"), 443, &None));
    assert!(!router.match_rule(&r, "in", "10.0.0.1", literal("10.0.0.1"), 80, &None));
    assert!(router.match_rule(&rule("b"), "any", "where", literal("where"), 1, &None));
    r.domain = Some(vec![]);
    assert!(!router.match_rule(&r, "in", "10.0.0.1", literal("10.0.0.1"), 443, &None));
}

#[test]
fn default_is_freedom_then_the_first_then_freedom() {
    let c = config(vec![], vec![outbound("x", "blackhole"), outbound("freedom", "freedom")]);
    assert_eq!(route(&c, "h", 1, None), "freedom");
    let c = config(vec![], vec![outbound("x", "blackhole"), outbound("y", "freedom")]);
    assert_eq!(route(&c, "h", 1, None), "x");
    let c = config(vec![], vec![]);
    assert_eq!(route(&c, "h", 1, None), "freedom");
}

#[test]
fn handlers_follow_the_protocol() {
    let mut free = outbound("f", "freedom");
    free.outbound_proxy = Some("127.0.0.1:1080".to_string());
    free.bind_address = Some("10.0.0.2".to_string());
    match get_outbound_handler(Some(&free), false) {
        Ok(Handler::Freedom(f)) => {
            assert_eq!(f.outbound_proxy, Some("127.0.0.1:1080".to_string()));
            assert_eq!(f.bind_address, Some("10.0.0.2".to_string()));
        }
        other => panic!("{:?}", other),
    }
    match get_outbound_handler(None, false) {
        Ok(Handler::Freedom(f)) => assert_eq!(f.outbound_proxy, None),
        other => panic!("{:?}", other),
    }
    let mut odd = outbound("o", "odd");
    odd.outbound_proxy = Some("p".to_string());
    match get_outbound_handler(Some(&odd), false) {
        Ok(Handler::Freedom(f)) => assert_eq!(f.outbound_proxy, None),
        other => panic!("{:?}", other),
    }
    assert!(matches!(
        get_outbound_handler(Some(&outbound("b", "blackhole")), false),
        Ok(Handler::Blackhole(_))
    ));
    match get_outbound_handler(Some(&outbound("g", "fragment")), false) {
        Ok(Handler::Fragment(f)) => assert!(f.settings.is_none()),
        other => panic!("{:?}", other),
    }
}

#[test]
fn handlers_need_their_servers() {
    let e = get_outbound_handler(Some(&outbound("v", "vless")), false).unwrap_err();
    assert_eq!(e, HandlerError::VlessMissing);
    assert_eq!(e.message(), "VLESS client outbound configuration missing");
    let e = get_outbound_handler(Some(&outbound("h", "hysteria2")), false).unwrap_err();
    assert_eq!(e, HandlerError::HysteriaMissing);
    assert_eq!(e.message(), "Hysteria 2 client outbound configuration missing");
}

fn settings() -> OutboundSettings {
    OutboundSettings {
        fragment: Some(FragmentSettings {
            packets: "1-5".to_string(),
            length: "1-10".to_string(),
            interval: 20,
        }),
        vless: Some(VlessClientConfig {
            server: "s".to_string(),
            port: 443,
            uuid: ALICE.to_string(),
            tls: Some(TlsClientSettings { server_name: "n".to_string(), reality: Some(true) }),
        }),
        hysteria2: Some(Hysteria2ClientConfig {
            server: "q".to_string(),
            port: 8443,
            auth: "secret".to_string(),
            up_mbps: Some(1),
            down_mbps: Some(2),
            tls: None,
        }),
    }
}

#[test]
fn handlers_take_over_their_settings() {
    let mut v = outbound("v", "vless");
    v.settings = Some(settings());
    match get_outbound_handler(Some(&v), true) {
        Ok(Handler::Vless { client, is_udp, .. }) => {
            assert!(is_udp);
            assert_eq!(client.config.server, "s");
            assert_eq!(client.config.tls.unwrap().reality, Some(true));
        }
        other => panic!("{:?}", other),
    }
    v.protocol = "hysteria2".to_string();
    match get_outbound_handler(Some(&v), false) {
        Ok(Handler::Hysteria2(h)) => assert_eq!(h.config.auth, "secret"),
        other => panic!("{:?}", other),
    }
    v.protocol = "fragment".to_string();
    match get_outbound_handler(Some(&v), false) {
        Ok(Handler::Fragment(f)) => assert_eq!(f.settings.unwrap().interval, 20),
        other => panic!("{:?}", other),
    }
    let copy = v.clone();
    assert_eq!(copy.settings.unwrap().hysteria2.unwrap().port, 8443);
}

#[test]
fn datagrams_go_directly_unless_through_vless() {
    assert!(matches!(select_handler(Some(&outbound("b", "blackhole")), 2), Ok(Handler::Udp(_))));
    assert!(matches!(select_handler(None, 2), Ok(Handler::Udp(_))));
    assert!(matches!(select_handler(None, 1), Ok(Handler::Freedom(_))));
    let mut v = outbound("v", "vless");
    assert_eq!(select_handler(Some(&v), 2).unwrap_err(), HandlerError::VlessMissing);
    v.settings = Some(settings());
    assert!(matches!(select_handler(Some(&v), 2), Ok(Handler::Vless { is_udp: true, .. })));
    assert!(matches!(select_handler(Some(&v), 1), Ok(Handler::Vless { is_udp: false, .. })));
}

#[test]
fn users_are_found_by_their_uuid() {
    let c = config(vec![], vec![]);
    assert_eq!(find_email(&c, "in", &ALICE_BYTES), Some("test_user@example.com".to_string()));
    assert_eq!(find_email(&c, "out", &ALICE_BYTES), None);
    assert_eq!(find_email(&c, "in", &[0; 16]), None);
    assert!(names_user(&Some(ALICE_BYTES), &ALICE_BYTES));
    assert!(!names_user(&Some([0; 16]), &ALICE_BYTES));
    assert!(!names_user(&None, &ALICE_BYTES));
}

#[test]
fn first_outbound_with_the_tag_is_taken() {
    let c = config(vec![], vec![outbound("x", "blackhole"), outbound("x", "freedom")]);
    assert_eq!(find_outbound(&c, "x").unwrap().protocol, "blackhole");
    assert!(find_outbound(&c, "y").is_none());
}

fn incoming(command: u8) -> Incoming {
    Incoming {
        inbound_tag: "in".to_string(),
        client_ip: "9.9.9.9:1".to_string(),
        dest_addr: "example.com".to_string(),
        literal: None,
        dest_port: 443,
        user: ALICE_BYTES,
        command,
        sni: Some("sni".to_string()),
    }
}

#[test]
fn dispatch_lists_the_connection() {
    let mut state = EngineState::new(config(vec![], vec![outbound("x", "blackhole")]));
    let d = dispatch_with_id(&mut state, 77, &incoming(1), 5).unwrap();
    assert_eq!(d.id, 77);
    assert_eq!(d.email, Some("test_user@example.com".to_string()));
    assert_eq!(d.outbound_tag, "x");
    assert!(matches!(d.handler, Handler::Blackhole(_)));
    let conn = state.connections().get(&77).unwrap();
    assert_eq!(conn.dest_address, "example.com:443");
    assert_eq!(conn.client_ip, "9.9.9.9:1");
    assert_eq!(conn.sni, Some("sni".to_string()));
    assert_eq!(conn.outbound_tag, "x");
    assert_eq!(conn.start_time, 5);
}

#[test]
fn dispatch_without_a_server_lists_nothing() {
    let mut state = EngineState::new(config(vec![], vec![outbound("x", "vless")]));
    let e = dispatch_with_id(&mut state, 77, &incoming(1), 5).unwrap_err();
    assert_eq!(e, HandlerError::VlessMissing);
    assert!(state.connections().is_empty());
}

#[test]
fn dispatch_makes_random_identifiers() {
    let mut state = EngineState::new(config(vec![], vec![]));
    let a = dispatch_connection(&mut state, &incoming(1), 5).unwrap().id;
    let b = dispatch_connection(&mut state, &incoming(2), 5).unwrap().id;
    assert_ne!(a, b);
    assert_eq!(a >> 76 & 15, 4);
    assert_eq!(a >> 62 & 3, 2);
    assert_eq!(state.connections().len(), 2);
}
