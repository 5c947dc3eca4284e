use bytes::BytesMut;
use target_core::config::{
    ApiConfig, Client, Config, Hysteria2ClientConfig, InboundConfig, InboundSettings,
    RoutingConfig, StreamSettings, TlsClientSettings, TlsSettings,
};
use target_core::inbound::hysteria_inbound::{
    accepting_headers, authenticate, padding, read_stream_target, register_client, reply_message,
    stream_answer, take_tcp_request, AuthError, HysteriaInbound, STATUS_ACCEPTED,
};
use target_core::inbound::{create_inbound_listener, Listener, TcpInbound};
use target_core::net::IpAddress;
use target_core::outbound::hysteria_outbound::{
    after_message_queue, downlink_frame, read_sender, take_tcp_response, uplink_message,
    Hysteria2ClientOutbound,
};
use target_core::outbound::udp::{AfterQueue, Queued};
use target_core::state::EngineState;
use target_core::transport::tls::{credentials, listener_credentials, tls_credentials, Credentials};

const ALICE: &str = "ad60c2b2-cc0c-492a-89aa-c92330a10cc9";

fn inbound(protocol: &str) -> InboundConfig {
    InboundConfig {
        tag: "in".to_string(),
        listen: IpAddress::V4([0, 0, 0, 0]),
        port: 443,
        protocol: protocol.to_string(),
        settings: InboundSettings {
            clients: Some(vec![Client { id: ALICE.to_string(), email: Some("a".to_string()) }]),
        },
        stream_settings: None,
    }
}

fn state() -> EngineState {
    EngineState::new(Config {
        inbounds: vec![inbound("hysteria2")],
        outbounds: vec![],
        routing: RoutingConfig { rules: vec![] },
        api: ApiConfig { listen: IpAddress::V4([127, 0, 0, 1]), port: 9091 },
    })
}

fn auth(method: &str, path: &str, header: Option<&str>) -> Result<Option<String>, AuthError> {
    authenticate(method, path, &header.map(|h| h.to_string()), "in", &state())
}

#[test]
fn clients_authenticate_with_their_uuid() {
    assert_eq!(auth("POST", "/auth", Some(ALICE)), Ok(Some("a".to_string())));
    let other_form = "AD60C2B2-CC0C-492A-89AA-C92330A10CC9";
    assert_eq!(auth("POST", "/auth", Some(other_form)), Ok(None));
    assert_eq!(auth("GET", "/auth", Some(ALICE)), Err(AuthError::Request));
    assert_eq!(auth("POST", "/", Some(ALICE)), Err(AuthError::Request));
    assert_eq!(auth("POST", "/auth", None), Err(AuthError::NoHeader));
    let e = auth("POST", "/auth", Some("x")).unwrap_err();
    assert_eq!(e, AuthError::NoUuid("invalid character: found `x` at 0".to_string()));
    assert_eq!(e.message(), "invalid character: found `x` at 0");
    let nobody = "00000000-0000-0000-0000-000000000000";
    assert_eq!(auth("POST", "/auth", Some(nobody)), Err(AuthError::Refused));
    assert_eq!(AuthError::Request.message(), "Invalid HTTP/3 auth path or method");
    assert_eq!(AuthError::NoHeader.message(), "Missing Hysteria-Auth header");
    assert_eq!(AuthError::Refused.message(), "Authentication failed");
}

#[test]
fn answers_carry_three_headers() {
    assert_eq!(STATUS_ACCEPTED, 233);
    assert_eq!(padding(), "a".repeat(16));
    assert_eq!(
        accepting_headers(),
        vec![
            ("Hysteria-UDP", "true".to_string()),
            ("Hysteria-CC-RX", "auto".to_string()),
            ("Hysteria-Padding", "aaaaaaaaaaaaaaaa".to_string()),
        ]
    );
}

#[test]
fn clients_are_listed() {
    let mut s = state();
    register_client(&mut s, 4, "in", "1.1.1.1:7", 6);
    let conn = s.connections().get(&4).unwrap();
    assert_eq!(conn.dest_address, "hysteria-multiplexed");
    assert_eq!(conn.outbound_tag, "freedom");
    assert_eq!(conn.client_ip, "1.1.1.1:7");
    assert_eq!(conn.start_time, 6);
}

#[test]
fn requests_are_taken_when_they_are_whole() {
    let whole = Hysteria2ClientOutbound::request("example.com", 80).serialize();
    let mut buf = BytesMut::new();
    for i in 0..whole.len() {
        assert!(take_tcp_request(&mut buf).is_none());
        assert_eq!(buf.len(), i);
        buf.extend_from_slice(&whole[i..i + 1]);
    }
    buf.extend_from_slice(&[1, 2]);
    assert_eq!(take_tcp_request(&mut buf).unwrap().address, "example.com:80");
    assert_eq!(buf.to_vec(), vec![1, 2]);
}

#[test]
fn responses_are_taken_when_they_are_whole() {
    let mut buf = BytesMut::from(&stream_answer(true)[..]);
    assert_eq!(take_tcp_response(&mut buf).unwrap().status, 0);
    assert!(buf.is_empty());
    assert!(take_tcp_response(&mut buf).is_none());
    buf.extend_from_slice(&stream_answer(false)[..1]);
    assert!(take_tcp_response(&mut buf).is_none());
    assert_eq!(buf.to_vec(), vec![1]);
    buf.extend_from_slice(&[0, 9]);
    let r = take_tcp_response(&mut buf).unwrap();
    assert_eq!(r.status, 1);
    assert_eq!(r.error_message, Some(String::new()));
    assert_eq!(buf.to_vec(), vec![9]);
}

#[test]
fn targets_are_a_host_and_a_port() {
    assert_eq!(read_stream_target("h:80"), Some(("h".to_string(), 80)));
    assert_eq!(read_stream_target("h"), None);
    assert_eq!(read_stream_target("h:"), None);
    assert_eq!(read_stream_target("h:65536"), None);
    assert_eq!(read_stream_target("::1:80"), None);
}

#[test]
fn replies_are_in_one_piece() {
    let m = reply_message(7, 8, "1.2.3.4:5", &[9]);
    assert_eq!((m.session_id, m.packet_id, m.fragment_id, m.fragment_count), (7, 8, 0, 1));
    assert_eq!(m.address, "1.2.3.4:5");
    assert_eq!(m.payload.to_vec(), vec![9]);
}

fn client(tls: Option<TlsClientSettings>, down: Option<u64>) -> Hysteria2ClientOutbound {
    Hysteria2ClientOutbound::new(Hysteria2ClientConfig {
        server: "s".to_string(),
        port: 443,
        auth: ALICE.to_string(),
        up_mbps: None,
        down_mbps: down,
        tls,
    })
}

#[test]
fn clients_tell_who_they_are() {
    assert_eq!(
        client(None, Some(1205)).auth_headers(),
        vec![
            ("Hysteria-Auth", ALICE.to_string()),
            ("Hysteria-CC-RX", "1205".to_string()),
            ("Hysteria-Padding", "aaaaaaaaaaaaaaaa".to_string()),
        ]
    );
    assert_eq!(client(None, None).auth_headers()[1].1, "0");
    assert_eq!(client(None, None).server_name(), "hysteria");
    let tls = TlsClientSettings { server_name: "n".to_string(), reality: None };
    assert_eq!(client(Some(tls), None).server_name(), "n");
    assert!(Hysteria2ClientOutbound::accepted(233));
    assert!(!Hysteria2ClientOutbound::accepted(200));
    assert!(Hysteria2ClientOutbound::reuses(Some(true)));
    assert!(!Hysteria2ClientOutbound::reuses(Some(false)));
    assert!(!Hysteria2ClientOutbound::reuses(None));
    assert!(Hysteria2ClientOutbound::multiplexed("0.0.0.0", 0));
    assert!(!Hysteria2ClientOutbound::multiplexed("0.0.0.0", 1));
    assert!(!Hysteria2ClientOutbound::multiplexed("h", 0));
}

#[test]
fn datagrams_go_up_and_come_down() {
    let up = uplink_message(0x0102, "8.8.8.8", 53, &[5]);
    assert_eq!((up.session_id, up.packet_id, up.fragment_id, up.fragment_count), (0x0102, 0, 0, 1));
    assert_eq!(up.address, "8.8.8.8:53");
    let down = reply_message(up.session_id + 65536, 0, &up.address, &[6, 7]);
    let (host, port) = read_sender(&down.address).unwrap();
    assert_eq!((host.as_str(), port), ("8.8.8.8", 53));
    let ip = IpAddress::V4([8, 8, 8, 8]);
    assert_eq!(
        downlink_frame(&down, &host, Some(ip), port).to_vec(),
        vec![0, 11, 1, 2, 1, 8, 8, 8, 8, 0, 53, 6, 7]
    );
    assert_eq!(
        downlink_frame(&down, "ab", None, 1).to_vec(),
        vec![0, 10, 1, 2, 3, 2, 97, 98, 0, 1, 6, 7]
    );
    assert_eq!(read_sender("h:x"), Some(("h".to_string(), 0)));
    assert_eq!(read_sender("h"), None);
    assert_eq!(read_sender("[::1]:5"), None);
}

#[test]
fn listeners_follow_the_protocol() {
    assert!(matches!(create_inbound_listener(inbound("vless")), Ok(Listener::Tcp(_))));
    assert!(matches!(create_inbound_listener(inbound("socks")), Ok(Listener::Socks5(_))));
    assert_eq!(
        create_inbound_listener(inbound("hysteria2")).unwrap_err(),
        "Unsupported inbound protocol: hysteria2"
    );
    assert!(TcpInbound::reads("vless"));
    assert!(!TcpInbound::reads("socks"));
    assert_eq!(HysteriaInbound::new(inbound("x")).config.tag, "in");
}

fn stream(security: &str, cert: Option<&str>, key: Option<&str>) -> Option<StreamSettings> {
    Some(StreamSettings {
        security: security.to_string(),
        tls_settings: Some(TlsSettings {
            server_name: "n".to_string(),
            certificate_file: cert.map(|c| c.to_string()),
            key_file: key.map(|k| k.to_string()),
        }),
    })
}

#[test]
fn credentials_are_files_only_in_pairs() {
    let files = Credentials::Files("c".to_string(), "k".to_string());
    let own = Credentials::SelfSigned(vec!["localhost".to_string(), "127.0.0.1".to_string()]);
    assert_eq!(credentials(&Some("c".to_string()), &Some("k".to_string())), files);
    assert_eq!(credentials(&Some("c".to_string()), &None), own);
    assert_eq!(listener_credentials(&stream("none", Some("c"), Some("k"))), files);
    assert_eq!(listener_credentials(&None), own);
    assert_eq!(tls_credentials(&stream("tls", Some("c"), Some("k"))), Some(files));
    assert_eq!(tls_credentials(&stream("tls", None, Some("k"))), Some(own));
    assert_eq!(tls_credentials(&stream("none", Some("c"), Some("k"))), None);
    assert_eq!(tls_credentials(&None), None);
}

#[test]
fn messages_count_even_if_the_queue_is_full() {
    assert_eq!(after_message_queue(Queued::Taken), AfterQueue::Count);
    assert_eq!(after_message_queue(Queued::Full), AfterQueue::Count);
    assert_eq!(after_message_queue(Queued::Closed), AfterQueue::Stop);
}
