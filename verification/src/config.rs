//! The configuration of the engine.

use crate::net::IpAddress;
use vstd::prelude::*;
use vstd::string::*;

verus! {

/// Everything that the engine is configured with.
#[derive(Debug, Clone)]
pub struct Config {
    pub inbounds: Vec<InboundConfig>,
    pub outbounds: Vec<OutboundConfig>,
    pub routing: RoutingConfig,
    pub api: ApiConfig,
}

/// A listener.
#[derive(Debug, Clone)]
pub struct InboundConfig {
    pub tag: String,
    pub listen: IpAddress,
    pub port: u16,
    /// `vless` or `socks`.
    pub protocol: String,
    pub settings: InboundSettings,
    pub stream_settings: Option<StreamSettings>,
}

/// How the connections of a listener are secured.
#[derive(Debug, Clone)]
pub struct StreamSettings {
    /// `none` or `tls`.
    pub security: String,
    pub tls_settings: Option<TlsSettings>,
}

/// The TLS credentials of a listener.
#[derive(Debug, Clone)]
pub struct TlsSettings {
    pub server_name: String,
    pub certificate_file: Option<String>,
    pub key_file: Option<String>,
}

/// Who may use a listener.
#[derive(Debug, Clone)]
pub struct InboundSettings {
    pub clients: Option<Vec<Client>>,
}

/// A user.
#[derive(Debug, Clone)]
pub struct Client {
    /// A UUID.
    pub id: String,
    pub email: Option<String>,
}

/// A way out.
#[derive(Debug)]
pub struct OutboundConfig {
    pub tag: String,
    /// `freedom`, `fragment`, `blackhole`, `vless` or `hysteria2`.
    pub protocol: String,
    pub settings: Option<OutboundSettings>,
    pub outbound_proxy: Option<String>,
    pub bind_address: Option<String>,
}

/// What the protocols of a way out need.
#[derive(Debug)]
pub struct OutboundSettings {
    pub fragment: Option<FragmentSettings>,
    pub vless: Option<VlessClientConfig>,
    pub hysteria2: Option<Hysteria2ClientConfig>,
}

/// A Hysteria 2 server to go out through.
#[derive(Debug)]
pub struct Hysteria2ClientConfig {
    pub server: String,
    pub port: u16,
    pub auth: String,
    pub up_mbps: Option<u64>,
    pub down_mbps: Option<u64>,
    pub tls: Option<TlsClientSettings>,
}

/// A VLESS server to go out through.
#[derive(Debug)]
pub struct VlessClientConfig {
    pub server: String,
    pub port: u16,
    pub uuid: String,
    pub tls: Option<TlsClientSettings>,
}

/// How a server is reached over TLS.
#[derive(Debug)]
pub struct TlsClientSettings {
    pub server_name: String,
    pub reality: Option<bool>,
}

/// How the first payload of a connection is cut up.
#[derive(Debug)]
pub struct FragmentSettings {
    /// The range of the largest number of pieces, such as `1-5`.
    pub packets: String,
    /// The range of the sizes of the pieces, such as `100-200`.
    pub length: String,
    /// Milliseconds between two pieces.
    pub interval: u64,
}

/// The routing rules, in the order in which they are tried.
#[derive(Debug, Clone)]
pub struct RoutingConfig {
    pub rules: Vec<RoutingRule>,
}

/// A routing rule: the conditions that are given must all hold.
#[derive(Debug, Clone)]
pub struct RoutingRule {
    pub domain: Option<Vec<String>>,
    pub ip: Option<Vec<String>>,
    pub port: Option<Vec<u16>>,
    pub inbound_tag: Option<Vec<String>>,
    pub outbound_tag: String,
}

/// Where the admin service listens.
#[derive(Debug, Clone)]
pub struct ApiConfig {
    pub listen: IpAddress,
    pub port: u16,
}

/// A copy of an optional text.
pub fn copy_text(o: &Option<String>) -> (r: Option<String>)
    ensures
        r == *o,
{
    match o {
        Some(s) => Some(s.clone()),
        None => None,
    }
}

impl Clone for TlsClientSettings {
    fn clone(&self) -> (r: TlsClientSettings)
        ensures
            r == *self,
    {
        TlsClientSettings { server_name: self.server_name.clone(), reality: self.reality }
    }
}

/// A copy of optional TLS settings.
fn copy_tls(o: &Option<TlsClientSettings>) -> (r: Option<TlsClientSettings>)
    ensures
        r == *o,
{
    match o {
        Some(t) => Some(t.clone()),
        None => None,
    }
}

impl Clone for VlessClientConfig {
    fn clone(&self) -> (r: VlessClientConfig)
        ensures
            r == *self,
    {
        VlessClientConfig {
            server: self.server.clone(),
            port: self.port,
            uuid: self.uuid.clone(),
            tls: copy_tls(&self.tls),
        }
    }
}

impl Clone for Hysteria2ClientConfig {
    fn clone(&self) -> (r: Hysteria2ClientConfig)
        ensures
            r == *self,
    {
        Hysteria2ClientConfig {
            server: self.server.clone(),
            port: self.port,
            auth: self.auth.clone(),
            up_mbps: self.up_mbps,
            down_mbps: self.down_mbps,
            tls: copy_tls(&self.tls),
        }
    }
}

impl Clone for FragmentSettings {
    fn clone(&self) -> (r: FragmentSettings)
        ensures
            r == *self,
    {
        FragmentSettings {
            packets: self.packets.clone(),
            length: self.length.clone(),
            interval: self.interval,
        }
    }
}

impl Clone for OutboundSettings {
    fn clone(&self) -> (r: OutboundSettings)
        ensures
            r == *self,
    {
        OutboundSettings {
            fragment: match &self.fragment {
                Some(f) => Some(f.clone()),
                None => None,
            },
            vless: match &self.vless {
                Some(v) => Some(v.clone()),
                None => None,
            },
            hysteria2: match &self.hysteria2 {
                Some(h) => Some(h.clone()),
                None => None,
            },
        }
    }
}

impl Clone for OutboundConfig {
    fn clone(&self) -> (r: OutboundConfig)
        ensures
            r == *self,
    {
        OutboundConfig {
            tag: self.tag.clone(),
            protocol: self.protocol.clone(),
            settings: match &self.settings {
                Some(s) => Some(s.clone()),
                None => None,
            },
            outbound_proxy: copy_text(&self.outbound_proxy),
            bind_address: copy_text(&self.bind_address),
        }
    }
}

} // verus!
