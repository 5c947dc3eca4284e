//! The listeners, and which of them a configuration asks for.

use crate::config::InboundConfig;
use crate::inbound::socks5::Socks5Inbound;
use crate::text::same_text;
use vstd::prelude::*;
use vstd::string::*;

pub mod handshake;
pub mod hysteria_inbound;
pub mod socks5;
pub mod vless;

verus! {

/// The listener for VLESS over TCP.
#[derive(Debug)]
pub struct TcpInbound {
    pub config: InboundConfig,
}

impl TcpInbound {
    /// A listener.
    pub fn new(config: InboundConfig) -> (r: TcpInbound)
        ensures
            r.config == config,
    {
        TcpInbound { config }
    }

    /// Whether the connections of a listener are read as VLESS.
    pub fn reads(protocol: &str) -> (r: bool)
        ensures
            r == (protocol@ == "vless"@),
    {
        same_text(protocol, "vless")
    }
}

/// A listener that can be started.
#[derive(Debug)]
pub enum Listener {
    Tcp(TcpInbound),
    Socks5(Socks5Inbound),
}

/// The listener that a configuration asks for, or in words why there is none.
pub fn create_inbound_listener(config: InboundConfig) -> (r: Result<Listener, String>)
    ensures
        config.protocol@ == "vless"@ ==> r == Ok::<Listener, String>(
            Listener::Tcp(TcpInbound { config }),
        ),
        config.protocol@ == "socks"@ ==> r == Ok::<Listener, String>(
            Listener::Socks5(Socks5Inbound { config }),
        ),
        config.protocol@ != "vless"@ && config.protocol@ != "socks"@ ==> (r matches Err(m) && m@
            == "Unsupported inbound protocol: "@ + config.protocol@),
{
    proof {
        reveal_strlit("vless");
        reveal_strlit("socks");
        assert("vless"@[0] != "socks"@[0]);
    }
    if same_text(config.protocol.as_str(), "vless") {
        Ok(Listener::Tcp(TcpInbound::new(config)))
    } else if same_text(config.protocol.as_str(), "socks") {
        Ok(Listener::Socks5(Socks5Inbound::new(config)))
    } else {
        let mut message: String = "Unsupported inbound protocol: ".to_string();
        message.append(config.protocol.as_str());
        Err(message)
    }
}

} // verus!
