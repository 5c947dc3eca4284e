//! The ways out, and which of them a configuration asks for.

use crate::config::{
    copy_text, FragmentSettings, Hysteria2ClientConfig, OutboundConfig, VlessClientConfig,
};
use crate::outbound::fragment::FragmentOutbound;
use crate::outbound::freedom::FreedomOutbound;
use crate::outbound::hysteria_outbound::Hysteria2ClientOutbound;
use crate::outbound::udp::UdpOutbound;
use crate::outbound::vless_client::VlessClientOutbound;
use crate::text::same_text;
use vstd::prelude::*;
use vstd::string::*;

pub mod fragment;
pub mod freedom;
pub mod hysteria_outbound;
pub mod udp;
pub mod uplink;
pub mod vless_client;

verus! {

/// The way out that leads nowhere: connections are dropped.
#[derive(Debug)]
pub struct BlackholeOutbound;

impl BlackholeOutbound {
    /// A black hole.
    pub fn new() -> (r: BlackholeOutbound)
        ensures
            r == BlackholeOutbound,
    {
        BlackholeOutbound
    }
}

/// A way out, ready to carry a connection.
#[derive(Debug)]
pub enum Handler {
    Freedom(FreedomOutbound),
    Fragment(FragmentOutbound),
    Vless {
        client: VlessClientOutbound,
        is_udp: bool,
        outbound_proxy: Option<String>,
        bind_address: Option<String>,
    },
    Hysteria2(Hysteria2ClientOutbound),
    Blackhole(BlackholeOutbound),
    Udp(UdpOutbound),
}

/// Why a configuration gives no way out.
#[derive(Debug, Clone, Copy, PartialEq, Eq)]
pub enum HandlerError {
    VlessMissing,
    HysteriaMissing,
}

impl HandlerError {
    /// The error in words.
    pub fn message(&self) -> (r: &'static str)
        ensures
            r@ == match self {
                HandlerError::VlessMissing => "VLESS client outbound configuration missing"@,
                HandlerError::HysteriaMissing => {
                    "Hysteria 2 client outbound configuration missing"@
                },
            },
    {
        match self {
            HandlerError::VlessMissing => "VLESS client outbound configuration missing",
            HandlerError::HysteriaMissing => "Hysteria 2 client outbound configuration missing",
        }
    }
}

/// The fragment settings of a way out.
pub open spec fn fragment_settings(c: OutboundConfig) -> Option<FragmentSettings> {
    match c.settings {
        Some(s) => s.fragment,
        None => None,
    }
}

/// The VLESS server of a way out.
pub open spec fn vless_settings(c: OutboundConfig) -> Option<VlessClientConfig> {
    match c.settings {
        Some(s) => s.vless,
        None => None,
    }
}

/// The Hysteria 2 server of a way out.
pub open spec fn hysteria_settings(c: OutboundConfig) -> Option<Hysteria2ClientConfig> {
    match c.settings {
        Some(s) => s.hysteria2,
        None => None,
    }
}

/// The direct way out, without a proxy and without a local address.
pub open spec fn direct() -> Handler {
    Handler::Freedom(FreedomOutbound { outbound_proxy: None, bind_address: None })
}

/// The way out that a configuration asks for. Where there is none, or one with a protocol that
/// is not known, the direct one is taken.
pub open spec fn chosen_handler(
    config: Option<OutboundConfig>,
    is_udp: bool,
) -> Result<Handler, HandlerError> {
    match config {
        None => Ok(direct()),
        Some(c) => if c.protocol@ == "freedom"@ {
            Ok(
                Handler::Freedom(
                    FreedomOutbound {
                        outbound_proxy: c.outbound_proxy,
                        bind_address: c.bind_address,
                    },
                ),
            )
        } else if c.protocol@ == "fragment"@ {
            Ok(Handler::Fragment(FragmentOutbound { settings: fragment_settings(c) }))
        } else if c.protocol@ == "vless"@ {
            match vless_settings(c) {
                Some(config) => Ok(
                    Handler::Vless {
                        client: VlessClientOutbound { config },
                        is_udp,
                        outbound_proxy: c.outbound_proxy,
                        bind_address: c.bind_address,
                    },
                ),
                None => Err(HandlerError::VlessMissing),
            }
        } else if c.protocol@ == "hysteria2"@ {
            match hysteria_settings(c) {
                Some(config) => Ok(Handler::Hysteria2(Hysteria2ClientOutbound { config })),
                None => Err(HandlerError::HysteriaMissing),
            }
        } else if c.protocol@ == "blackhole"@ {
            Ok(Handler::Blackhole(BlackholeOutbound))
        } else {
            Ok(direct())
        },
    }
}

/// The VLESS server of a way out.
pub fn vless_of(c: &OutboundConfig) -> (r: Option<VlessClientConfig>)
    ensures
        r == vless_settings(*c),
{
    match &c.settings {
        Some(s) => match &s.vless {
            Some(v) => Some(v.clone()),
            None => None,
        },
        None => None,
    }
}

/// The way out that a configuration asks for.
pub fn get_outbound_handler(
    config: Option<&OutboundConfig>,
    is_udp: bool,
) -> (r: Result<Handler, HandlerError>)
    ensures
        r == chosen_handler(
            match config {
                Some(c) => Some(*c),
                None => None,
            },
            is_udp,
        ),
{
    let c = match config {
        Some(c) => c,
        None => {
            return Ok(Handler::Freedom(FreedomOutbound::new(None, None)));
        },
    };
    let p: &str = c.protocol.as_str();
    if same_text(p, "freedom") {
        Ok(
            Handler::Freedom(
                FreedomOutbound::new(copy_text(&c.outbound_proxy), copy_text(&c.bind_address)),
            ),
        )
    } else if same_text(p, "fragment") {
        let settings = match &c.settings {
            Some(s) => match &s.fragment {
                Some(f) => Some(f.clone()),
                None => None,
            },
            None => None,
        };
        Ok(Handler::Fragment(FragmentOutbound::new(settings)))
    } else if same_text(p, "vless") {
        match vless_of(c) {
            Some(config) => Ok(
                Handler::Vless {
                    client: VlessClientOutbound::new(config),
                    is_udp,
                    outbound_proxy: copy_text(&c.outbound_proxy),
                    bind_address: copy_text(&c.bind_address),
                },
            ),
            None => Err(HandlerError::VlessMissing),
        }
    } else if same_text(p, "hysteria2") {
        let settings = match &c.settings {
            Some(s) => match &s.hysteria2 {
                Some(h) => Some(h.clone()),
                None => None,
            },
            None => None,
        };
        match settings {
            Some(config) => Ok(Handler::Hysteria2(Hysteria2ClientOutbound::new(config))),
            None => Err(HandlerError::HysteriaMissing),
        }
    } else if same_text(p, "blackhole") {
        Ok(Handler::Blackhole(BlackholeOutbound::new()))
    } else {
        Ok(Handler::Freedom(FreedomOutbound::new(None, None)))
    }
}

/// Each protocol has its way out, made of its own settings; one that is not known, and none at
/// all, mean the direct way out. Only a server that is not configured is refused.
pub proof fn law_way_out_by_protocol(c: OutboundConfig, is_udp: bool)
    ensures
        ({
            let r = chosen_handler(Some(c), is_udp);
            let p = c.protocol@;
            &&& p == "freedom"@ ==> (r matches Ok(Handler::Freedom(f)) && f.outbound_proxy
                == c.outbound_proxy && f.bind_address == c.bind_address)
            &&& p == "fragment"@ ==> (r matches Ok(Handler::Fragment(f)) && f.settings
                == match c.settings {
                Some(s) => s.fragment,
                None => None,
            })
            &&& p == "vless"@ && c.settings is Some && (c.settings->0).vless is Some ==> (r
                matches Ok(Handler::Vless { client, is_udp: udp, outbound_proxy, bind_address })
                && client.config == (c.settings->0).vless->0 && udp == is_udp && outbound_proxy
                == c.outbound_proxy && bind_address == c.bind_address)
            &&& p == "vless"@ && (c.settings is None || (c.settings->0).vless is None) ==> r == Err::<
                Handler,
                HandlerError,
            >(HandlerError::VlessMissing)
            &&& p == "hysteria2"@ && c.settings is Some && (c.settings->0).hysteria2 is Some ==> (r
                matches Ok(Handler::Hysteria2(h)) && h.config == (c.settings->0).hysteria2->0)
            &&& p == "hysteria2"@ && (c.settings is None || (c.settings->0).hysteria2 is None) ==> r
                == Err::<Handler, HandlerError>(HandlerError::HysteriaMissing)
            &&& p == "blackhole"@ ==> (r matches Ok(Handler::Blackhole(_)))
            &&& p != "freedom"@ && p != "fragment"@ && p != "vless"@ && p != "hysteria2"@ && p
                != "blackhole"@ ==> (r matches Ok(Handler::Freedom(f)) && f.outbound_proxy is None
                && f.bind_address is None)
        }),
        chosen_handler(None, is_udp) matches Ok(Handler::Freedom(f)) && f.outbound_proxy is None
            && f.bind_address is None,
{
    reveal_strlit("freedom");
    reveal_strlit("fragment");
    reveal_strlit("vless");
    reveal_strlit("hysteria2");
    reveal_strlit("blackhole");
    assert("freedom"@.len() == 7 && "fragment"@.len() == 8 && "vless"@.len() == 5);
    assert("hysteria2"@.len() == 9 && "blackhole"@.len() == 9);
    assert("hysteria2"@[0] != "blackhole"@[0]);
}

} // verus!
