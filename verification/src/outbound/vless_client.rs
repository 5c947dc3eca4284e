//! The way out through a VLESS server.

use crate::config::VlessClientConfig;
use crate::ids::{parse_uuid, uuid_error, uuid_of_text};
use crate::net::{host_bytes, push_host, Host, HostView, VLESS_DOMAIN, VLESS_V6};
use crate::wire::{be16, high_byte, low_byte};
use vstd::prelude::*;
use vstd::string::*;

verus! {

/// The version byte of requests and responses.
pub const VLESS_VERSION: u8 = 0;

/// The command byte that opens a TCP connection.
pub const COMMAND_TCP: u8 = 1;

/// The command byte that opens a UDP tunnel.
pub const COMMAND_UDP: u8 = 2;

/// The way out through a VLESS server.
#[derive(Debug)]
pub struct VlessClientOutbound {
    pub config: VlessClientConfig,
}

impl VlessClientOutbound {
    /// The way out through a server.
    pub fn new(config: VlessClientConfig) -> (r: VlessClientOutbound)
        ensures
            r.config == config,
    {
        VlessClientOutbound { config }
    }
}

/// The header of a request: version, user, no addons, command, port, host.
pub open spec fn vless_header(user: Seq<u8>, command: u8, port: u16, host: HostView) -> Seq<u8> {
    seq![VLESS_VERSION] + user + seq![0u8, command] + be16(port) + host_bytes(
        host,
        VLESS_DOMAIN,
        VLESS_V6,
    )
}

/// The command byte of a connection.
pub fn command_of(is_udp: bool) -> (r: u8)
    ensures
        r == if is_udp {
            COMMAND_UDP
        } else {
            COMMAND_TCP
        },
{
    if is_udp {
        COMMAND_UDP
    } else {
        COMMAND_TCP
    }
}

/// Writes the header of a request for a user.
pub fn write_header(user: &[u8; 16], command: u8, port: u16, host: &Host) -> (r: Vec<u8>)
    ensures
        r@ == vless_header(user@, command, port, host@),
{
    let mut out: Vec<u8> = Vec::new();
    out.push(VLESS_VERSION);
    out.extend_from_slice(user.as_slice());
    out.push(0);
    out.push(command);
    out.push(high_byte(port));
    out.push(low_byte(port));
    assert(out@ =~= seq![VLESS_VERSION] + user@ + seq![0u8, command] + be16(port));
    push_host(&mut out, host, VLESS_DOMAIN, VLESS_V6);
    out
}

/// The header of a request for a user given by the text of its UUID; if it is none, why not.
pub fn request_header(user: &str, command: u8, port: u16, host: &Host) -> (r: Result<
    Vec<u8>,
    String,
>)
    ensures
        match uuid_of_text(user@) {
            Some(id) => r matches Ok(b) && b@ == vless_header(id, command, port, host@),
            None => r matches Err(e) && e@ == uuid_error(user@),
        },
{
    match parse_uuid(user) {
        Ok(id) => Ok(write_header(&id, command, port, host)),
        Err(e) => Err(e),
    }
}

/// Whether a server accepts: the first of the two bytes of its response is the version.
pub fn response_accepts(response: &[u8; 2]) -> (r: bool)
    ensures
        r == (response@[0] == VLESS_VERSION),
{
    response[0] == VLESS_VERSION
}

/// A request lies on the wire as the protocol has it: version, user, no addons, command, port
/// with its high byte first, and the host with its own type bytes.
pub proof fn law_header_layout(user: Seq<u8>, command: u8, port: u16, host: HostView)
    requires
        user.len() == 16,
    ensures
        ({
            let s = vless_header(user, command, port, host);
            &&& s[0] == 0
            &&& s.subrange(1, 17) == user
            &&& s[17] == 0
            &&& s[18] == command
            &&& s[19] * 256 + s[20] == port
            &&& s.skip(21) == host_bytes(host, 2, 3)
        }),
{
    let s = vless_header(user, command, port, host);
    assert(s.subrange(1, 17) =~= user);
    assert(s[19] == be16(port)[0] && s[20] == be16(port)[1]);
    assert(s.skip(21) =~= host_bytes(host, 2, 3));
}

} // verus!
