//! Addresses, and how the proxy protocols write them.
//!
//! SOCKS5 and VLESS both write a host as a type byte and then four octets, sixteen octets, or
//! a length byte and a name. They differ in the type bytes.

use crate::text::{text_of_utf8, utf8_error};
use crate::wire::{array16, array4, low8, truncate_u8};
use vstd::prelude::*;
use vstd::slice::*;
use vstd::string::*;
use vstd::utf8::*;

verus! {

/// The type byte of an IPv4 address, in both protocols.
pub const TYPE_V4: u8 = 1;

/// The type byte of a name in SOCKS5.
pub const SOCKS_DOMAIN: u8 = 3;

/// The type byte of an IPv6 address in SOCKS5.
pub const SOCKS_V6: u8 = 4;

/// The type byte of a name in VLESS.
pub const VLESS_DOMAIN: u8 = 2;

/// The type byte of an IPv6 address in VLESS.
pub const VLESS_V6: u8 = 3;

/// An IP address by its octets.
#[derive(Debug, Clone, Copy, PartialEq, Eq)]
pub enum IpAddress {
    V4([u8; 4]),
    V6([u8; 16]),
}

impl View for IpAddress {
    type V = Seq<u8>;

    /// The octets: four of them or sixteen.
    open spec fn view(&self) -> Seq<u8> {
        match self {
            IpAddress::V4(o) => o@,
            IpAddress::V6(o) => o@,
        }
    }
}

/// Whether octets make an address.
pub open spec fn is_ip(o: Seq<u8>) -> bool {
    o.len() == 4 || o.len() == 16
}

impl IpAddress {
    /// The octets of the address.
    pub fn octets(&self) -> (r: &[u8])
        ensures
            r@ == self@,
            is_ip(r@),
    {
        match self {
            IpAddress::V4(o) => o.as_slice(),
            IpAddress::V6(o) => o.as_slice(),
        }
    }

    /// Whether the address is an IPv4 address.
    pub fn is_ipv4(&self) -> (r: bool)
        ensures
            r == (self@.len() == 4),
    {
        match self {
            IpAddress::V4(_) => true,
            IpAddress::V6(_) => false,
        }
    }

    /// The address that stands for every local address: `0.0.0.0` or `::`.
    pub fn unspecified(v4: bool) -> (r: IpAddress)
        ensures
            r@ == unspecified_octets(v4),
    {
        if v4 {
            let r = IpAddress::V4([0u8; 4]);
            assert(r@ =~= unspecified_octets(v4));
            r
        } else {
            let r = IpAddress::V6([0u8; 16]);
            assert(r@ =~= unspecified_octets(v4));
            r
        }
    }
}

/// The octets of the address that stands for every local address.
pub open spec fn unspecified_octets(v4: bool) -> Seq<u8> {
    Seq::new(
        if v4 {
            4
        } else {
            16
        },
        |i: int| 0u8,
    )
}

/// What two addresses have in common when they are the same.
pub struct SocketAddressView {
    pub ip: Seq<u8>,
    pub port: u16,
    pub flow_info: u32,
    pub scope_id: u32,
}

/// An address that is told by its octets and its port alone.
pub open spec fn plain_address(ip: Seq<u8>, port: u16) -> SocketAddressView {
    SocketAddressView { ip, port, flow_info: 0, scope_id: 0 }
}

/// An IP address and a port. The last two fields are zero for IPv4.
#[derive(Debug, Clone, Copy, PartialEq, Eq)]
pub struct SocketAddress {
    pub ip: IpAddress,
    pub port: u16,
    pub flow_info: u32,
    pub scope_id: u32,
}

impl View for SocketAddress {
    type V = SocketAddressView;

    open spec fn view(&self) -> SocketAddressView {
        SocketAddressView {
            ip: self.ip@,
            port: self.port,
            flow_info: self.flow_info,
            scope_id: self.scope_id,
        }
    }
}

impl SocketAddress {
    /// An address without flow and scope.
    pub fn new(ip: IpAddress, port: u16) -> (r: SocketAddress)
        ensures
            r.ip == ip,
            r@ == plain_address(ip@, port),
    {
        SocketAddress { ip, port, flow_info: 0, scope_id: 0 }
    }

    /// Whether two addresses are the same.
    pub fn same(&self, other: &SocketAddress) -> (r: bool)
        ensures
            r == (self@ == other@),
    {
        same_octets(self.ip.octets(), other.ip.octets()) && self.port == other.port
            && self.flow_info == other.flow_info && self.scope_id == other.scope_id
    }
}

/// Whether two runs of bytes are the same.
pub fn same_octets(a: &[u8], b: &[u8]) -> (r: bool)
    ensures
        r == (a@ == b@),
{
    if a.len() != b.len() {
        return false;
    }
    let n: usize = a.len();
    let mut i: usize = 0;
    while i < n
        invariant
            i <= n,
            n == a@.len(),
            n == b@.len(),
            forall|j: int| 0 <= j < i ==> a@[j] == b@[j],
        decreases n - i,
    {
        if a[i] != b[i] {
            return false;
        }
        i = i + 1;
    }
    assert(a@ =~= b@);
    true
}

/// What a host is: octets or a name.
pub enum HostView {
    Ip(Seq<u8>),
    Domain(Seq<char>),
}

/// A host, by address or by name.
#[derive(Debug, Clone, PartialEq, Eq)]
pub enum Host {
    Ip(IpAddress),
    Domain(String),
}

impl View for Host {
    type V = HostView;

    open spec fn view(&self) -> HostView {
        match self {
            Host::Ip(ip) => HostView::Ip(ip@),
            Host::Domain(d) => HostView::Domain(d@),
        }
    }
}

/// The host that a text stands for: the address that it spells, or else a name.
pub open spec fn host_of(text: Seq<char>, literal: Option<IpAddress>) -> HostView {
    match literal {
        Some(ip) => HostView::Ip(ip@),
        None => HostView::Domain(text),
    }
}

impl Host {
    /// The host that a text stands for. `literal` is the address that the text spells, if it
    /// spells one.
    pub fn of(text: &str, literal: Option<IpAddress>) -> (r: Host)
        ensures
            r@ == host_of(text@, literal),
    {
        match literal {
            Some(ip) => Host::Ip(ip),
            None => Host::Domain(text.to_string()),
        }
    }
}

/// A host as a type byte and an address, with the given type bytes for names and IPv6. Of the
/// length of a name the length byte keeps the low eight bits.
pub open spec fn host_bytes(h: HostView, domain_type: u8, v6_type: u8) -> Seq<u8> {
    match h {
        HostView::Ip(o) => seq![
            if o.len() == 4 {
                TYPE_V4
            } else {
                v6_type
            },
        ] + o,
        HostView::Domain(d) => seq![domain_type, low8(encode_utf8(d).len())] + encode_utf8(d),
    }
}

/// A host that can be written and read back: a name of at most 255 bytes.
pub open spec fn host_fits(h: HostView) -> bool {
    match h {
        HostView::Ip(o) => is_ip(o),
        HostView::Domain(d) => encode_utf8(d).len() <= 255,
    }
}

/// Appends a host.
pub fn push_host(out: &mut Vec<u8>, host: &Host, domain_type: u8, v6_type: u8)
    ensures
        final(out)@ == old(out)@ + host_bytes(host@, domain_type, v6_type),
{
    let ghost start = out@;
    match host {
        Host::Ip(ip) => {
            out.push(
                if ip.is_ipv4() {
                    TYPE_V4
                } else {
                    v6_type
                },
            );
            out.extend_from_slice(ip.octets());
        },
        Host::Domain(d) => {
            let name: &[u8] = d.as_str().as_bytes();
            out.push(domain_type);
            out.push(truncate_u8(name.len()));
            out.extend_from_slice(name);
        },
    }
    assert(out@ =~= start + host_bytes(host@, domain_type, v6_type));
}

/// What the bytes so far say about a host.
pub enum HostReadView {
    /// That many bytes are missing.
    Missing(nat),
    /// The host, and the position behind it.
    Found(HostView, nat),
    UnknownType,
    /// The name is not UTF-8, for the reason given.
    BadDomain(Seq<char>),
}

/// What the bytes so far say about a host.
#[derive(Debug)]
pub enum HostRead {
    /// That many bytes are missing.
    Missing(usize),
    /// The host, and the position behind it.
    Found(Host, usize),
    UnknownType,
    /// The name is not UTF-8, for the reason given.
    BadDomain(String),
}

impl View for HostRead {
    type V = HostReadView;

    open spec fn view(&self) -> HostReadView {
        match self {
            HostRead::Missing(n) => HostReadView::Missing(*n as nat),
            HostRead::Found(h, end) => HostReadView::Found(h@, *end as nat),
            HostRead::UnknownType => HostReadView::UnknownType,
            HostRead::BadDomain(e) => HostReadView::BadDomain(e@),
        }
    }
}

/// How many bytes are missing for a total of `total`.
pub open spec fn missing(s: Seq<u8>, total: int) -> nat {
    if s.len() < total {
        (total - s.len()) as nat
    } else {
        0
    }
}

/// What `s` says about the host whose type byte stands at `i`. `extra` bytes behind the host
/// must be there as well before it counts as found.
pub open spec fn host_at(
    s: Seq<u8>,
    i: int,
    domain_type: u8,
    v6_type: u8,
    extra: int,
) -> HostReadView {
    if s[i] == TYPE_V4 {
        if s.len() < i + 5 + extra {
            HostReadView::Missing(missing(s, i + 5 + extra))
        } else {
            HostReadView::Found(HostView::Ip(s.subrange(i + 1, i + 5)), (i + 5) as nat)
        }
    } else if s[i] == domain_type {
        if s.len() < i + 2 {
            HostReadView::Missing(missing(s, i + 2))
        } else {
            let end = i + 2 + s[i + 1];
            if s.len() < end + extra {
                HostReadView::Missing(missing(s, end + extra))
            } else if valid_utf8(s.subrange(i + 2, end)) {
                HostReadView::Found(
                    HostView::Domain(decode_utf8(s.subrange(i + 2, end))),
                    end as nat,
                )
            } else {
                HostReadView::BadDomain(utf8_error(s.subrange(i + 2, end)))
            }
        }
    } else if s[i] == v6_type {
        if s.len() < i + 17 + extra {
            HostReadView::Missing(missing(s, i + 17 + extra))
        } else {
            HostReadView::Found(HostView::Ip(s.subrange(i + 1, i + 17)), (i + 17) as nat)
        }
    } else {
        HostReadView::UnknownType
    }
}

/// Reads the host whose type byte stands at `i`.
pub fn read_host(s: &[u8], i: usize, domain_type: u8, v6_type: u8, extra: usize) -> (r: HostRead)
    requires
        i < s@.len(),
        extra <= 2,
    ensures
        r@ == host_at(s@, i as int, domain_type, v6_type, extra as int),
{
    let have: usize = s.len() - i;
    let kind: u8 = s[i];
    if kind == TYPE_V4 {
        if have < 5 + extra {
            return HostRead::Missing(5 + extra - have);
        }
        let host = Host::Ip(IpAddress::V4(array4(s, i + 1)));
        HostRead::Found(host, i + 5)
    } else if kind == domain_type {
        if have < 2 {
            return HostRead::Missing(2 - have);
        }
        let len: usize = s[i + 1] as usize;
        if have < 2 + len + extra {
            return HostRead::Missing(2 + len + extra - have);
        }
        let name: &[u8] = slice_subrange(s, i + 2, i + 2 + len);
        assert(name@ =~= s@.subrange(i + 2, i + 2 + len));
        match text_of_utf8(name) {
            Ok(d) => HostRead::Found(Host::Domain(d), i + 2 + len),
            Err(e) => HostRead::BadDomain(e),
        }
    } else if kind == v6_type {
        if have < 17 + extra {
            return HostRead::Missing(17 + extra - have);
        }
        let host = Host::Ip(IpAddress::V6(array16(s, i + 1)));
        HostRead::Found(host, i + 17)
    } else {
        HostRead::UnknownType
    }
}

/// Whether the type bytes of a protocol tell its three kinds of hosts apart.
pub open spec fn distinct_types(domain_type: u8, v6_type: u8) -> bool {
    domain_type != TYPE_V4 && v6_type != TYPE_V4 && domain_type != v6_type
}

/// A host that was written behind `front` is read back from there. From any cut of the bytes
/// the reader asks for more, and for no more than was written.
pub proof fn lemma_host_read(
    front: Seq<u8>,
    h: HostView,
    back: Seq<u8>,
    domain_type: u8,
    v6_type: u8,
    extra: int,
    cut: int,
)
    requires
        host_fits(h),
        distinct_types(domain_type, v6_type),
        0 <= extra <= back.len(),
        front.len() < cut <= (front + host_bytes(h, domain_type, v6_type) + back).len(),
    ensures
        ({
            let whole = front + host_bytes(h, domain_type, v6_type) + back;
            let end = front.len() + host_bytes(h, domain_type, v6_type).len();
            let r = host_at(whole.take(cut), front.len() as int, domain_type, v6_type, extra);
            if cut < end + extra {
                r matches HostReadView::Missing(k) && 0 < k && cut + k <= end + extra
            } else {
                r == HostReadView::Found(h, end)
            }
        }),
{
    let body = host_bytes(h, domain_type, v6_type);
    let whole = front + body + back;
    let s = whole.take(cut);
    let i = front.len() as int;
    assert(s[i] == body[0]);
    match h {
        HostView::Ip(o) => {
            if cut >= i + body.len() {
                assert(s.subrange(i + 1, i + body.len()) =~= o);
            }
        },
        HostView::Domain(d) => {
            let a = encode_utf8(d);
            if cut >= i + 2 {
                assert(s[i + 1] == body[1]);
                assert(body[1] == a.len());
                if cut >= i + 2 + a.len() {
                    assert(s.subrange(i + 2, i + 2 + a.len()) =~= a);
                    encode_utf8_valid_utf8(d);
                    encode_utf8_decode_utf8(d);
                }
            }
        },
    }
}

/// A host lies on the wire as a type byte and an address: four octets behind a one, sixteen
/// behind the type of IPv6, a name behind its type and its length.
pub proof fn law_host_layout(h: HostView, domain_type: u8, v6_type: u8)
    requires
        host_fits(h),
    ensures
        match h {
            HostView::Ip(o) => {
                let b = host_bytes(h, domain_type, v6_type);
                &&& b.len() == 1 + o.len()
                &&& b[0] == if o.len() == 4 {
                    1u8
                } else {
                    v6_type
                }
                &&& b.skip(1) == o
            },
            HostView::Domain(d) => {
                let b = host_bytes(h, domain_type, v6_type);
                &&& b.len() == 2 + encode_utf8(d).len()
                &&& b[0] == domain_type
                &&& b[1] == encode_utf8(d).len()
                &&& b.skip(2) == encode_utf8(d)
            },
        },
{
    let b = host_bytes(h, domain_type, v6_type);
    match h {
        HostView::Ip(o) => {
            assert(b.skip(1) =~= o);
        },
        HostView::Domain(d) => {
            assert(b.skip(2) =~= encode_utf8(d));
        },
    }
}

/// What bytes say about a host follows from their type byte: an address of four or sixteen
/// octets, a name of the length that is given if it is UTF-8, and nothing for other types.
/// What is not all there is asked for, as far as its length is known.
pub proof fn law_host_by_its_type(s: Seq<u8>, i: int, domain_type: u8, v6_type: u8, extra: int)
    requires
        0 <= i < s.len(),
        0 <= extra,
        distinct_types(domain_type, v6_type),
    ensures
        ({
            let r = host_at(s, i, domain_type, v6_type, extra);
            &&& s[i] == 1 ==> r == if s.len() < i + 5 + extra {
                HostReadView::Missing((i + 5 + extra - s.len()) as nat)
            } else {
                HostReadView::Found(HostView::Ip(s.subrange(i + 1, i + 5)), (i + 5) as nat)
            }
            &&& s[i] == v6_type ==> r == if s.len() < i + 17 + extra {
                HostReadView::Missing((i + 17 + extra - s.len()) as nat)
            } else {
                HostReadView::Found(HostView::Ip(s.subrange(i + 1, i + 17)), (i + 17) as nat)
            }
            &&& s[i] == domain_type && s.len() == i + 1 ==> r == HostReadView::Missing(1)
            &&& s[i] == domain_type && s.len() > i + 1 ==> {
                let end = i + 2 + s[i + 1];
                let name = s.subrange(i + 2, end);
                if s.len() < end + extra {
                    r == HostReadView::Missing((end + extra - s.len()) as nat)
                } else if valid_utf8(name) {
                    r == HostReadView::Found(HostView::Domain(decode_utf8(name)), end as nat)
                } else {
                    r == HostReadView::BadDomain(utf8_error(name))
                }
            }
            &&& s[i] != 1 && s[i] != domain_type && s[i] != v6_type ==> r
                == HostReadView::UnknownType
        }),
{
}

/// A text stands for the address that it spells, and else for a name.
pub proof fn law_text_is_address_or_name(text: Seq<char>, ip: IpAddress)
    ensures
        host_of(text, Some(ip)) == HostView::Ip(ip@),
        host_of(text, None) == HostView::Domain(text),
{
}

/// Addresses are the same exactly if their octets, their ports, their flows and their scopes
/// are; addresses of the two families are never the same. A host is an address or a name.
pub proof fn law_addresses_by_their_parts(
    a: SocketAddress,
    b: SocketAddress,
    v4: [u8; 4],
    v6: [u8; 16],
    d: String,
)
    ensures
        a@ == b@ <==> a.ip@ == b.ip@ && a.port == b.port && a.flow_info == b.flow_info
            && a.scope_id == b.scope_id,
        IpAddress::V4(v4)@ == v4@ && IpAddress::V6(v6)@ == v6@,
        IpAddress::V4(v4)@.len() == 4 && IpAddress::V6(v6)@.len() == 16,
        Host::Ip(a.ip)@ == HostView::Ip(a.ip@),
        Host::Domain(d)@ == HostView::Domain(d@),
        a@.ip == a.ip@ && a@.port == a.port,
{
}

/// The address that stands for every local one is all zeros, four of them or sixteen.
pub proof fn law_unspecified_is_zeros(v4: bool, i: int)
    ensures
        unspecified_octets(true).len() == 4 && unspecified_octets(false).len() == 16,
        0 <= i < unspecified_octets(v4).len() ==> unspecified_octets(v4)[i] == 0,
{
}

/// What is said about a host is what was found.
pub proof fn law_host_is_told_as_found(n: usize, host: Host, end: usize, e: String)
    ensures
        HostRead::Missing(n)@ == HostReadView::Missing(n as nat),
        HostRead::Found(host, end)@ == HostReadView::Found(host@, end as nat),
        HostRead::UnknownType@ == HostReadView::UnknownType,
        HostRead::BadDomain(e)@ == HostReadView::BadDomain(e@),
{
}

/// Every name of up to 255 bytes and every address can be written and read back.
pub proof fn law_hosts_that_fit(o: Seq<u8>, d: Seq<char>)
    ensures
        host_fits(HostView::Ip(o)) <==> o.len() == 4 || o.len() == 16,
        host_fits(HostView::Domain(d)) <==> encode_utf8(d).len() <= 255,
        distinct_types(3, 4) && distinct_types(2, 3),
{
}

} // verus!
