//! Reading the header of a VLESS request.

use crate::net::{
    host_at, host_bytes, host_fits, lemma_host_read, missing, read_host, Host, HostRead,
    HostReadView, HostView, VLESS_DOMAIN, VLESS_V6,
};
use crate::outbound::vless_client::{
    vless_header, COMMAND_TCP, COMMAND_UDP, VLESS_VERSION,
};
use crate::state::EngineState;
use crate::text::utf8_error;
use crate::wire::{array16, be16, lemma_u16_between, read_u16, u16_at};
use vstd::prelude::*;
use vstd::string::*;
use vstd::utf8::*;

verus! {

/// Why a request is refused.
#[derive(Debug, PartialEq, Eq)]
pub enum VlessError {
    Version,
    User,
    Command,
    AddressType,
    /// The name of the host is not UTF-8, for the reason given.
    Domain(String),
}

/// Why a request is refused.
pub enum VlessErrorView {
    Version,
    User,
    Command,
    AddressType,
    Domain(Seq<char>),
}

impl View for VlessError {
    type V = VlessErrorView;

    open spec fn view(&self) -> VlessErrorView {
        match self {
            VlessError::Version => VlessErrorView::Version,
            VlessError::User => VlessErrorView::User,
            VlessError::Command => VlessErrorView::Command,
            VlessError::AddressType => VlessErrorView::AddressType,
            VlessError::Domain(e) => VlessErrorView::Domain(e@),
        }
    }
}

impl VlessError {
    /// The error in words.
    pub fn message(&self) -> (r: &str)
        ensures
            r@ == match self {
                VlessError::Version => "Unsupported VLESS version"@,
                VlessError::User => "Invalid client UUID"@,
                VlessError::Command => "Invalid VLESS request command"@,
                VlessError::AddressType => "Invalid VLESS target address type"@,
                VlessError::Domain(e) => e@,
            },
    {
        match self {
            VlessError::Version => "Unsupported VLESS version",
            VlessError::User => "Invalid client UUID",
            VlessError::Command => "Invalid VLESS request command",
            VlessError::AddressType => "Invalid VLESS target address type",
            VlessError::Domain(e) => e.as_str(),
        }
    }
}

/// What a request asks for.
#[verifier::ext_equal]
pub struct VlessRequestView {
    pub host: HostView,
    pub port: u16,
    pub user: Seq<u8>,
    pub command: u8,
}

/// What a request asks for.
#[derive(Debug)]
pub struct VlessRequest {
    pub host: Host,
    pub port: u16,
    pub user: [u8; 16],
    pub command: u8,
}

impl View for VlessRequest {
    type V = VlessRequestView;

    open spec fn view(&self) -> VlessRequestView {
        VlessRequestView {
            host: self.host@,
            port: self.port,
            user: self.user@,
            command: self.command,
        }
    }
}

/// What the bytes so far say.
pub enum HeaderView {
    /// That many bytes are missing.
    Missing(nat),
    Refused(VlessErrorView),
    Accepted(VlessRequestView),
}

/// What the bytes so far say.
#[derive(Debug)]
pub enum Header {
    /// That many bytes are missing.
    Missing(usize),
    Refused(VlessError),
    Accepted(VlessRequest),
}

impl View for Header {
    type V = HeaderView;

    open spec fn view(&self) -> HeaderView {
        match self {
            Header::Missing(n) => HeaderView::Missing(*n as nat),
            Header::Refused(e) => HeaderView::Refused(e@),
            Header::Accepted(q) => HeaderView::Accepted(q@),
        }
    }
}

/// What `s` says, given who may use the engine: version, user, addons, command, port, host.
/// The user is looked at before anything that follows is waited for.
pub open spec fn header_of(s: Seq<u8>, users: Set<Seq<u8>>) -> HeaderView {
    if s.len() < 18 {
        HeaderView::Missing(missing(s, 18))
    } else if s[0] != VLESS_VERSION {
        HeaderView::Refused(VlessErrorView::Version)
    } else if !users.contains(s.subrange(1, 17)) {
        HeaderView::Refused(VlessErrorView::User)
    } else {
        let at = 18 + s[17];
        if s.len() < at + 4 {
            HeaderView::Missing(missing(s, at + 4))
        } else if s[at] != COMMAND_TCP && s[at] != COMMAND_UDP {
            HeaderView::Refused(VlessErrorView::Command)
        } else {
            match host_at(s, at + 3, VLESS_DOMAIN, VLESS_V6, 0) {
                HostReadView::Missing(n) => HeaderView::Missing(n),
                HostReadView::UnknownType => HeaderView::Refused(VlessErrorView::AddressType),
                HostReadView::BadDomain(e) => HeaderView::Refused(VlessErrorView::Domain(e)),
                HostReadView::Found(host, _) => HeaderView::Accepted(
                    VlessRequestView {
                        host,
                        port: u16_at(s, at + 1),
                        user: s.subrange(1, 17),
                        command: s[at],
                    },
                ),
            }
        }
    }
}

/// A request of an admitted user is read back as it was written. From any cut of its header
/// the reader asks for more, and for no more than the header: what follows it is left in the
/// stream.
pub proof fn law_request_round_trip(
    user: Seq<u8>,
    command: u8,
    port: u16,
    host: HostView,
    users: Set<Seq<u8>>,
    cut: int,
)
    requires
        user.len() == 16,
        users.contains(user),
        command == COMMAND_TCP || command == COMMAND_UDP,
        host_fits(host),
        0 <= cut <= vless_header(user, command, port, host).len(),
    ensures
        ({
            let whole = vless_header(user, command, port, host);
            let r = header_of(whole.take(cut), users);
            if cut < whole.len() {
                r matches HeaderView::Missing(k) && 0 < k && cut + k <= whole.len()
            } else {
                r == HeaderView::Accepted(VlessRequestView { host, port, user, command })
            }
        }),
{
    let h = host_bytes(host, VLESS_DOMAIN, VLESS_V6);
    let whole = vless_header(user, command, port, host);
    let front = seq![VLESS_VERSION] + user + seq![0u8, command] + be16(port);
    assert(whole =~= front + h);
    let s = whole.take(cut);
    assert(front.len() == 21);
    if cut >= 18 {
        assert(s[0] == VLESS_VERSION);
        assert(s.subrange(1, 17) =~= user);
        assert(s[17] == 0);
        if cut >= 22 {
            assert(s[18] == command);
            let id = seq![VLESS_VERSION] + user + seq![0u8, command];
            assert(whole =~= id + be16(port) + h);
            lemma_u16_between(id, port, h);
            assert(s[19] == whole[19] && s[20] == whole[20]);
            let empty = Seq::<u8>::empty();
            assert(front + h + empty =~= whole);
            lemma_host_read(front, host, empty, VLESS_DOMAIN, VLESS_V6, 0, cut);
        }
    }
}

/// A request of a user that is not admitted is refused as soon as the user is known, whatever
/// else it says.
pub proof fn law_unknown_user_refused(s: Seq<u8>, users: Set<Seq<u8>>)
    requires
        s.len() >= 18,
        s[0] == VLESS_VERSION,
        !users.contains(s.subrange(1, 17)),
    ensures
        header_of(s, users) == HeaderView::Refused(VlessErrorView::User),
{
}

/// Reads the header of a request as far as it is there.
pub fn read_header(s: &[u8], state: &EngineState) -> (r: Header)
    ensures
        r@ == header_of(s@, state@.users),
{
    let n: usize = s.len();
    if n < 18 {
        return Header::Missing(18 - n);
    }
    if s[0] != VLESS_VERSION {
        return Header::Refused(VlessError::Version);
    }
    let user: [u8; 16] = array16(s, 1);
    if !state.is_user_allowed(&user) {
        return Header::Refused(VlessError::User);
    }
    let at: usize = 18 + s[17] as usize;
    if n < at + 4 {
        return Header::Missing(at + 4 - n);
    }
    let command: u8 = s[at];
    if command != COMMAND_TCP && command != COMMAND_UDP {
        return Header::Refused(VlessError::Command);
    }
    let port: u16 = read_u16(s, at + 1);
    match read_host(s, at + 3, VLESS_DOMAIN, VLESS_V6, 0) {
        HostRead::Missing(k) => Header::Missing(k),
        HostRead::UnknownType => Header::Refused(VlessError::AddressType),
        HostRead::BadDomain(e) => Header::Refused(VlessError::Domain(e)),
        HostRead::Found(host, _) => Header::Accepted(VlessRequest { host, port, user, command }),
    }
}

/// The response to a request that is accepted: the version, and no addons.
pub fn accepting_response() -> (r: [u8; 2])
    ensures
        r@ == seq![VLESS_VERSION, 0u8],
{
    let r: [u8; 2] = [VLESS_VERSION, 0];
    assert(r@ =~= seq![VLESS_VERSION, 0u8]);
    r
}

/// A request of an admitted user is read whatever addons it has: they are skipped, and the
/// command, the port and the host behind them count.
pub proof fn law_addons_are_skipped(
    user: Seq<u8>,
    addons: Seq<u8>,
    command: u8,
    port: u16,
    host: HostView,
    users: Set<Seq<u8>>,
)
    requires
        user.len() == 16,
        users.contains(user),
        addons.len() <= 255,
        command == 1 || command == 2,
        host_fits(host),
    ensures
        header_of(
            seq![0u8] + user + seq![addons.len() as u8] + addons + seq![command] + be16(port)
                + host_bytes(host, 2, 3),
            users,
        ) == HeaderView::Accepted(VlessRequestView { host, port, user, command }),
{
    let h = host_bytes(host, 2, 3);
    let id = seq![0u8] + user + seq![addons.len() as u8] + addons + seq![command];
    let front = id + be16(port);
    let s = front + h;
    let at = 18 + addons.len() as int;
    assert(s.subrange(1, 17) =~= user);
    assert(s[0] == 0 && s[17] == addons.len() && s[at] == command);
    assert(s =~= id + be16(port) + h);
    lemma_u16_between(id, port, h);
    let empty = Seq::<u8>::empty();
    assert(front + h + empty =~= s);
    assert(s.take(s.len() as int) =~= s);
    lemma_host_read(front, host, empty, 2, 3, 0, s.len() as int);
}

/// A request is refused for its version, for its user, for its command and for the type of its
/// address, in this order, as soon as these are there; and for a name that is not UTF-8.
pub proof fn law_request_refused(s: Seq<u8>, users: Set<Seq<u8>>)
    ensures
        ({
            let at = 18 + s[17] as int;
            let r = header_of(s, users);
            let known = s.len() >= 18 && s[0] == 0 && users.contains(s.subrange(1, 17));
            let asked = known && s.len() >= at + 4;
            let served = asked && (s[at] == 1 || s[at] == 2);
            &&& s.len() < 18 ==> r == HeaderView::Missing((18 - s.len()) as nat)
            &&& s.len() >= 18 && s[0] != 0 ==> r == HeaderView::Refused(VlessErrorView::Version)
            &&& s.len() >= 18 && s[0] == 0 && !users.contains(s.subrange(1, 17)) ==> r
                == HeaderView::Refused(VlessErrorView::User)
            &&& known && s.len() < at + 4 ==> r == HeaderView::Missing((at + 4 - s.len()) as nat)
            &&& asked && s[at] != 1 && s[at] != 2 ==> r == HeaderView::Refused(
                VlessErrorView::Command,
            )
            &&& served && s[at + 3] != 1 && s[at + 3] != 2 && s[at + 3] != 3 ==> r
                == HeaderView::Refused(VlessErrorView::AddressType)
            &&& served && s[at + 3] == 2 && s.len() >= at + 5 && s.len() >= at + 5 + s[at + 4]
                && !valid_utf8(s.subrange(at + 5, at + 5 + s[at + 4])) ==> r == HeaderView::Refused(
                VlessErrorView::Domain(utf8_error(s.subrange(at + 5, at + 5 + s[at + 4]))),
            )
            &&& r is Accepted ==> served
        }),
{
}

/// What was read of a request is told as it was read, and an error as what it is.
pub proof fn law_header_is_told_as_read(n: usize, e: VlessError, q: VlessRequest, words: String)
    ensures
        Header::Missing(n)@ == HeaderView::Missing(n as nat),
        Header::Refused(e)@ == HeaderView::Refused(e@),
        Header::Accepted(q)@ == HeaderView::Accepted(q@),
        q@.host == q.host@ && q@.port == q.port && q@.user == q.user@ && q@.command == q.command,
        VlessError::Version@ == VlessErrorView::Version,
        VlessError::User@ == VlessErrorView::User,
        VlessError::Command@ == VlessErrorView::Command,
        VlessError::AddressType@ == VlessErrorView::AddressType,
        VlessError::Domain(words)@ == VlessErrorView::Domain(words@),
{
}

} // verus!
