//! Reaching a destination through a SOCKS5 proxy, step by step.

use crate::net::{
    host_bytes, host_fits, missing, plain_address, push_host, Host, HostView, IpAddress,
    SocketAddress, SocketAddressView, SOCKS_DOMAIN, SOCKS_V6, TYPE_V4,
};
use crate::text::{characters, first_index, is_first_index, lemma_has_index, lemma_no_index};
use crate::wire::{array16, array4, be16, high_byte, low_byte, read_u16, u16_at};
use vstd::prelude::*;
use vstd::string::*;
use vstd::utf8::*;

verus! {

/// How often a connection to a proxy is tried.
pub const DIAL_ATTEMPTS: u8 = 3;

/// The pause between two attempts, in milliseconds.
pub const DIAL_PAUSE: u64 = 200;

/// The address of a proxy: with port 1080 where none is given.
pub open spec fn proxy_address_of(text: Seq<char>) -> Seq<char> {
    if first_index(text, ':') is Some {
        text
    } else {
        text + ":1080"@
    }
}

/// The address of a proxy.
pub fn proxy_address(text: &str) -> (r: String)
    ensures
        r@ == proxy_address_of(text@),
{
    let v: Vec<char> = characters(text);
    let mut i: usize = 0;
    while i < v.len()
        invariant
            i <= v@.len(),
            v@ == text@,
            forall|j: int| 0 <= j < i ==> v@[j] != ':',
        decreases v@.len() - i,
    {
        if v[i] == ':' {
            assert(is_first_index(text@, ':', i as int));
            return text.to_string();
        }
        i = i + 1;
    }
    proof {
        lemma_no_index(text@, ':');
    }
    let mut out: String = text.to_string();
    out.append(":1080");
    out
}

/// What a proxy is asked for.
#[derive(Debug)]
pub enum Purpose {
    /// A connection to a destination.
    Connect(Host, u16),
    /// A relay for datagrams.
    Associate,
}

/// What a proxy is asked for.
pub enum PurposeView {
    Connect(HostView, u16),
    Associate,
}

impl View for Purpose {
    type V = PurposeView;

    open spec fn view(&self) -> PurposeView {
        match self {
            Purpose::Connect(h, p) => PurposeView::Connect(h@, *p),
            Purpose::Associate => PurposeView::Associate,
        }
    }
}

/// Why a proxy could not be used.
#[derive(Debug, Clone, Copy, PartialEq, Eq)]
pub enum DialError {
    /// It could not be reached; the last attempt says why.
    Unreachable,
    /// It wants to know who is asking.
    AuthFailed,
    /// It did not do what it was asked for.
    Rejected,
    /// Its answer names an address in a way that is not known.
    InvalidAddress,
}

impl DialError {
    /// The error in words, by what the proxy was asked for. What cannot be reached is told by
    /// the attempt that failed.
    pub fn message(&self, associate: bool) -> (r: &'static str)
        ensures
            r@ == match self {
                DialError::Unreachable => ""@,
                DialError::AuthFailed => if associate {
                    "SOCKS5 auth failed for UDP associate"@
                } else {
                    "SOCKS5 auth failed"@
                },
                DialError::Rejected => if associate {
                    "SOCKS5 UDP associate request failed"@
                } else {
                    "SOCKS5 connect failed"@
                },
                DialError::InvalidAddress => if associate {
                    "Unsupported address type in UDP associate reply"@
                } else {
                    "Invalid SOCKS5 address type"@
                },
            },
    {
        match self {
            DialError::Unreachable => "",
            DialError::AuthFailed => if associate {
                "SOCKS5 auth failed for UDP associate"
            } else {
                "SOCKS5 auth failed"
            },
            DialError::Rejected => if associate {
                "SOCKS5 UDP associate request failed"
            } else {
                "SOCKS5 connect failed"
            },
            DialError::InvalidAddress => if associate {
                "Unsupported address type in UDP associate reply"
            } else {
                "Invalid SOCKS5 address type"
            },
        }
    }
}

/// The greeting of a client that offers no authentication.
pub open spec fn greeting() -> Seq<u8> {
    seq![5u8, 1u8, 0u8]
}

/// The request of a client.
pub open spec fn request_bytes(p: PurposeView) -> Seq<u8> {
    match p {
        PurposeView::Connect(host, port) => seq![5u8, 1u8, 0u8] + host_bytes(
            host,
            SOCKS_DOMAIN,
            SOCKS_V6,
        ) + be16(port),
        PurposeView::Associate => seq![5u8, 3u8, 0u8, 1u8, 0u8, 0u8, 0u8, 0u8, 0u8, 0u8],
    }
}

/// What the reply of a proxy says so far.
pub enum ReplyView {
    /// That many bytes are missing.
    Missing(nat),
    Failed(DialError),
    /// It accepts. The relay is given only where one was asked for.
    Accepted(Option<SocketAddressView>),
}

/// How long a reply is, as far as its first bytes tell. A connection may be confirmed with a
/// name, a relay only with an address.
pub open spec fn reply_length(s: Seq<u8>, associate: bool) -> Option<nat> {
    if s[3] == TYPE_V4 {
        Some(10)
    } else if s[3] == SOCKS_V6 {
        Some(22)
    } else if s[3] == SOCKS_DOMAIN && !associate {
        if s.len() < 5 {
            Some(5)
        } else {
            Some((7 + s[4]) as nat)
        }
    } else {
        None
    }
}

/// What the reply of a proxy says so far.
pub open spec fn reply_step(s: Seq<u8>, associate: bool) -> ReplyView {
    if s.len() < 4 {
        ReplyView::Missing(missing(s, 4))
    } else if s[0] != 5 || s[1] != 0 {
        ReplyView::Failed(DialError::Rejected)
    } else {
        match reply_length(s, associate) {
            None => ReplyView::Failed(DialError::InvalidAddress),
            Some(n) => if s.len() < n {
                ReplyView::Missing(missing(s, n as int))
            } else if associate {
                ReplyView::Accepted(
                    Some(plain_address(s.subrange(4, n - 2), u16_at(s, n - 2))),
                )
            } else {
                ReplyView::Accepted(None)
            },
        }
    }
}

/// What the reply of a proxy says so far.
#[derive(Debug)]
pub enum Reply {
    /// That many bytes are missing.
    Missing(usize),
    Failed(DialError),
    /// It accepts. The relay is given only where one was asked for.
    Accepted(Option<SocketAddress>),
}

impl View for Reply {
    type V = ReplyView;

    open spec fn view(&self) -> ReplyView {
        match self {
            Reply::Missing(n) => ReplyView::Missing(*n as nat),
            Reply::Failed(e) => ReplyView::Failed(*e),
            Reply::Accepted(None) => ReplyView::Accepted(None),
            Reply::Accepted(Some(a)) => ReplyView::Accepted(Some(a@)),
        }
    }
}

/// Reads the reply of a proxy as far as it is there.
pub fn read_reply(s: &[u8], associate: bool) -> (r: Reply)
    ensures
        r@ == reply_step(s@, associate),
{
    let n: usize = s.len();
    if n < 4 {
        return Reply::Missing(4 - n);
    }
    if s[0] != 5 || s[1] != 0 {
        return Reply::Failed(DialError::Rejected);
    }
    let kind: u8 = s[3];
    let length: usize = if kind == TYPE_V4 {
        10
    } else if kind == SOCKS_V6 {
        22
    } else if kind == SOCKS_DOMAIN && !associate {
        if n < 5 {
            5
        } else {
            7 + s[4] as usize
        }
    } else {
        return Reply::Failed(DialError::InvalidAddress);
    };
    if n < length {
        return Reply::Missing(length - n);
    }
    if !associate {
        return Reply::Accepted(None);
    }
    let ip = if kind == TYPE_V4 {
        IpAddress::V4(array4(s, 4))
    } else {
        IpAddress::V6(array16(s, 4))
    };
    Reply::Accepted(Some(SocketAddress::new(ip, read_u16(s, length - 2))))
}

/// How far the dialogue with a proxy has come.
#[derive(Debug, Clone, Copy, PartialEq, Eq)]
pub enum DialStage {
    /// About to connect, for the time given.
    Connect(u8),
    /// About to wait before the next attempt; the last one was the one given.
    Wait(u8),
    /// About to greet.
    Greet,
    /// Waiting for the answer to the greeting.
    Method,
    /// About to ask.
    Ask,
    /// Waiting for the answer.
    Answer,
    /// The proxy has accepted.
    Ready,
    Failed(DialError),
}

/// What the dialogue with a proxy is.
#[verifier::ext_equal]
pub struct DialView {
    pub purpose: PurposeView,
    pub stage: DialStage,
    /// What the proxy has said since it was last spoken to.
    pub heard: Seq<u8>,
}

/// The dialogue with a proxy.
#[derive(Debug)]
pub struct Dial {
    purpose: Purpose,
    stage: DialStage,
    heard: Vec<u8>,
}

impl View for Dial {
    type V = DialView;

    closed spec fn view(&self) -> DialView {
        DialView { purpose: self.purpose@, stage: self.stage, heard: self.heard@ }
    }
}

/// What is to be done outside.
#[derive(Debug)]
pub enum DialAction {
    /// Connect to the proxy.
    Connect,
    /// Sleep for that many milliseconds.
    Sleep(u64),
    /// Send these bytes.
    Send(Vec<u8>),
    /// Read exactly that many bytes.
    Read(usize),
    /// Use the connection. The relay is given where one was asked for.
    Use(Option<SocketAddress>),
    /// Give up.
    GiveUp(DialError),
}

/// What is to be done outside.
pub enum DialActionView {
    Connect,
    Sleep(u64),
    Send(Seq<u8>),
    Read(nat),
    Use(Option<SocketAddressView>),
    GiveUp(DialError),
}

impl View for DialAction {
    type V = DialActionView;

    open spec fn view(&self) -> DialActionView {
        match self {
            DialAction::Connect => DialActionView::Connect,
            DialAction::Sleep(n) => DialActionView::Sleep(*n),
            DialAction::Send(b) => DialActionView::Send(b@),
            DialAction::Read(n) => DialActionView::Read(*n as nat),
            DialAction::Use(None) => DialActionView::Use(None),
            DialAction::Use(Some(a)) => DialActionView::Use(Some(a@)),
            DialAction::GiveUp(e) => DialActionView::GiveUp(*e),
        }
    }
}

/// What came of it.
#[derive(Debug)]
pub enum DialEvent {
    /// The connection stands, the sleep is over, or the bytes are sent.
    Done,
    /// The attempt to connect failed.
    ConnectFailed,
    /// These bytes were read.
    Heard(Vec<u8>),
}

/// What came of it.
pub enum DialEventView {
    Done,
    ConnectFailed,
    Heard(Seq<u8>),
}

impl View for DialEvent {
    type V = DialEventView;

    open spec fn view(&self) -> DialEventView {
        match self {
            DialEvent::Done => DialEventView::Done,
            DialEvent::ConnectFailed => DialEventView::ConnectFailed,
            DialEvent::Heard(b) => DialEventView::Heard(b@),
        }
    }
}

/// The beginning of a dialogue.
pub open spec fn dial_start(purpose: PurposeView) -> DialView {
    DialView { purpose, stage: DialStage::Connect(1), heard: Seq::empty() }
}

/// The relay that a reply names, where one was asked for.
pub open spec fn relay_of(d: DialView) -> Option<SocketAddressView> {
    match reply_step(d.heard, d.purpose is Associate) {
        ReplyView::Accepted(a) => a,
        _ => None,
    }
}

/// What is to be done next.
pub open spec fn dial_action(d: DialView) -> DialActionView {
    match d.stage {
        DialStage::Connect(_) => DialActionView::Connect,
        DialStage::Wait(_) => DialActionView::Sleep(DIAL_PAUSE),
        DialStage::Greet => DialActionView::Send(greeting()),
        DialStage::Method => DialActionView::Read(missing(d.heard, 2)),
        DialStage::Ask => DialActionView::Send(request_bytes(d.purpose)),
        DialStage::Answer => match reply_step(d.heard, d.purpose is Associate) {
            ReplyView::Missing(n) => DialActionView::Read(n),
            _ => DialActionView::Read(0),
        },
        DialStage::Ready => DialActionView::Use(relay_of(d)),
        DialStage::Failed(e) => DialActionView::GiveUp(e),
    }
}

/// The dialogue after the proxy has said more.
pub open spec fn dial_heard(d: DialView) -> DialView {
    match d.stage {
        DialStage::Method => if d.heard.len() < 2 {
            d
        } else if d.heard[0] != 5 || d.heard[1] != 0 {
            DialView { stage: DialStage::Failed(DialError::AuthFailed), ..d }
        } else {
            DialView { stage: DialStage::Ask, heard: Seq::empty(), ..d }
        },
        DialStage::Answer => match reply_step(d.heard, d.purpose is Associate) {
            ReplyView::Missing(_) => d,
            ReplyView::Failed(e) => DialView { stage: DialStage::Failed(e), ..d },
            ReplyView::Accepted(_) => DialView { stage: DialStage::Ready, ..d },
        },
        _ => d,
    }
}

/// The dialogue after an event. Events that answer nothing change nothing.
pub open spec fn dial_step(d: DialView, e: DialEventView) -> DialView {
    match (d.stage, e) {
        (DialStage::Connect(_), DialEventView::Done) => DialView { stage: DialStage::Greet, ..d },
        (DialStage::Connect(n), DialEventView::ConnectFailed) => DialView {
            stage: if n < DIAL_ATTEMPTS {
                DialStage::Wait(n)
            } else {
                DialStage::Failed(DialError::Unreachable)
            },
            ..d
        },
        (DialStage::Wait(n), DialEventView::Done) => DialView {
            stage: DialStage::Connect(
                if n < DIAL_ATTEMPTS {
                    (n + 1) as u8
                } else {
                    n
                },
            ),
            ..d
        },
        (DialStage::Greet, DialEventView::Done) => DialView { stage: DialStage::Method, ..d },
        (DialStage::Ask, DialEventView::Done) => DialView { stage: DialStage::Answer, ..d },
        (DialStage::Method, DialEventView::Heard(b)) => dial_heard(
            DialView { heard: d.heard + b, ..d },
        ),
        (DialStage::Answer, DialEventView::Heard(b)) => dial_heard(
            DialView { heard: d.heard + b, ..d },
        ),
        _ => d,
    }
}

/// The dialogue after a run of events.
pub open spec fn dial_run(d: DialView, events: Seq<DialEventView>) -> DialView
    decreases events.len(),
{
    if events.len() == 0 {
        d
    } else {
        dial_step(dial_run(d, events.drop_last()), events.last())
    }
}

/// A proxy that cannot be reached is given up after the last attempt, not before: three
/// failures and two pauses lead to the end, and each step before asks for the next attempt.
pub proof fn law_dial_gives_up_after_three(purpose: PurposeView)
    ensures
        ({
            let fail = DialEventView::ConnectFailed;
            let wake = DialEventView::Done;
            let d = dial_start(purpose);
            &&& dial_action(dial_run(d, seq![fail])) == DialActionView::Sleep(DIAL_PAUSE)
            &&& dial_action(dial_run(d, seq![fail, wake])) == DialActionView::Connect
            &&& dial_action(dial_run(d, seq![fail, wake, fail])) == DialActionView::Sleep(
                DIAL_PAUSE,
            )
            &&& dial_action(dial_run(d, seq![fail, wake, fail, wake])) == DialActionView::Connect
            &&& dial_action(dial_run(d, seq![fail, wake, fail, wake, fail]))
                == DialActionView::GiveUp(DialError::Unreachable)
        }),
{
    let fail = DialEventView::ConnectFailed;
    let wake = DialEventView::Done;
    let d = dial_start(purpose);
    reveal_with_fuel(dial_run, 6);
    assert(seq![fail].drop_last() =~= Seq::empty());
    assert(seq![fail, wake].drop_last() =~= seq![fail]);
    assert(seq![fail, wake, fail].drop_last() =~= seq![fail, wake]);
    assert(seq![fail, wake, fail, wake].drop_last() =~= seq![fail, wake, fail]);
    assert(seq![fail, wake, fail, wake, fail].drop_last() =~= seq![fail, wake, fail, wake]);
}

/// A proxy that accepts is asked for what was wanted: after the greeting and the answer to it,
/// the request is sent.
pub proof fn law_dial_asks(d: DialView)
    requires
        d.stage == DialStage::Greet,
        d.heard.len() == 0,
    ensures
        dial_action(d) == DialActionView::Send(greeting()),
        ({
            let asked = dial_step(
                dial_step(d, DialEventView::Done),
                DialEventView::Heard(seq![5u8, 0u8]),
            );
            dial_action(asked) == DialActionView::Send(request_bytes(d.purpose))
        }),
{
    assert(d.heard + seq![5u8, 0u8] =~= seq![5u8, 0u8]);
}

/// The answer may come in any pieces: however the bytes are cut, the dialogue ends up where
/// it does when they come at once.
pub proof fn law_dial_answer_in_pieces(d: DialView, a: Seq<u8>, b: Seq<u8>)
    requires
        d.stage == DialStage::Answer,
        dial_step(d, DialEventView::Heard(a)).stage == DialStage::Answer,
    ensures
        dial_step(dial_step(d, DialEventView::Heard(a)), DialEventView::Heard(b)) == dial_step(
            d,
            DialEventView::Heard(a + b),
        ),
{
    assert(d.heard + a + b =~= d.heard + (a + b));
}

impl Dial {
    /// The beginning of a dialogue.
    pub fn new(purpose: Purpose) -> (r: Dial)
        ensures
            r@ == dial_start(purpose@),
    {
        Dial { purpose, stage: DialStage::Connect(1), heard: Vec::new() }
    }

    /// Whether a relay is asked for.
    fn associate(&self) -> (r: bool)
        ensures
            r == self@.purpose is Associate,
    {
        match self.purpose {
            Purpose::Associate => true,
            Purpose::Connect(_, _) => false,
        }
    }

    /// What is to be done next.
    pub fn action(&self) -> (r: DialAction)
        ensures
            r@ == dial_action(self@),
    {
        match self.stage {
            DialStage::Connect(_) => DialAction::Connect,
            DialStage::Wait(_) => DialAction::Sleep(DIAL_PAUSE),
            DialStage::Greet => {
                let mut out: Vec<u8> = Vec::new();
                out.push(5);
                out.push(1);
                out.push(0);
                assert(out@ =~= greeting());
                DialAction::Send(out)
            },
            DialStage::Method => {
                let n: usize = self.heard.len();
                DialAction::Read(
                    if n < 2 {
                        2 - n
                    } else {
                        0
                    },
                )
            },
            DialStage::Ask => DialAction::Send(self.request()),
            DialStage::Answer => match read_reply(self.heard.as_slice(), self.associate()) {
                Reply::Missing(n) => DialAction::Read(n),
                _ => DialAction::Read(0),
            },
            DialStage::Ready => match read_reply(self.heard.as_slice(), self.associate()) {
                Reply::Accepted(a) => DialAction::Use(a),
                _ => DialAction::Use(None),
            },
            DialStage::Failed(e) => DialAction::GiveUp(e),
        }
    }

    /// The request.
    fn request(&self) -> (r: Vec<u8>)
        ensures
            r@ == request_bytes(self@.purpose),
    {
        let mut out: Vec<u8> = Vec::new();
        out.push(5);
        match &self.purpose {
            Purpose::Connect(host, port) => {
                out.push(1);
                out.push(0);
                push_host(&mut out, host, SOCKS_DOMAIN, SOCKS_V6);
                out.push(high_byte(*port));
                out.push(low_byte(*port));
            },
            Purpose::Associate => {
                out.push(3);
                out.push(0);
                out.push(1);
                out.push(0);
                out.push(0);
                out.push(0);
                out.push(0);
                out.push(0);
                out.push(0);
            },
        }
        assert(out@ =~= request_bytes(self@.purpose));
        out
    }

    /// Takes note of what came of it.
    pub fn advance(&mut self, event: DialEvent)
        ensures
            final(self)@ == dial_step(old(self)@, event@),
    {
        match (self.stage, event) {
            (DialStage::Connect(_), DialEvent::Done) => {
                self.stage = DialStage::Greet;
            },
            (DialStage::Connect(n), DialEvent::ConnectFailed) => {
                self.stage = if n < DIAL_ATTEMPTS {
                    DialStage::Wait(n)
                } else {
                    DialStage::Failed(DialError::Unreachable)
                };
            },
            (DialStage::Wait(n), DialEvent::Done) => {
                self.stage = DialStage::Connect(
                    if n < DIAL_ATTEMPTS {
                        n + 1
                    } else {
                        n
                    },
                );
            },
            (DialStage::Greet, DialEvent::Done) => {
                self.stage = DialStage::Method;
            },
            (DialStage::Ask, DialEvent::Done) => {
                self.stage = DialStage::Answer;
            },
            (DialStage::Method, DialEvent::Heard(b)) => {
                self.heard.extend_from_slice(b.as_slice());
                self.hear();
            },
            (DialStage::Answer, DialEvent::Heard(b)) => {
                self.heard.extend_from_slice(b.as_slice());
                self.hear();
            },
            _ => {},
        }
    }

    /// Looks at what the proxy has said.
    fn hear(&mut self)
        requires
            old(self)@.stage is Method || old(self)@.stage is Answer,
        ensures
            final(self)@ == dial_heard(old(self)@),
    {
        match self.stage {
            DialStage::Method => {
                if self.heard.len() >= 2 {
                    if self.heard[0] != 5 || self.heard[1] != 0 {
                        self.stage = DialStage::Failed(DialError::AuthFailed);
                    } else {
                        self.stage = DialStage::Ask;
                        self.heard = Vec::new();
                    }
                }
            },
            _ => match read_reply(self.heard.as_slice(), self.associate()) {
                Reply::Missing(_) => {},
                Reply::Failed(e) => {
                    self.stage = DialStage::Failed(e);
                },
                Reply::Accepted(_) => {
                    self.stage = DialStage::Ready;
                },
            },
        }
    }
}

/// A proxy that is reached is greeted, in whichever attempt that is; the greeting offers no
/// authentication.
pub proof fn law_proxy_is_greeted(d: DialView, n: u8)
    requires
        d.stage == DialStage::Connect(n),
    ensures
        dial_action(d) == DialActionView::Connect,
        dial_action(dial_step(d, DialEventView::Done)) == DialActionView::Send(
            seq![5u8, 1u8, 0u8],
        ),
{
}

/// A proxy that cannot be reached is tried three times, with a pause of a fifth of a second
/// between two attempts.
pub proof fn law_three_attempts(d: DialView, n: u8)
    requires
        d.stage == DialStage::Connect(n) || d.stage == DialStage::Wait(n),
        1 <= n <= 3,
    ensures
        ({
            let failed = dial_step(d, DialEventView::ConnectFailed);
            let slept = dial_step(d, DialEventView::Done);
            &&& d.stage is Connect && n < 3 ==> dial_action(failed) == DialActionView::Sleep(200)
                && failed.stage == DialStage::Wait(n)
            &&& d.stage is Connect && n == 3 ==> dial_action(failed) == DialActionView::GiveUp(
                DialError::Unreachable,
            )
            &&& d.stage is Wait && n < 3 ==> slept.stage == DialStage::Connect((n + 1) as u8)
                && dial_action(slept) == DialActionView::Connect
        }),
{
}

/// The answer to the greeting decides: version five without authentication leads to the
/// request, anything else to the end. What is not all there is asked for.
pub proof fn law_method_decides(d: DialView, b: Seq<u8>)
    requires
        d.stage == DialStage::Method,
    ensures
        ({
            let all = d.heard + b;
            let next = dial_action(dial_step(d, DialEventView::Heard(b)));
            if all.len() < 2 {
                next == DialActionView::Read((2 - all.len()) as nat)
            } else if all[0] == 5 && all[1] == 0 {
                next == DialActionView::Send(request_bytes(d.purpose))
            } else {
                next == DialActionView::GiveUp(DialError::AuthFailed)
            }
        }),
{
}

/// The answer to the request decides: as soon as its first four bytes are there, another
/// version or code than success leads to the end; an answer that is not all there is asked for;
/// one that is leads to the use of the connection, with the relay that it names where one was
/// asked for.
pub proof fn law_answer_decides(d: DialView, b: Seq<u8>)
    requires
        d.stage == DialStage::Answer,
    ensures
        ({
            let s = d.heard + b;
            let associate = d.purpose is Associate;
            let next = dial_action(dial_step(d, DialEventView::Heard(b)));
            let length = if s[3] == 1 {
                10
            } else if s[3] == 4 {
                22
            } else if s.len() < 5 {
                5
            } else {
                7 + s[4]
            };
            if s.len() < 4 {
                next == DialActionView::Read((4 - s.len()) as nat)
            } else if s[0] != 5 || s[1] != 0 {
                next == DialActionView::GiveUp(DialError::Rejected)
            } else if s[3] != 1 && s[3] != 4 && (associate || s[3] != 3) {
                next == DialActionView::GiveUp(DialError::InvalidAddress)
            } else if s.len() < length {
                next == DialActionView::Read((length - s.len()) as nat)
            } else if !associate {
                next == DialActionView::Use(None)
            } else {
                next == DialActionView::Use(
                    Some(
                        SocketAddressView {
                            ip: s.subrange(4, length - 2),
                            port: (s[length - 2] * 256 + s[length - 1]) as u16,
                            flow_info: 0,
                            scope_id: 0,
                        },
                    ),
                )
            }
        }),
{
}

/// The request says what is wanted: a connection to a host and a port, or a relay.
pub proof fn law_request_layout(host: HostView, port: u16)
    requires
        host_fits(host),
    ensures
        ({
            let s = request_bytes(PurposeView::Connect(host, port));
            let n = s.len();
            &&& s[0] == 5 && s[1] == 1 && s[2] == 0
            &&& s[n - 2] * 256 + s[n - 1] == port
            &&& match host {
                HostView::Ip(o) => s[3] == (if o.len() == 4 {
                    1u8
                } else {
                    4u8
                }) && s.subrange(4, n - 2) == o,
                HostView::Domain(d) => s[3] == 3 && s[4] == encode_utf8(d).len() && s.subrange(
                    5,
                    n - 2,
                ) == encode_utf8(d),
            }
        }),
        request_bytes(PurposeView::Associate) == seq![5u8, 3, 0, 1, 0, 0, 0, 0, 0, 0],
{
    let s = request_bytes(PurposeView::Connect(host, port));
    let n = s.len();
    let h = host_bytes(host, SOCKS_DOMAIN, SOCKS_V6);
    assert(s[n - 2] == be16(port)[0] && s[n - 1] == be16(port)[1]);
    assert(s[3] == h[0]);
    match host {
        HostView::Ip(o) => {
            assert(s.subrange(4, n - 2) =~= o);
        },
        HostView::Domain(d) => {
            assert(s[4] == h[1]);
            assert(s.subrange(5, n - 2) =~= encode_utf8(d));
        },
    }
}

/// A proxy without a port is reached at 1080; one with a port is reached there.
pub proof fn law_proxy_port(text: Seq<char>)
    ensures
        (exists|i: int| 0 <= i < text.len() && #[trigger] text[i] == ':') ==> proxy_address_of(text)
            == text,
        (forall|i: int| 0 <= i < text.len() ==> #[trigger] text[i] != ':') ==> proxy_address_of(
            text,
        ) == text + ":1080"@,
{
    if exists|i: int| 0 <= i < text.len() && #[trigger] text[i] == ':' {
        let i = choose|i: int| 0 <= i < text.len() && #[trigger] text[i] == ':';
        lemma_has_index(text, ':', i);
    } else {
        lemma_no_index(text, ':');
    }
}

/// After the proxy has been spoken to, its answer is waited for: two bytes to the greeting, and
/// first four to the request.
pub proof fn law_answers_are_waited_for(d: DialView)
    requires
        d.heard.len() == 0,
    ensures
        d.stage == DialStage::Greet ==> dial_action(dial_step(d, DialEventView::Done))
            == DialActionView::Read(2),
        d.stage == DialStage::Ask ==> dial_action(d) == DialActionView::Send(
            request_bytes(d.purpose),
        ) && dial_action(dial_step(d, DialEventView::Done)) == DialActionView::Read(4),
        dial_start(d.purpose).stage == DialStage::Connect(1),
{
}

/// What is to be done, what came of it and what a proxy has said are told as they are.
pub proof fn law_dial_is_told(
    n: usize,
    ms: u64,
    b: Vec<u8>,
    a: SocketAddress,
    e: DialError,
    host: Host,
    port: u16,
)
    ensures
        DialAction::Connect@ == DialActionView::Connect,
        DialAction::Sleep(ms)@ == DialActionView::Sleep(ms),
        DialAction::Send(b)@ == DialActionView::Send(b@),
        DialAction::Read(n)@ == DialActionView::Read(n as nat),
        DialAction::Use(None)@ == DialActionView::Use(None),
        DialAction::Use(Some(a))@ == DialActionView::Use(Some(a@)),
        DialAction::GiveUp(e)@ == DialActionView::GiveUp(e),
        DialEvent::Done@ == DialEventView::Done,
        DialEvent::ConnectFailed@ == DialEventView::ConnectFailed,
        DialEvent::Heard(b)@ == DialEventView::Heard(b@),
        Purpose::Connect(host, port)@ == PurposeView::Connect(host@, port),
        Purpose::Associate@ == PurposeView::Associate,
        Reply::Missing(n)@ == ReplyView::Missing(n as nat),
        Reply::Failed(e)@ == ReplyView::Failed(e),
        Reply::Accepted(None)@ == ReplyView::Accepted(None),
        Reply::Accepted(Some(a))@ == ReplyView::Accepted(Some(a@)),
{
}

} // verus!
