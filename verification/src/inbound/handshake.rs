//! The dialogue with a SOCKS5 client, step by step, up to where its wish is known.

use crate::inbound::socks5::{
    error_reply, greeting_of, law_greeting_decides, law_own_greeting_accepted,
    law_own_replies_understood, law_own_request_read, law_request_decides, method_reply,
    plain_reply, read_greeting, read_request, request_of, success_reply, Greeting, GreetingView,
    Request, RequestView, SocksError, SocksErrorView, SOCKS_CONNECT, SOCKS_VERSION,
};
use crate::net::{host_bytes, host_fits, Host, HostView};
use crate::transport::dial::{
    dial_action, dial_step, greeting, request_bytes, DialActionView, DialEventView, DialStage,
    DialView, PurposeView,
};
use crate::wire::be16;
use vstd::prelude::*;

verus! {

/// How far the dialogue has come.
pub enum HandshakeStageView {
    /// Waiting for the greeting.
    Greeting,
    /// About to answer the greeting.
    Welcome,
    /// Waiting for the request.
    Request,
    /// About to confirm the request for a connection.
    Confirm(HostView, u16),
    /// The client wants a connection.
    Connect(HostView, u16),
    /// The client wants a relay for datagrams.
    Relay(HostView, u16),
    /// About to tell the client that it is turned away.
    Refuse(SocksErrorView),
    Failed(SocksErrorView),
}

/// What the dialogue is.
#[verifier::ext_equal]
pub struct HandshakeView {
    pub stage: HandshakeStageView,
    /// What the client has said since it was last spoken to.
    pub heard: Seq<u8>,
}

/// What is to be done outside.
pub enum HandshakeActionView {
    Read(nat),
    Send(Seq<u8>),
    Connect(HostView, u16),
    Relay(HostView, u16),
    Fail(SocksErrorView),
}

/// What came of it.
pub enum HandshakeEventView {
    /// The bytes are sent.
    Sent,
    /// These bytes were read.
    Heard(Seq<u8>),
}

/// The beginning of a dialogue.
pub open spec fn handshake_start() -> HandshakeView {
    HandshakeView { stage: HandshakeStageView::Greeting, heard: Seq::empty() }
}

/// What is to be done next.
pub open spec fn handshake_action(v: HandshakeView) -> HandshakeActionView {
    match v.stage {
        HandshakeStageView::Greeting => match greeting_of(v.heard) {
            GreetingView::Missing(n) => HandshakeActionView::Read(n as nat),
            _ => HandshakeActionView::Read(0),
        },
        HandshakeStageView::Welcome => HandshakeActionView::Send(seq![SOCKS_VERSION, 0u8]),
        HandshakeStageView::Request => match request_of(v.heard) {
            RequestView::Missing(n) => HandshakeActionView::Read(n),
            _ => HandshakeActionView::Read(0),
        },
        HandshakeStageView::Confirm(_, _) => HandshakeActionView::Send(plain_reply(0)),
        HandshakeStageView::Connect(host, port) => HandshakeActionView::Connect(host, port),
        HandshakeStageView::Relay(host, port) => HandshakeActionView::Relay(host, port),
        HandshakeStageView::Refuse(e) => HandshakeActionView::Send(error_reply(e)),
        HandshakeStageView::Failed(e) => HandshakeActionView::Fail(e),
    }
}

/// The stage of a client that is turned away: it is told so if there is something to tell.
pub open spec fn turned_away(e: SocksErrorView) -> HandshakeStageView {
    if error_reply(e).len() == 0 {
        HandshakeStageView::Failed(e)
    } else {
        HandshakeStageView::Refuse(e)
    }
}

/// The dialogue after an event. Events that answer nothing change nothing.
pub open spec fn handshake_step(v: HandshakeView, e: HandshakeEventView) -> HandshakeView {
    match (v.stage, e) {
        (HandshakeStageView::Greeting, HandshakeEventView::Heard(b)) => {
            let heard = v.heard + b;
            match greeting_of(heard) {
                GreetingView::Missing(_) => HandshakeView { heard, ..v },
                GreetingView::Refused(e) => HandshakeView { stage: turned_away(e), heard },
                GreetingView::Accepted => HandshakeView {
                    stage: HandshakeStageView::Welcome,
                    heard: Seq::empty(),
                },
            }
        },
        (HandshakeStageView::Welcome, HandshakeEventView::Sent) => HandshakeView {
            stage: HandshakeStageView::Request,
            ..v
        },
        (HandshakeStageView::Request, HandshakeEventView::Heard(b)) => {
            let heard = v.heard + b;
            match request_of(heard) {
                RequestView::Missing(_) => HandshakeView { heard, ..v },
                RequestView::Refused(e) => HandshakeView { stage: turned_away(e), heard },
                RequestView::Accepted(command, host, port) => HandshakeView {
                    stage: if command == SOCKS_CONNECT {
                        HandshakeStageView::Confirm(host, port)
                    } else {
                        HandshakeStageView::Relay(host, port)
                    },
                    heard,
                },
            }
        },
        (HandshakeStageView::Confirm(host, port), HandshakeEventView::Sent) => HandshakeView {
            stage: HandshakeStageView::Connect(host, port),
            ..v
        },
        (HandshakeStageView::Refuse(e), HandshakeEventView::Sent) => HandshakeView {
            stage: HandshakeStageView::Failed(e),
            ..v
        },
        _ => v,
    }
}

/// A client and a server of this engine understand each other: the client greets, the server
/// answers, the client asks for a destination, the server confirms and connects to that very
/// destination, and the client takes the connection into use.
pub proof fn law_client_and_server_agree(client: DialView, host: HostView, port: u16)
    requires
        client.stage == DialStage::Greet,
        client.heard.len() == 0,
        client.purpose == PurposeView::Connect(host, port),
        host_fits(host),
    ensures
        ({
            let s0 = handshake_start();
            let s1 = handshake_step(s0, HandshakeEventView::Heard(greeting()));
            let s2 = handshake_step(s1, HandshakeEventView::Sent);
            let s3 = handshake_step(
                s2,
                HandshakeEventView::Heard(request_bytes(client.purpose)),
            );
            let s4 = handshake_step(s3, HandshakeEventView::Sent);
            let c1 = dial_step(client, DialEventView::Done);
            let c2 = dial_step(c1, DialEventView::Heard(seq![SOCKS_VERSION, 0u8]));
            let c3 = dial_step(c2, DialEventView::Done);
            let c4 = dial_step(c3, DialEventView::Heard(plain_reply(0)));
            &&& dial_action(client) == DialActionView::Send(greeting())
            &&& handshake_action(s1) == HandshakeActionView::Send(seq![SOCKS_VERSION, 0u8])
            &&& dial_action(c2) == DialActionView::Send(request_bytes(client.purpose))
            &&& handshake_action(s3) == HandshakeActionView::Send(plain_reply(0))
            &&& dial_action(c4) == DialActionView::Use(None)
            &&& handshake_action(s4) == HandshakeActionView::Connect(host, port)
        }),
{
    let whole = request_bytes(client.purpose);
    law_own_greeting_accepted();
    law_own_request_read(host, port, whole.len() as int);
    law_own_replies_understood();
    let empty = Seq::<u8>::empty();
    assert(whole.take(whole.len() as int) =~= whole);
    assert(empty + greeting() =~= greeting());
    assert(empty + whole =~= whole);
    assert(client.heard + seq![SOCKS_VERSION, 0u8] =~= seq![SOCKS_VERSION, 0u8]);
    assert(empty + plain_reply(0) =~= plain_reply(0));
}

/// What the client says may come in any pieces: however it is cut, the dialogue ends up where
/// it does when it comes at once.
pub proof fn law_handshake_in_pieces(v: HandshakeView, a: Seq<u8>, b: Seq<u8>)
    requires
        v.stage is Greeting || v.stage is Request,
        handshake_step(v, HandshakeEventView::Heard(a)).stage == v.stage,
    ensures
        handshake_step(
            handshake_step(v, HandshakeEventView::Heard(a)),
            HandshakeEventView::Heard(b),
        ) == handshake_step(v, HandshakeEventView::Heard(a + b)),
{
    assert(v.heard + a + b =~= v.heard + (a + b));
}

/// How far the dialogue has come.
#[derive(Debug)]
enum HandshakeStage {
    Greeting,
    Welcome,
    Request,
    Confirm(Host, u16),
    Connect(Host, u16),
    Relay(Host, u16),
    Refuse(SocksError),
    Failed(SocksError),
}

impl View for HandshakeStage {
    type V = HandshakeStageView;

    closed spec fn view(&self) -> HandshakeStageView {
        match self {
            HandshakeStage::Greeting => HandshakeStageView::Greeting,
            HandshakeStage::Welcome => HandshakeStageView::Welcome,
            HandshakeStage::Request => HandshakeStageView::Request,
            HandshakeStage::Confirm(h, p) => HandshakeStageView::Confirm(h@, *p),
            HandshakeStage::Connect(h, p) => HandshakeStageView::Connect(h@, *p),
            HandshakeStage::Relay(h, p) => HandshakeStageView::Relay(h@, *p),
            HandshakeStage::Refuse(e) => HandshakeStageView::Refuse(e@),
            HandshakeStage::Failed(e) => HandshakeStageView::Failed(e@),
        }
    }
}

/// What is to be done outside.
#[derive(Debug)]
pub enum HandshakeAction<'a> {
    /// Read exactly that many bytes.
    Read(usize),
    /// Send these bytes.
    Send(Vec<u8>),
    /// Connect the client to that host and port.
    Connect(&'a Host, u16),
    /// Open a relay for the datagrams of the client.
    Relay(&'a Host, u16),
    /// Give up.
    Fail(&'a SocksError),
}

impl<'a> View for HandshakeAction<'a> {
    type V = HandshakeActionView;

    open spec fn view(&self) -> HandshakeActionView {
        match self {
            HandshakeAction::Read(n) => HandshakeActionView::Read(*n as nat),
            HandshakeAction::Send(b) => HandshakeActionView::Send(b@),
            HandshakeAction::Connect(h, p) => HandshakeActionView::Connect(h@, *p),
            HandshakeAction::Relay(h, p) => HandshakeActionView::Relay(h@, *p),
            HandshakeAction::Fail(e) => HandshakeActionView::Fail(e@),
        }
    }
}

/// What came of it.
#[derive(Debug)]
pub enum HandshakeEvent {
    /// The bytes are sent.
    Sent,
    /// These bytes were read.
    Heard(Vec<u8>),
}

impl View for HandshakeEvent {
    type V = HandshakeEventView;

    open spec fn view(&self) -> HandshakeEventView {
        match self {
            HandshakeEvent::Sent => HandshakeEventView::Sent,
            HandshakeEvent::Heard(b) => HandshakeEventView::Heard(b@),
        }
    }
}

/// The dialogue with a client.
#[derive(Debug)]
pub struct Handshake {
    stage: HandshakeStage,
    heard: Vec<u8>,
}

impl View for Handshake {
    type V = HandshakeView;

    closed spec fn view(&self) -> HandshakeView {
        HandshakeView { stage: self.stage@, heard: self.heard@ }
    }
}

impl Handshake {
    /// The beginning of a dialogue.
    pub fn new() -> (r: Handshake)
        ensures
            r@ == handshake_start(),
    {
        Handshake { stage: HandshakeStage::Greeting, heard: Vec::new() }
    }

    /// What is to be done next.
    pub fn action(&self) -> (r: HandshakeAction<'_>)
        ensures
            r@ == handshake_action(self@),
    {
        match &self.stage {
            HandshakeStage::Greeting => match read_greeting(self.heard.as_slice()) {
                Greeting::Missing(n) => HandshakeAction::Read(n),
                _ => HandshakeAction::Read(0),
            },
            HandshakeStage::Welcome => {
                let mut out: Vec<u8> = Vec::new();
                let reply: [u8; 2] = method_reply();
                out.extend_from_slice(reply.as_slice());
                assert(out@ =~= seq![SOCKS_VERSION, 0u8]);
                HandshakeAction::Send(out)
            },
            HandshakeStage::Request => match read_request(self.heard.as_slice()) {
                Request::Missing(n) => HandshakeAction::Read(n),
                _ => HandshakeAction::Read(0),
            },
            HandshakeStage::Confirm(_, _) => HandshakeAction::Send(success_reply()),
            HandshakeStage::Connect(host, port) => HandshakeAction::Connect(host, *port),
            HandshakeStage::Relay(host, port) => HandshakeAction::Relay(host, *port),
            HandshakeStage::Refuse(e) => HandshakeAction::Send(e.reply()),
            HandshakeStage::Failed(e) => HandshakeAction::Fail(e),
        }
    }

    /// Turns the client away.
    fn turn_away(&mut self, e: SocksError)
        ensures
            final(self)@.stage == turned_away(e@),
            final(self)@.heard == old(self)@.heard,
    {
        let told: bool = e.reply().len() > 0;
        self.stage = if told {
            HandshakeStage::Refuse(e)
        } else {
            HandshakeStage::Failed(e)
        };
    }

    /// Takes note of what came of it.
    pub fn advance(&mut self, event: HandshakeEvent)
        ensures
            final(self)@ == handshake_step(old(self)@, event@),
    {
        match event {
            HandshakeEvent::Heard(b) => match &self.stage {
                HandshakeStage::Greeting => {
                    self.heard.extend_from_slice(b.as_slice());
                    assert(self.heard@ =~= old(self)@.heard + b@);
                    match read_greeting(self.heard.as_slice()) {
                        Greeting::Missing(_) => {},
                        Greeting::Refused(e) => self.turn_away(e),
                        Greeting::Accepted => {
                            self.stage = HandshakeStage::Welcome;
                            self.heard = Vec::new();
                        },
                    }
                },
                HandshakeStage::Request => {
                    self.heard.extend_from_slice(b.as_slice());
                    assert(self.heard@ =~= old(self)@.heard + b@);
                    match read_request(self.heard.as_slice()) {
                        Request::Missing(_) => {},
                        Request::Refused(e) => self.turn_away(e),
                        Request::Accepted(command, host, port) => {
                            self.stage = if command == SOCKS_CONNECT {
                                HandshakeStage::Confirm(host, port)
                            } else {
                                HandshakeStage::Relay(host, port)
                            };
                        },
                    }
                },
                _ => {},
            },
            HandshakeEvent::Sent => self.sent(),
        }
    }

    /// Takes note that the client has been spoken to.
    fn sent(&mut self)
        ensures
            final(self)@ == handshake_step(old(self)@, HandshakeEventView::Sent),
    {
        let mut stage = HandshakeStage::Greeting;
        std::mem::swap(&mut stage, &mut self.stage);
        self.stage = match stage {
            HandshakeStage::Welcome => HandshakeStage::Request,
            HandshakeStage::Confirm(host, port) => HandshakeStage::Connect(host, port),
            HandshakeStage::Refuse(e) => HandshakeStage::Failed(e),
            other => other,
        };
    }
}

/// A client of any kind gets what it asks for: after a greeting that offers to do without
/// authentication and a request, a connection is confirmed and opened to the host and the port
/// of the request, and a relay is opened without that confirmation.
pub proof fn law_client_gets_what_it_asks_for(
    methods: Seq<u8>,
    command: u8,
    reserved: u8,
    host: HostView,
    port: u16,
)
    requires
        methods.len() <= 255,
        exists|i: int| 0 <= i < methods.len() && #[trigger] methods[i] == 0,
        command == 1 || command == 3,
        host_fits(host),
    ensures
        ({
            let hello = seq![5u8, methods.len() as u8] + methods;
            let request = seq![5u8, command, reserved] + host_bytes(host, 3, 4) + be16(port);
            let s1 = handshake_step(handshake_start(), HandshakeEventView::Heard(hello));
            let s2 = handshake_step(s1, HandshakeEventView::Sent);
            let s3 = handshake_step(s2, HandshakeEventView::Heard(request));
            let s4 = handshake_step(s3, HandshakeEventView::Sent);
            &&& handshake_action(s1) == HandshakeActionView::Send(seq![5u8, 0u8])
            &&& handshake_action(s2) == HandshakeActionView::Read(4)
            &&& command == 1 ==> handshake_action(s3) == HandshakeActionView::Send(
                seq![5u8, 0, 0, 1, 0, 0, 0, 0, 0, 0],
            ) && handshake_action(s4) == HandshakeActionView::Connect(host, port)
            &&& command == 3 ==> handshake_action(s3) == HandshakeActionView::Relay(host, port)
        }),
{
    let hello = seq![5u8, methods.len() as u8] + methods;
    let request = seq![5u8, command, reserved] + host_bytes(host, 3, 4) + be16(port);
    let empty = Seq::<u8>::empty();
    law_greeting_decides(methods, empty, 5);
    assert(hello + empty =~= hello);
    assert(empty + hello =~= hello);
    law_request_decides(command, reserved, host, port, request);
    assert(empty + request =~= request);
}

/// A client that cannot be served is told so where there is an answer for it, and then the
/// dialogue ends with the reason; where there is none it ends at once.
pub proof fn law_refused_client_is_told(v: HandshakeView, b: Seq<u8>, e: SocksErrorView)
    requires
        (v.stage is Greeting && greeting_of(v.heard + b) == GreetingView::Refused(e)) || (
        v.stage is Request && request_of(v.heard + b) == RequestView::Refused(e)),
    ensures
        ({
            let w = handshake_step(v, HandshakeEventView::Heard(b));
            let x = handshake_step(w, HandshakeEventView::Sent);
            if error_reply(e).len() > 0 {
                &&& handshake_action(w) == HandshakeActionView::Send(error_reply(e))
                &&& handshake_action(x) == HandshakeActionView::Fail(e)
            } else {
                handshake_action(w) == HandshakeActionView::Fail(e)
            }
        }),
{
}

/// Nothing is opened for a client before its request is there: only a request that was accepted
/// leads to a connection or a relay, and only to that of its host and port.
pub proof fn law_nothing_opened_without_request(v: HandshakeView, e: HandshakeEventView)
    requires
        !(handshake_action(v) is Connect) && !(handshake_action(v) is Relay),
    ensures
        ({
            let w = handshake_step(v, e);
            &&& handshake_action(w) matches HandshakeActionView::Connect(host, port) ==> v.stage
                == HandshakeStageView::Confirm(host, port)
            &&& w.stage matches HandshakeStageView::Confirm(host, port) ==> v.stage
                == w.stage || (v.stage is Request && (e matches HandshakeEventView::Heard(b)
                && request_of(v.heard + b) == RequestView::Accepted(1, host, port)))
            &&& handshake_action(w) matches HandshakeActionView::Relay(host, port) ==> v.stage
                is Request && (e matches HandshakeEventView::Heard(b) && request_of(v.heard + b)
                == RequestView::Accepted(3, host, port))
        }),
{
}

/// A greeting or a request that is not all there is waited for, and as many bytes are read as
/// are missing.
pub proof fn law_handshake_waits(v: HandshakeView, b: Seq<u8>, n: nat)
    requires
        (v.stage is Greeting && greeting_of(v.heard + b) == GreetingView::Missing(n)) || (
        v.stage is Request && request_of(v.heard + b) == RequestView::Missing(n)),
    ensures
        handshake_action(handshake_step(v, HandshakeEventView::Heard(b)))
            == HandshakeActionView::Read(n),
        handshake_action(handshake_start()) == HandshakeActionView::Read(2),
{
}

/// What is to be done is told as it is: how much is read, what is sent, where the client wants
/// to go, and why it fails.
pub proof fn law_action_is_told(n: usize, b: Vec<u8>, host: Host, port: u16, e: SocksError)
    ensures
        HandshakeAction::Read(n)@ == HandshakeActionView::Read(n as nat),
        HandshakeAction::Send(b)@ == HandshakeActionView::Send(b@),
        HandshakeAction::Connect(&host, port)@ == HandshakeActionView::Connect(host@, port),
        HandshakeAction::Relay(&host, port)@ == HandshakeActionView::Relay(host@, port),
        HandshakeAction::Fail(&e)@ == HandshakeActionView::Fail(e@),
        HandshakeEvent::Sent@ == HandshakeEventView::Sent,
        HandshakeEvent::Heard(b)@ == HandshakeEventView::Heard(b@),
{
}

} // verus!
