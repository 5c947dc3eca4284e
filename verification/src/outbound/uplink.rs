//! From the stream of a connection to datagrams, step by step: the stream is read frame by
//! frame, and what a frame carries is resolved, given a session and sent.

use crate::frame::{
    addressed_parts, frame_bytes, frame_fits, frame_head, law_frame_round_trip, read_addressed,
    read_frame_head,
};
use crate::net::{host_fits, missing, Host, HostView};
use crate::outbound::udp::{
    finish_packet, law_packet_round_trip, packet_at, packet_bytes, read_packet, standard_frame,
    Packet, PacketView,
};
use crate::wire::{
    array4, be16, buffer_chunk, buffer_new, buffer_put_slice, buffer_view, lemma_u16_between,
    low16, read_u16, u16_at,
};
use bytes::BytesMut;
use vstd::prelude::*;
use vstd::slice::*;
use vstd::utf8::*;

verus! {

/// What kind of stream it is, and what is done with its datagrams.
#[derive(Debug, Clone, Copy, PartialEq, Eq)]
pub enum UplinkKind {
    /// Each datagram has its own address, and a session by address.
    PacketAddr,
    /// Each datagram has its own address, and a session by association.
    Multiplexed,
    /// All datagrams go to one destination.
    Standard,
    /// Each datagram has its own address, and is sent on as a message.
    Messages,
}

/// What is done with a datagram next.
#[derive(Debug, Clone, Copy, PartialEq, Eq)]
pub enum Step {
    /// Look up the address of its host.
    Resolve,
    /// See whether there is a session for it.
    Lookup,
    /// Open a session for it.
    Open,
    /// Send it.
    Send,
}

/// What came of it.
#[derive(Debug, Clone, Copy, PartialEq, Eq)]
pub enum StepEvent {
    /// Whether the host has an address.
    Resolved(bool),
    /// Whether there is a session.
    Known(bool),
    /// Whether a session could be opened.
    Opened(bool),
    /// Whether it was sent.
    Sent(bool),
}

/// What is done with a datagram after a step.
#[derive(Debug, Clone, Copy, PartialEq, Eq)]
pub enum Next {
    Go(Step),
    /// It is dropped before it could be sent.
    Drop,
    /// It is done with; whether it was sent.
    Finish(bool),
}

/// What is done with a datagram after a step. It is sent if its host has an address and it has
/// a session or gets one; otherwise it is dropped. An answer to another question changes
/// nothing.
pub open spec fn next_of(step: Step, e: StepEvent) -> Next {
    match (step, e) {
        (Step::Resolve, StepEvent::Resolved(true)) => Next::Go(Step::Lookup),
        (Step::Resolve, StepEvent::Resolved(false)) => Next::Drop,
        (Step::Lookup, StepEvent::Known(true)) => Next::Go(Step::Send),
        (Step::Lookup, StepEvent::Known(false)) => Next::Go(Step::Open),
        (Step::Open, StepEvent::Opened(true)) => Next::Go(Step::Send),
        (Step::Open, StepEvent::Opened(false)) => Next::Drop,
        (Step::Send, StepEvent::Sent(ok)) => Next::Finish(ok),
        _ => Next::Go(step),
    }
}

/// What is done with a datagram after a step.
pub fn next(step: Step, e: StepEvent) -> (r: Next)
    ensures
        r == next_of(step, e),
{
    match (step, e) {
        (Step::Resolve, StepEvent::Resolved(true)) => Next::Go(Step::Lookup),
        (Step::Resolve, StepEvent::Resolved(false)) => Next::Drop,
        (Step::Lookup, StepEvent::Known(true)) => Next::Go(Step::Send),
        (Step::Lookup, StepEvent::Known(false)) => Next::Go(Step::Open),
        (Step::Open, StepEvent::Opened(true)) => Next::Go(Step::Send),
        (Step::Open, StepEvent::Opened(false)) => Next::Drop,
        (Step::Send, StepEvent::Sent(ok)) => Next::Finish(ok),
        _ => Next::Go(step),
    }
}

/// A datagram in a stream: its association, its target where it has its own, and where its
/// payload starts and ends.
pub struct JobView {
    pub assoc: u16,
    pub target: Option<(HostView, u16)>,
    pub start: nat,
    pub end: nat,
}

/// What a stream holds at its front.
pub enum ScanView {
    /// That many bytes are missing.
    Missing(nat),
    /// The stream ends here, or makes no sense from here on.
    Stop,
    /// A frame without a datagram, and where it ends.
    Skip(nat),
    Job(JobView),
}

/// What a stream of datagrams with addresses holds at its front.
pub open spec fn scan_packet(s: Seq<u8>) -> ScanView {
    match packet_at(s, 0) {
        PacketView::Missing(n) => ScanView::Missing(n),
        PacketView::Stop => ScanView::Stop,
        PacketView::Packet(host, port, start, end) => ScanView::Job(
            JobView { assoc: 0, target: Some((host, port)), start, end },
        ),
    }
}

/// What a stream of frames holds at its front.
pub open spec fn scan_frame(s: Seq<u8>) -> ScanView {
    if s.len() < 4 {
        ScanView::Missing(missing(s, 4))
    } else {
        match frame_head(s.take(4)) {
            None => ScanView::Stop,
            Some((len, assoc)) => {
                let end = 4 + len;
                if s.len() < end {
                    ScanView::Missing(missing(s, end as int))
                } else {
                    match addressed_parts(s.subrange(4, end as int), 0) {
                        None => ScanView::Skip(end),
                        Some((host, port, start)) => ScanView::Job(
                            JobView { assoc, target: Some((host, port)), start: 4 + start, end },
                        ),
                    }
                }
            },
        }
    }
}

/// What a stream of payloads holds at its front.
pub open spec fn scan_payload(s: Seq<u8>) -> ScanView {
    if s.len() < 2 {
        ScanView::Missing(missing(s, 2))
    } else if u16_at(s, 0) == 0 {
        ScanView::Stop
    } else {
        let end = 2 + u16_at(s, 0);
        if s.len() < end {
            ScanView::Missing(missing(s, end))
        } else {
            ScanView::Job(JobView { assoc: 0, target: None, start: 2, end: end as nat })
        }
    }
}

/// What a stream holds at its front.
pub open spec fn scan(kind: UplinkKind, s: Seq<u8>) -> ScanView {
    match kind {
        UplinkKind::PacketAddr => scan_packet(s),
        UplinkKind::Multiplexed => scan_frame(s),
        UplinkKind::Standard => scan_payload(s),
        UplinkKind::Messages => scan_frame(s),
    }
}

/// What is done first with a datagram.
pub open spec fn first_step(kind: UplinkKind, job: JobView) -> Step {
    match kind {
        UplinkKind::PacketAddr => Step::Resolve,
        UplinkKind::Multiplexed => if job.target matches Some((HostView::Domain(_), _)) {
            Step::Resolve
        } else {
            Step::Lookup
        },
        UplinkKind::Standard => Step::Send,
        UplinkKind::Messages => Step::Send,
    }
}

/// Whether the datagrams of a stream have sessions.
pub open spec fn has_sessions(kind: UplinkKind) -> bool {
    kind == UplinkKind::PacketAddr || kind == UplinkKind::Multiplexed
}

/// What is being done with a stream.
pub enum StageView {
    /// That many bytes are to be read.
    Read(nat),
    /// A datagram is at a step.
    Work(JobView, Step),
    /// Idle sessions are to be looked for.
    Sweep,
    /// Nothing more.
    Stopped,
}

/// What is being done with a stream, and what of it is not done with yet.
#[verifier::ext_equal]
pub struct UplinkView {
    pub kind: UplinkKind,
    pub unread: Seq<u8>,
    pub stage: StageView,
}

/// The stream at its next datagram, or where bytes are missing. Frames without a datagram are
/// passed over.
pub open spec fn settled(kind: UplinkKind, s: Seq<u8>) -> UplinkView
    decreases s.len(),
{
    match scan(kind, s) {
        ScanView::Missing(n) => UplinkView { kind, unread: s, stage: StageView::Read(n) },
        ScanView::Stop => UplinkView { kind, unread: s, stage: StageView::Stopped },
        ScanView::Skip(end) => if 0 < end <= s.len() {
            settled(kind, s.skip(end as int))
        } else {
            UplinkView { kind, unread: s, stage: StageView::Stopped }
        },
        ScanView::Job(job) => UplinkView {
            kind,
            unread: s,
            stage: StageView::Work(job, first_step(kind, job)),
        },
    }
}

/// What came of what was to be done with a stream.
pub enum UplinkEventView {
    /// These bytes were read.
    Read(Seq<u8>),
    /// Nothing more can be read.
    Ended,
    /// A datagram has got through its step, or not.
    Step(StepEvent),
    /// Idle sessions were looked for.
    Swept,
}

/// The stream after an event. Events that answer nothing change nothing.
pub open spec fn uplink_step(v: UplinkView, e: UplinkEventView) -> UplinkView {
    match (v.stage, e) {
        (_, UplinkEventView::Ended) => UplinkView { stage: StageView::Stopped, ..v },
        (StageView::Read(_), UplinkEventView::Read(b)) => settled(v.kind, v.unread + b),
        (StageView::Work(job, step), UplinkEventView::Step(e)) => match next_of(step, e) {
            Next::Go(step) => UplinkView { stage: StageView::Work(job, step), ..v },
            Next::Drop => settled(v.kind, v.unread.skip(job.end as int)),
            Next::Finish(_) => if has_sessions(v.kind) {
                UplinkView {
                    stage: StageView::Sweep,
                    unread: v.unread.skip(job.end as int),
                    kind: v.kind,
                }
            } else {
                settled(v.kind, v.unread.skip(job.end as int))
            },
        },
        (StageView::Sweep, UplinkEventView::Swept) => settled(v.kind, v.unread),
        _ => v,
    }
}

/// How many bytes are to be counted as sent after an event: the payload of a datagram that was
/// sent, and nothing else.
pub open spec fn sent_bytes(v: UplinkView, e: UplinkEventView) -> nat {
    match (v.stage, e) {
        (StageView::Work(job, Step::Send), UplinkEventView::Step(StepEvent::Sent(true))) => (
        job.end - job.start) as nat,
        _ => 0,
    }
}

/// Whether a datagram lies within what is there.
pub open spec fn job_within(job: JobView, s: Seq<u8>) -> bool {
    0 < job.start <= job.end <= s.len()
}

/// A datagram that is found lies within what is there, and a frame that is passed over too.
pub proof fn lemma_scan_within(kind: UplinkKind, s: Seq<u8>)
    ensures
        scan(kind, s) matches ScanView::Job(job) ==> job_within(job, s),
        scan(kind, s) matches ScanView::Skip(end) ==> 0 < end <= s.len(),
        scan(kind, s) matches ScanView::Missing(n) ==> 0 < n,
{
}

/// A datagram of a stream: its association, its target where it has its own, and its payload.
pub struct DatagramView {
    pub assoc: u16,
    pub target: Option<(HostView, u16)>,
    pub payload: Seq<u8>,
}

/// The datagrams of a stream, one behind the other.
pub open spec fn datagrams(kind: UplinkKind, s: Seq<u8>) -> Seq<DatagramView>
    decreases s.len(),
{
    match scan(kind, s) {
        ScanView::Job(job) => if job_within(job, s) {
            seq![
                DatagramView {
                    assoc: job.assoc,
                    target: job.target,
                    payload: s.subrange(job.start as int, job.end as int),
                },
            ] + datagrams(kind, s.skip(job.end as int))
        } else {
            Seq::empty()
        },
        ScanView::Skip(end) => if 0 < end <= s.len() {
            datagrams(kind, s.skip(end as int))
        } else {
            Seq::empty()
        },
        _ => Seq::empty(),
    }
}

/// The bytes of a datagram in a stream.
pub open spec fn datagram_bytes(kind: UplinkKind, d: DatagramView) -> Seq<u8> {
    match kind {
        UplinkKind::PacketAddr => packet_bytes((d.target->0).0, (d.target->0).1, d.payload),
        UplinkKind::Standard => standard_frame(d.payload),
        _ => frame_bytes(d.assoc, (d.target->0).0, (d.target->0).1, d.payload),
    }
}

/// Whether a datagram can stand in a stream.
pub open spec fn datagram_fits(kind: UplinkKind, d: DatagramView) -> bool {
    match kind {
        UplinkKind::PacketAddr => {
            &&& d.assoc == 0
            &&& d.target matches Some((host, _)) && host_fits(host)
            &&& d.payload.len() <= 65535
        },
        UplinkKind::Standard => {
            &&& d.assoc == 0
            &&& d.target is None
            &&& 0 < d.payload.len() <= 65535
        },
        _ => d.target matches Some((host, _)) && frame_fits(host, d.payload),
    }
}

/// The bytes of datagrams, one behind the other.
pub open spec fn datagram_stream(kind: UplinkKind, ds: Seq<DatagramView>) -> Seq<u8>
    decreases ds.len(),
{
    if ds.len() == 0 {
        Seq::empty()
    } else {
        datagram_bytes(kind, ds[0]) + datagram_stream(kind, ds.drop_first())
    }
}

/// Whether the datagram at the front of a stream is found, and what follows it is left.
pub open spec fn found_in_front(kind: UplinkKind, d: DatagramView, rest: Seq<u8>) -> bool {
    let b = datagram_bytes(kind, d);
    let s = b + rest;
    &&& scan(kind, s) matches ScanView::Job(job)
    &&& job.assoc == d.assoc
    &&& job.target == d.target
    &&& job.end == b.len()
    &&& job_within(job, s)
    &&& s.subrange(job.start as int, job.end as int) == d.payload
    &&& s.skip(job.end as int) == rest
}

proof fn lemma_front_packet(d: DatagramView, rest: Seq<u8>)
    requires
        datagram_fits(UplinkKind::PacketAddr, d),
    ensures
        found_in_front(UplinkKind::PacketAddr, d, rest),
{
    let host = (d.target->0).0;
    let port = (d.target->0).1;
    let b = packet_bytes(host, port, d.payload);
    let s = b + rest;
    let empty = Seq::<u8>::empty();
    assert(empty + b =~= b);
    assert(b.take(b.len() as int) =~= b);
    law_packet_round_trip(empty, host, port, d.payload, b.len() as int);
    lemma_packet_needs_no_more(b, rest);
    assert(s.subrange(b.len() - d.payload.len(), b.len() as int) =~= d.payload);
    assert(s.skip(b.len() as int) =~= rest);
}

proof fn lemma_front_payload(d: DatagramView, rest: Seq<u8>)
    requires
        datagram_fits(UplinkKind::Standard, d),
    ensures
        found_in_front(UplinkKind::Standard, d, rest),
{
    let b = standard_frame(d.payload);
    let s = b + rest;
    let n = low16(d.payload.len());
    assert(s =~= Seq::<u8>::empty() + be16(n) + (d.payload + rest));
    lemma_u16_between(Seq::empty(), n, d.payload + rest);
    assert(s.subrange(2, b.len() as int) =~= d.payload);
    assert(s.skip(b.len() as int) =~= rest);
}

proof fn lemma_front_frame(kind: UplinkKind, d: DatagramView, rest: Seq<u8>)
    requires
        kind == UplinkKind::Multiplexed || kind == UplinkKind::Messages,
        datagram_fits(kind, d),
    ensures
        found_in_front(kind, d, rest),
{
    let host = (d.target->0).0;
    let port = (d.target->0).1;
    let b = frame_bytes(d.assoc, host, port, d.payload);
    let s = b + rest;
    law_frame_round_trip(d.assoc, host, port, d.payload);
    assert(s.take(4) =~= b.take(4));
    let body = b.skip(4);
    assert(s.subrange(4, b.len() as int) =~= body);
    let start = (addressed_parts(body, 0)->0).2 as int;
    assert(body.skip(start) =~= s.subrange(4 + start, b.len() as int));
    assert(s.skip(b.len() as int) =~= rest);
}

/// The datagram at the front of a stream is found, and what follows it is left.
pub proof fn lemma_front_datagram(kind: UplinkKind, d: DatagramView, rest: Seq<u8>)
    requires
        datagram_fits(kind, d),
    ensures
        found_in_front(kind, d, rest),
{
    match kind {
        UplinkKind::PacketAddr => lemma_front_packet(d, rest),
        UplinkKind::Standard => lemma_front_payload(d, rest),
        _ => lemma_front_frame(kind, d, rest),
    }
}

/// A datagram with its address that is there is found the same when more bytes have come.
pub proof fn lemma_packet_needs_no_more(s: Seq<u8>, t: Seq<u8>)
    requires
        packet_at(s, 0) is Packet,
    ensures
        packet_at(s + t, 0) == packet_at(s, 0),
{
    let u = s + t;
    assert(forall|i: int| 0 <= i < s.len() ==> u[i] == s[i]);
    assert(u.subrange(1, 5) =~= s.subrange(1, 5) || s.len() < 5);
    assert(u.subrange(1, 17) =~= s.subrange(1, 17) || s.len() < 17);
    if s.len() >= 2 {
        let end = 2 + s[1] as int;
        assert(u.subrange(2, end) =~= s.subrange(2, end) || s.len() < end);
    }
}

/// Behind a datagram that is found at the front of a stream, the datagrams of the rest are found.
proof fn lemma_datagrams_unfold(kind: UplinkKind, d: DatagramView, s: Seq<u8>, rest: Seq<u8>)
    requires
        scan(kind, s) matches ScanView::Job(job) && job_within(job, s) && job.assoc == d.assoc
            && job.target == d.target && s.subrange(job.start as int, job.end as int) == d.payload
            && s.skip(job.end as int) == rest,
    ensures
        datagrams(kind, s) == seq![d] + datagrams(kind, rest),
{
}

/// Datagrams that stand one behind the other in a stream are found one by one, each with its
/// association, its target and its payload.
#[verifier::spinoff_prover]
#[verifier::rlimit(40)]
pub proof fn law_stream_read_back(kind: UplinkKind, ds: Seq<DatagramView>)
    requires
        forall|i: int| 0 <= i < ds.len() ==> datagram_fits(kind, #[trigger] ds[i]),
    ensures
        datagrams(kind, datagram_stream(kind, ds)) == ds,
    decreases ds.len(),
{
    if ds.len() > 0 {
        let first = ds[0];
        let rest = ds.drop_first();
        assert(datagram_fits(kind, first));
        assert forall|i: int| 0 <= i < rest.len() implies datagram_fits(
            kind,
            #[trigger] rest[i],
        ) by {
            assert(rest[i] == ds[i + 1]);
        }
        law_stream_read_back(kind, rest);
        let behind = datagram_stream(kind, rest);
        lemma_front_datagram(kind, first, behind);
        lemma_datagrams_unfold(kind, first, datagram_bytes(kind, first) + behind, behind);
        assert(ds =~= seq![first] + rest);
    } else {
        assert(datagrams(kind, datagram_stream(kind, ds)) =~= ds);
    }
}

/// The datagrams that are still to be done with in a stream: those that are found in what is
/// not done with, the one that is being worked on first.
pub open spec fn pending(v: UplinkView) -> Seq<DatagramView> {
    datagrams(v.kind, v.unread)
}

/// Settling a stream loses none of its datagrams.
pub proof fn lemma_settled_keeps_datagrams(kind: UplinkKind, s: Seq<u8>)
    ensures
        pending(settled(kind, s)) == datagrams(kind, s),
    decreases s.len(),
{
    lemma_scan_within(kind, s);
    if let ScanView::Skip(end) = scan(kind, s) {
        lemma_settled_keeps_datagrams(kind, s.skip(end as int));
    }
}

/// No datagram is lost, doubled or done out of order: whatever comes of a step, either the
/// datagrams that are still to be done with are the same as before, or they are those without
/// the first, and then that one was the one being worked on and was sent or dropped.
pub proof fn law_datagrams_done_in_order(v: UplinkView, e: StepEvent)
    requires
        v.stage matches StageView::Work(job, _) && scan(v.kind, v.unread) == ScanView::Job(job),
    ensures
        ({
            let step = (v.stage->Work_1);
            let after = pending(uplink_step(v, UplinkEventView::Step(e)));
            if next_of(step, e) is Go {
                after == pending(v)
            } else {
                pending(v).len() > 0 && after == pending(v).drop_first()
            }
        }),
{
    let job = v.stage->Work_0;
    let step = v.stage->Work_1;
    lemma_scan_within(v.kind, v.unread);
    let rest = v.unread.skip(job.end as int);
    lemma_settled_keeps_datagrams(v.kind, rest);
    let first = DatagramView {
        assoc: job.assoc,
        target: job.target,
        payload: v.unread.subrange(job.start as int, job.end as int),
    };
    assert(pending(v) == seq![first] + datagrams(v.kind, rest));
    assert((seq![first] + datagrams(v.kind, rest)).drop_first() =~= datagrams(v.kind, rest));
}

/// The state in which a stream is worked on is one that scanning it gives: this holds from the
/// beginning and after every event.
pub open spec fn uplink_valid(v: UplinkView) -> bool {
    match v.stage {
        StageView::Work(job, _) => scan(v.kind, v.unread) == ScanView::Job(job),
        StageView::Read(n) => scan(v.kind, v.unread) == ScanView::Missing(n),
        _ => true,
    }
}

/// Settling gives a valid state.
pub proof fn lemma_settled_valid(kind: UplinkKind, s: Seq<u8>)
    ensures
        uplink_valid(settled(kind, s)),
    decreases s.len(),
{
    lemma_scan_within(kind, s);
    if let ScanView::Skip(end) = scan(kind, s) {
        lemma_settled_valid(kind, s.skip(end as int));
    }
}

/// Every event leaves a valid state.
pub proof fn law_uplink_stays_valid(v: UplinkView, e: UplinkEventView)
    requires
        uplink_valid(v),
    ensures
        uplink_valid(uplink_step(v, e)),
{
    match (v.stage, e) {
        (StageView::Read(_), UplinkEventView::Read(b)) => {
            lemma_settled_valid(v.kind, v.unread + b);
        },
        (StageView::Work(job, _), UplinkEventView::Step(_)) => {
            lemma_settled_valid(v.kind, v.unread.skip(job.end as int));
        },
        (StageView::Sweep, UplinkEventView::Swept) => {
            lemma_settled_valid(v.kind, v.unread);
        },
        _ => {},
    }
}

/// A datagram in a stream.
#[derive(Debug)]
pub struct Job {
    pub assoc: u16,
    pub target: Option<(Host, u16)>,
    pub start: usize,
    pub end: usize,
}

impl View for Job {
    type V = JobView;

    open spec fn view(&self) -> JobView {
        JobView {
            assoc: self.assoc,
            target: match self.target {
                Some(t) => Some((t.0@, t.1)),
                None => None,
            },
            start: self.start as nat,
            end: self.end as nat,
        }
    }
}

/// What a stream holds at its front.
enum Scan {
    Missing(usize),
    Stop,
    Skip(usize),
    Job(Job),
}

impl View for Scan {
    type V = ScanView;

    closed spec fn view(&self) -> ScanView {
        match self {
            Scan::Missing(n) => ScanView::Missing(*n as nat),
            Scan::Stop => ScanView::Stop,
            Scan::Skip(end) => ScanView::Skip(*end as nat),
            Scan::Job(job) => ScanView::Job(job@),
        }
    }
}

/// Looks at the front of a stream.
fn scan_front(kind: UplinkKind, s: &[u8]) -> (r: Scan)
    ensures
        r@ == scan(kind, s@),
{
    let n: usize = s.len();
    match kind {
        UplinkKind::PacketAddr => match read_packet(s, 0) {
            Packet::Missing(k) => Scan::Missing(k),
            Packet::Stop => Scan::Stop,
            Packet::Packet(host, port, start, end) => Scan::Job(
                Job { assoc: 0, target: Some((host, port)), start, end },
            ),
        },
        UplinkKind::Standard => {
            if n < 2 {
                return Scan::Missing(2 - n);
            }
            let len: usize = read_u16(s, 0) as usize;
            if len == 0 {
                return Scan::Stop;
            }
            if n < 2 + len {
                return Scan::Missing(2 + len - n);
            }
            Scan::Job(Job { assoc: 0, target: None, start: 2, end: 2 + len })
        },
        _ => {
            if n < 4 {
                return Scan::Missing(4 - n);
            }
            let head: [u8; 4] = array4(s, 0);
            assert(head@ =~= s@.take(4));
            match read_frame_head(&head) {
                None => Scan::Stop,
                Some((len, assoc)) => {
                    let have: usize = n - 4;
                    if have < len {
                        return Scan::Missing(len - have);
                    }
                    let body: &[u8] = slice_subrange(s, 4, 4 + len);
                    assert(body@ =~= s@.subrange(4, 4 + len));
                    match read_addressed(body, 0) {
                        None => Scan::Skip(4 + len),
                        Some((host, port, start)) => Scan::Job(
                            Job {
                                assoc,
                                target: Some((host, port)),
                                start: 4 + start,
                                end: 4 + len,
                            },
                        ),
                    }
                },
            }
        },
    }
}

/// What is being done with a stream.
#[derive(Debug)]
enum Stage {
    Read(usize),
    Work(Job, Step),
    Sweep,
    Stopped,
}

/// What is to be done outside.
#[derive(Debug, Clone, Copy, PartialEq, Eq)]
pub enum UplinkAction {
    /// Read exactly that many bytes.
    Read(usize),
    /// Take the datagram through a step.
    Step(Step),
    /// Look for idle sessions, if it is time to.
    Sweep,
    /// Nothing more.
    Stop,
}

/// What is to be done outside.
pub open spec fn uplink_action(v: UplinkView) -> UplinkAction {
    match v.stage {
        StageView::Read(n) => UplinkAction::Read(n as usize),
        StageView::Work(_, step) => UplinkAction::Step(step),
        StageView::Sweep => UplinkAction::Sweep,
        StageView::Stopped => UplinkAction::Stop,
    }
}

/// What came of it.
#[derive(Debug)]
pub enum UplinkEvent {
    /// These bytes were read.
    Read(Vec<u8>),
    /// Nothing more can be read.
    Ended,
    /// The datagram has got through its step, or not.
    Step(StepEvent),
    /// Idle sessions were looked for.
    Swept,
}

impl View for UplinkEvent {
    type V = UplinkEventView;

    open spec fn view(&self) -> UplinkEventView {
        match self {
            UplinkEvent::Read(b) => UplinkEventView::Read(b@),
            UplinkEvent::Ended => UplinkEventView::Ended,
            UplinkEvent::Step(e) => UplinkEventView::Step(*e),
            UplinkEvent::Swept => UplinkEventView::Swept,
        }
    }
}

/// A stream that is being read.
pub struct Uplink {
    kind: UplinkKind,
    buf: BytesMut,
    offset: usize,
    stage: Stage,
}

impl View for Uplink {
    type V = UplinkView;

    closed spec fn view(&self) -> UplinkView {
        UplinkView {
            kind: self.kind,
            unread: buffer_view(self.buf).skip(self.offset as int),
            stage: match self.stage {
                Stage::Read(n) => StageView::Read(n as nat),
                Stage::Work(job, step) => StageView::Work(job@, step),
                Stage::Sweep => StageView::Sweep,
                Stage::Stopped => StageView::Stopped,
            },
        }
    }
}

impl Uplink {
    /// Whether the parts agree.
    pub closed spec fn wf(&self) -> bool {
        &&& self.offset <= buffer_view(self.buf).len()
        &&& self@.stage matches StageView::Work(job, _) ==> job_within(job, self@.unread)
    }

    /// A stream that nothing was read of yet.
    pub fn new(kind: UplinkKind) -> (r: Uplink)
        ensures
            r.wf(),
            r@ == settled(kind, Seq::empty()),
    {
        let mut r = Uplink { kind, buf: buffer_new(), offset: 0, stage: Stage::Sweep };
        assert(r@.unread =~= Seq::<u8>::empty());
        r.settle();
        r
    }

    /// What is to be done outside.
    pub fn action(&self) -> (r: UplinkAction)
        ensures
            r == uplink_action(self@),
    {
        match self.stage {
            Stage::Read(n) => UplinkAction::Read(n),
            Stage::Work(_, step) => UplinkAction::Step(step),
            Stage::Sweep => UplinkAction::Sweep,
            Stage::Stopped => UplinkAction::Stop,
        }
    }

    /// The datagram that is being worked on, and its payload.
    pub fn job(&self) -> (r: Option<(&Job, &[u8])>)
        requires
            self.wf(),
        ensures
            match self@.stage {
                StageView::Work(job, _) => r matches Some(p) && p.0@ == job && p.1@
                    == self@.unread.subrange(job.start as int, job.end as int),
                _ => r is None,
            },
    {
        match &self.stage {
            Stage::Work(job, _) => {
                let all: &[u8] = buffer_chunk(&self.buf);
                let total: usize = all.len();
                assert(self.offset + job.end <= total);
                let payload: &[u8] = slice_subrange(
                    all,
                    self.offset + job.start,
                    self.offset + job.end,
                );
                assert(payload@ =~= self@.unread.subrange(job.start as int, job.end as int));
                Some((job, payload))
            },
            _ => None,
        }
    }

    /// Goes to the next datagram, or to where bytes are missing.
    fn settle(&mut self)
        requires
            old(self).offset <= buffer_view(old(self).buf).len(),
        ensures
            final(self).wf(),
            final(self)@ == settled(old(self)@.kind, old(self)@.unread),
    {
        let ghost start = self@;
        loop
            invariant
                self.offset <= buffer_view(self.buf).len(),
                self@.kind == start.kind,
                settled(start.kind, start.unread) == settled(self@.kind, self@.unread),
            ensures
                self.wf(),
                self@ == settled(start.kind, start.unread),
            decreases self@.unread.len(),
        {
            let all: &[u8] = buffer_chunk(&self.buf);
            let unread: &[u8] = slice_subrange(all, self.offset, all.len());
            assert(unread@ =~= self@.unread);
            proof {
                lemma_scan_within(self.kind, self@.unread);
            }
            match scan_front(self.kind, unread) {
                Scan::Missing(n) => {
                    self.stage = Stage::Read(n);
                    break ;
                },
                Scan::Stop => {
                    self.stage = Stage::Stopped;
                    break ;
                },
                Scan::Skip(end) => {
                    self.drop_front(end);
                },
                Scan::Job(job) => {
                    let step: Step = match self.kind {
                        UplinkKind::PacketAddr => Step::Resolve,
                        UplinkKind::Multiplexed => match &job.target {
                            Some((Host::Domain(_), _)) => Step::Resolve,
                            _ => Step::Lookup,
                        },
                        _ => Step::Send,
                    };
                    self.stage = Stage::Work(job, step);
                    break ;
                },
            }
        }
    }

    /// Drops bytes at the front.
    fn drop_front(&mut self, n: usize)
        requires
            old(self).offset + n <= buffer_view(old(self).buf).len(),
        ensures
            final(self).offset <= buffer_view(final(self).buf).len(),
            final(self)@.kind == old(self)@.kind,
            final(self)@.unread == old(self)@.unread.skip(n as int),
            final(self).stage == old(self).stage,
    {
        let ghost before = self@.unread;
        let total: usize = buffer_chunk(&self.buf).len();
        assert(self.offset + n <= total);
        let end: usize = self.offset + n;
        self.offset = finish_packet(&mut self.buf, end);
        assert(self@.unread =~= before.skip(n as int));
    }

    /// Takes note of what came of it. Says how many bytes are to be counted as sent.
    pub fn advance(&mut self, event: UplinkEvent) -> (r: usize)
        requires
            old(self).wf(),
        ensures
            final(self).wf(),
            final(self)@ == uplink_step(old(self)@, event@),
            r == sent_bytes(old(self)@, event@),
    {
        match event {
            UplinkEvent::Ended => {
                self.stage = Stage::Stopped;
                0
            },
            UplinkEvent::Read(b) => {
                if let Stage::Read(_) = self.stage {
                    let ghost before = self@.unread;
                    buffer_put_slice(&mut self.buf, b.as_slice());
                    assert(self@.unread =~= before + b@);
                    self.settle();
                }
                0
            },
            UplinkEvent::Swept => {
                if let Stage::Sweep = self.stage {
                    self.settle();
                }
                0
            },
            UplinkEvent::Step(e) => {
                let (start, end, step): (usize, usize, Step) = match &self.stage {
                    Stage::Work(job, step) => (job.start, job.end, *step),
                    _ => {
                        return 0;
                    },
                };
                match next(step, e) {
                    Next::Go(to) => {
                        self.set_step(to);
                        0
                    },
                    Next::Drop => {
                        self.drop_front(end);
                        self.settle();
                        0
                    },
                    Next::Finish(ok) => {
                        self.drop_front(end);
                        if self.keeps_sessions() {
                            self.stage = Stage::Sweep;
                        } else {
                            self.settle();
                        }
                        if ok {
                            end - start
                        } else {
                            0
                        }
                    },
                }
            },
        }
    }

    /// Takes the datagram to another step.
    fn set_step(&mut self, to: Step)
        requires
            old(self).wf(),
            old(self)@.stage is Work,
        ensures
            final(self).wf(),
            final(self)@ == (UplinkView {
                stage: StageView::Work(old(self)@.stage->Work_0, to),
                ..old(self)@
            }),
    {
        if let Stage::Work(_, step) = &mut self.stage {
            *step = to;
        }
    }

    /// Whether the datagrams of the stream have sessions.
    fn keeps_sessions(&self) -> (r: bool)
        ensures
            r == has_sessions(self@.kind),
    {
        match self.kind {
            UplinkKind::PacketAddr => true,
            UplinkKind::Multiplexed => true,
            UplinkKind::Standard => false,
            UplinkKind::Messages => false,
        }
    }
}

/// Where a stream has a datagram, settling it leads to the first one; where it has none, to
/// where bytes are missing or to where it makes no sense.
pub proof fn lemma_settled_first(kind: UplinkKind, s: Seq<u8>)
    ensures
        ({
            let x = settled(kind, s);
            let ds = datagrams(kind, s);
            &&& x.kind == kind
            &&& ds.len() > 0 ==> (x.stage matches StageView::Work(job, _) && job.assoc
                == ds[0].assoc && job.target == ds[0].target && x.unread.subrange(
                job.start as int,
                job.end as int,
            ) == ds[0].payload)
            &&& ds.len() == 0 ==> x.stage is Read || x.stage is Stopped
            &&& x.stage matches StageView::Read(n) ==> scan(kind, x.unread) == ScanView::Missing(n)
            &&& x.stage is Stopped ==> scan(kind, x.unread) is Stop
        }),
    decreases s.len(),
{
    lemma_scan_within(kind, s);
    match scan(kind, s) {
        ScanView::Skip(end) => {
            lemma_settled_first(kind, s.skip(end as int));
        },
        ScanView::Job(job) => {
            let rest = datagrams(kind, s.skip(job.end as int));
            let d = DatagramView {
                assoc: job.assoc,
                target: job.target,
                payload: s.subrange(job.start as int, job.end as int),
            };
            assert(datagrams(kind, s) == seq![d] + rest);
            assert((seq![d] + rest)[0] == d);
        },
        _ => {},
    }
}

/// A datagram that could not be resolved, could not get a session or could not be sent is the
/// only one that is lost: whatever came of it, the stream goes on with the next datagram, or
/// asks for the bytes that are missing. It stops only where what is left makes no sense.
#[verifier::rlimit(40)]
pub proof fn law_stream_goes_on(v: UplinkView, e: StepEvent)
    requires
        uplink_valid(v),
        v.stage is Work,
        ({
            let step = v.stage->Work_1;
            ||| step == Step::Resolve && e == StepEvent::Resolved(false)
            ||| step == Step::Open && e == StepEvent::Opened(false)
            ||| step == Step::Send && e == StepEvent::Sent(false)
            ||| step == Step::Send && e == StepEvent::Sent(true)
        }),
    ensures
        ({
            let left = v.unread.skip((v.stage->Work_0).end as int);
            let ds = datagrams(v.kind, left);
            let w = uplink_step(v, UplinkEventView::Step(e));
            let x = if w.stage is Sweep {
                uplink_step(w, UplinkEventView::Swept)
            } else {
                w
            };
            &&& x.kind == v.kind
            &&& pending(x) == ds
            &&& ds.len() > 0 ==> (x.stage matches StageView::Work(job, _) && job.assoc
                == ds[0].assoc && job.target == ds[0].target && x.unread.subrange(
                job.start as int,
                job.end as int,
            ) == ds[0].payload)
            &&& ds.len() == 0 ==> x.stage is Read || x.stage is Stopped
            &&& x.stage matches StageView::Read(n) ==> scan(v.kind, x.unread)
                == ScanView::Missing(n)
            &&& x.stage is Stopped ==> scan(v.kind, x.unread) is Stop
        }),
{
    let left = v.unread.skip((v.stage->Work_0).end as int);
    lemma_settled_first(v.kind, left);
    lemma_settled_keeps_datagrams(v.kind, left);
}

/// What a datagram begins with: a name is looked up before anything else is done; an address in
/// a frame, and a destination that was given for the whole stream, need no lookup.
pub proof fn law_names_are_looked_up_first(kind: UplinkKind, s: Seq<u8>)
    ensures
        settled(kind, s).stage matches StageView::Work(job, step) ==> {
            &&& kind == UplinkKind::PacketAddr ==> step == Step::Resolve
            &&& kind == UplinkKind::Multiplexed && (job.target matches Some(
                (HostView::Domain(_), _),
            )) ==> step == Step::Resolve
            &&& kind == UplinkKind::Multiplexed && (job.target matches Some((HostView::Ip(_), _)))
                ==> step == Step::Lookup
            &&& kind == UplinkKind::Standard ==> step == Step::Send
            &&& kind == UplinkKind::Messages ==> step == Step::Send
        },
    decreases s.len(),
{
    lemma_scan_within(kind, s);
    if let ScanView::Skip(end) = scan(kind, s) {
        law_names_are_looked_up_first(kind, s.skip(end as int));
    }
}

/// A datagram whose host has an address is sent, over the session that it has or over one that
/// is opened for it; otherwise it is given up.
pub proof fn law_datagram_is_sent_or_given_up()
    ensures
        next_of(Step::Resolve, StepEvent::Resolved(true)) == Next::Go(Step::Lookup),
        next_of(Step::Resolve, StepEvent::Resolved(false)) == Next::Drop,
        next_of(Step::Lookup, StepEvent::Known(true)) == Next::Go(Step::Send),
        next_of(Step::Lookup, StepEvent::Known(false)) == Next::Go(Step::Open),
        next_of(Step::Open, StepEvent::Opened(true)) == Next::Go(Step::Send),
        next_of(Step::Open, StepEvent::Opened(false)) == Next::Drop,
        next_of(Step::Send, StepEvent::Sent(true)) == Next::Finish(true),
        next_of(Step::Send, StepEvent::Sent(false)) == Next::Finish(false),
{
}

/// The stream after a run of events.
pub open spec fn uplink_run(v: UplinkView, events: Seq<UplinkEventView>) -> UplinkView
    decreases events.len(),
{
    if events.len() == 0 {
        v
    } else {
        uplink_step(uplink_run(v, events.drop_last()), events.last())
    }
}

/// Whether a stream is at its turn: what is still to be done with is the end of `ds`, and while
/// there is something, its first datagram is being worked on, or idle sessions are being looked
/// for.
pub open spec fn at_its_turn(w: UplinkView, ds: Seq<DatagramView>) -> bool {
    let left = pending(w);
    &&& uplink_valid(w)
    &&& left.len() <= ds.len()
    &&& left == ds.skip(ds.len() - left.len())
    &&& left.len() > 0 && w.stage !is Sweep ==> (w.stage matches StageView::Work(job, _)
        && job.assoc == left[0].assoc && job.target == left[0].target && w.unread.subrange(
        job.start as int,
        job.end as int,
    ) == left[0].payload)
}

/// A stream that settles is at its turn.
proof fn lemma_settled_at_turn(kind: UplinkKind, s: Seq<u8>, ds: Seq<DatagramView>)
    requires
        datagrams(kind, s).len() <= ds.len(),
        datagrams(kind, s) == ds.skip(ds.len() - datagrams(kind, s).len()),
    ensures
        at_its_turn(settled(kind, s), ds),
{
    lemma_settled_first(kind, s);
    lemma_settled_keeps_datagrams(kind, s);
    lemma_settled_valid(kind, s);
}

/// A datagram that is done with makes room for the next one.
#[verifier::rlimit(40)]
proof fn lemma_turn_passes(v: UplinkView, x: StepEvent, ds: Seq<DatagramView>)
    requires
        at_its_turn(v, ds),
        v.stage is Work,
    ensures
        at_its_turn(uplink_step(v, UplinkEventView::Step(x)), ds),
{
    let e = UplinkEventView::Step(x);
    let job = v.stage->Work_0;
    let step = v.stage->Work_1;
    let before = pending(v);
    law_uplink_stays_valid(v, e);
    law_datagrams_done_in_order(v, x);
    if next_of(step, x) is Go {
        lemma_work_at_first(v);
    } else {
        lemma_work_at_first(v);
        let rest = v.unread.skip(job.end as int);
        lemma_settled_keeps_datagrams(v.kind, rest);
        assert(before.drop_first() =~= ds.skip(ds.len() - (before.len() - 1)));
        assert(datagrams(v.kind, rest) == before.drop_first()) by {
            lemma_done_first(v);
        }
        lemma_settled_at_turn(v.kind, rest, ds);
    }
}

/// What is behind the datagram that is being worked on is what is to be done with after it.
proof fn lemma_done_first(v: UplinkView)
    requires
        uplink_valid(v),
        v.stage is Work,
    ensures
        datagrams(v.kind, v.unread.skip((v.stage->Work_0).end as int)) == pending(v).drop_first(),
{
    let job = v.stage->Work_0;
    lemma_scan_within(v.kind, v.unread);
    let rest = datagrams(v.kind, v.unread.skip(job.end as int));
    let d = DatagramView {
        assoc: job.assoc,
        target: job.target,
        payload: v.unread.subrange(job.start as int, job.end as int),
    };
    assert(pending(v) == seq![d] + rest);
    assert((seq![d] + rest).drop_first() =~= rest);
}

/// Every datagram of a stream gets its turn, in order, whatever came of those before it: as
/// long as the stream does not end, what is still to be done with is always the end of what
/// there was, and while there is something, its first datagram is being worked on, or idle
/// sessions are being looked for.
pub proof fn law_every_datagram_gets_its_turn(
    kind: UplinkKind,
    s: Seq<u8>,
    events: Seq<UplinkEventView>,
)
    requires
        forall|i: int| 0 <= i < events.len() ==> #[trigger] events[i] is Step || events[i] is Swept,
    ensures
        at_its_turn(uplink_run(settled(kind, s), events), datagrams(kind, s)),
    decreases events.len(),
{
    let ds = datagrams(kind, s);
    if events.len() == 0 {
        assert(ds.skip(0) =~= ds);
        lemma_settled_at_turn(kind, s, ds);
    } else {
        let front = events.drop_last();
        assert forall|i: int| 0 <= i < front.len() implies #[trigger] front[i] is Step
            || front[i] is Swept by {
            assert(front[i] == events[i]);
        }
        law_every_datagram_gets_its_turn(kind, s, front);
        let v = uplink_run(settled(kind, s), front);
        let e = events.last();
        assert(events[events.len() - 1] == e);
        lemma_turn_kept(v, e, ds);
    }
}

#[verifier::rlimit(40)]
proof fn lemma_turn_kept(v: UplinkView, e: UplinkEventView, ds: Seq<DatagramView>)
    requires
        at_its_turn(v, ds),
        e is Step || e is Swept,
    ensures
        at_its_turn(uplink_step(v, e), ds),
{
    match (v.stage, e) {
        (StageView::Work(_, _), UplinkEventView::Step(x)) => {
            lemma_turn_passes(v, x, ds);
        },
        (StageView::Sweep, UplinkEventView::Swept) => {
            lemma_settled_at_turn(v.kind, v.unread, ds);
        },
        _ => {
            assert(uplink_step(v, e) == v);
        },
    }
}

/// The datagram that is being worked on is the first one of those that are still to be done
/// with.
pub proof fn lemma_work_at_first(v: UplinkView)
    requires
        uplink_valid(v),
        v.stage is Work,
    ensures
        ({
            let job = v.stage->Work_0;
            &&& pending(v).len() > 0
            &&& job.assoc == pending(v)[0].assoc
            &&& job.target == pending(v)[0].target
            &&& v.unread.subrange(job.start as int, job.end as int) == pending(v)[0].payload
        }),
{
    let job = v.stage->Work_0;
    lemma_scan_within(v.kind, v.unread);
    let rest = datagrams(v.kind, v.unread.skip(job.end as int));
    let d = DatagramView {
        assoc: job.assoc,
        target: job.target,
        payload: v.unread.subrange(job.start as int, job.end as int),
    };
    assert(pending(v) == seq![d] + rest);
    assert((seq![d] + rest)[0] == d);
}

/// What is counted as sent is the payload of the datagram that was sent, once, and nothing for
/// any other event.
pub proof fn law_counted_is_what_was_sent(v: UplinkView, e: UplinkEventView)
    requires
        uplink_valid(v),
    ensures
        v.stage is Work && v.stage->Work_1 == Step::Send && e == UplinkEventView::Step(
            StepEvent::Sent(true),
        ) ==> sent_bytes(v, e) == pending(v)[0].payload.len(),
        sent_bytes(v, e) > 0 ==> v.stage is Work && v.stage->Work_1 == Step::Send && e
            == UplinkEventView::Step(StepEvent::Sent(true)),
{
    if v.stage is Work {
        lemma_work_at_first(v);
        lemma_scan_within(v.kind, v.unread);
    }
}

/// A frame that names no target is passed over, and nothing else: one whose address has a type
/// that is not known, does not fit the frame, or is a name that is not UTF-8.
#[verifier::rlimit(40)]
pub proof fn law_frame_without_target_is_passed_over(
    kind: UplinkKind,
    assoc: u16,
    body: Seq<u8>,
    rest: Seq<u8>,
)
    requires
        kind == UplinkKind::Multiplexed || kind == UplinkKind::Messages,
        body.len() <= 65533,
        ({
            ||| body.len() == 0
            ||| body[0] != 1 && body[0] != 3 && body[0] != 4
            ||| body[0] == 1 && body.len() < 7
            ||| body[0] == 4 && body.len() < 19
            ||| body[0] == 3 && (body.len() < 2 || body.len() < 4 + body[1])
            ||| body[0] == 3 && !valid_utf8(body.subrange(2, 2 + body[1]))
        }),
    ensures
        ({
            let total = body.len() + 2;
            let frame = seq![
                (total / 256) as u8,
                (total % 256) as u8,
                (assoc / 256) as u8,
                (assoc % 256) as u8,
            ] + body;
            &&& datagrams(kind, frame + rest) == datagrams(kind, rest)
            &&& settled(kind, frame + rest) == settled(kind, rest)
        }),
{
    let total = body.len() + 2;
    let frame = seq![
        (total / 256) as u8,
        (total % 256) as u8,
        (assoc / 256) as u8,
        (assoc % 256) as u8,
    ] + body;
    let s = frame + rest;
    assert(s.take(4)[0] == s[0] && s.take(4)[1] == s[1]);
    assert(u16_at(s.take(4), 0) == total);
    assert(s.subrange(4, frame.len() as int) =~= body);
    assert(s.skip(frame.len() as int) =~= rest);
    assert(scan(kind, s) == ScanView::Skip(frame.len()));
}

/// A stream ends where its next frame cannot be one: a frame that is too short for the number
/// of an association, a payload of no bytes, an address of an unknown type.
pub proof fn law_stream_ends(kind: UplinkKind, s: Seq<u8>)
    requires
        match kind {
            UplinkKind::PacketAddr => s.len() >= 1 && s[0] != 1 && s[0] != 3 && s[0] != 4,
            UplinkKind::Standard => s.len() >= 2 && s[0] == 0 && s[1] == 0,
            _ => s.len() >= 4 && s[0] == 0 && s[1] < 2,
        },
    ensures
        datagrams(kind, s) == Seq::<DatagramView>::empty(),
        settled(kind, s).stage is Stopped,
{
    if s.len() >= 4 {
        assert(s.take(4)[0] == s[0] && s.take(4)[1] == s[1]);
    }
}

/// What is found at the front of a stream is found the same when more bytes have come.
#[verifier::rlimit(40)]
pub proof fn law_found_needs_no_more(kind: UplinkKind, s: Seq<u8>, t: Seq<u8>)
    requires
        scan(kind, s) !is Missing,
    ensures
        scan(kind, s + t) == scan(kind, s),
{
    let u = s + t;
    assert(forall|i: int| 0 <= i < s.len() ==> u[i] == s[i]);
    match kind {
        UplinkKind::PacketAddr => {
            if packet_at(s, 0) is Packet {
                lemma_packet_needs_no_more(s, t);
            } else {
                if s.len() >= 2 {
                    let end = 2 + s[1] as int;
                    assert(u.subrange(2, end) =~= s.subrange(2, end) || s.len() < end);
                }
            }
        },
        UplinkKind::Standard => {},
        _ => {
            assert(u.take(4) =~= s.take(4));
            if let Some((len, _)) = frame_head(s.take(4)) {
                let end = 4 + len as int;
                assert(u.subrange(4, end) =~= s.subrange(4, end) || s.len() < end);
            }
        },
    }
}

/// It does not matter in which pieces a stream is read: two reads lead where one read of both
/// leads.
pub proof fn law_stream_in_pieces(v: UplinkView, a: Seq<u8>, b: Seq<u8>)
    requires
        v.stage is Read,
        uplink_step(v, UplinkEventView::Read(a)).stage is Read,
    ensures
        uplink_step(uplink_step(v, UplinkEventView::Read(a)), UplinkEventView::Read(b))
            == uplink_step(v, UplinkEventView::Read(a + b)),
{
    lemma_settled_in_pieces(v.kind, v.unread + a, b);
    assert(v.unread + a + b =~= v.unread + (a + b));
}

proof fn lemma_settled_in_pieces(kind: UplinkKind, s: Seq<u8>, b: Seq<u8>)
    requires
        settled(kind, s).stage is Read,
    ensures
        settled(kind, settled(kind, s).unread + b) == settled(kind, s + b),
        settled(kind, s).kind == kind,
    decreases s.len(),
{
    lemma_scan_within(kind, s);
    if let ScanView::Skip(end) = scan(kind, s) {
        law_found_needs_no_more(kind, s, b);
        lemma_settled_in_pieces(kind, s.skip(end as int), b);
        assert((s + b).skip(end as int) =~= s.skip(end as int) + b);
    }
}

/// No more is asked for than the datagram has: from any beginning of it, a number of bytes is
/// missing that is still to come of that datagram.
#[verifier::rlimit(40)]
pub proof fn law_no_more_is_asked_for(kind: UplinkKind, d: DatagramView, cut: int)
    requires
        datagram_fits(kind, d),
        0 <= cut < datagram_bytes(kind, d).len(),
    ensures
        settled(kind, datagram_bytes(kind, d).take(cut)).stage matches StageView::Read(n) && 0 < n
            && cut + n <= datagram_bytes(kind, d).len(),
{
    let b = datagram_bytes(kind, d);
    let s = b.take(cut);
    match kind {
        UplinkKind::PacketAddr => {
            let empty = Seq::<u8>::empty();
            assert(empty + b =~= b);
            law_packet_round_trip(
                empty,
                (d.target->0).0,
                (d.target->0).1,
                d.payload,
                cut,
            );
        },
        UplinkKind::Standard => {
            if cut >= 2 {
                let n = low16(d.payload.len());
                assert(b =~= Seq::<u8>::empty() + be16(n) + d.payload);
                lemma_u16_between(Seq::empty(), n, d.payload);
                assert(s[0] == b[0] && s[1] == b[1]);
            }
        },
        _ => {
            if cut >= 4 {
                law_frame_round_trip(d.assoc, (d.target->0).0, (d.target->0).1, d.payload);
                assert(s.take(4) =~= b.take(4));
            }
        },
    }
}

/// Idle sessions are looked for behind each datagram that was tried to be sent, where there are
/// sessions; streams without sessions go straight on.
pub proof fn law_sessions_are_looked_after(v: UplinkView, ok: bool)
    requires
        v.stage is Work,
        v.stage->Work_1 == Step::Send,
    ensures
        ({
            let w = uplink_step(v, UplinkEventView::Step(StepEvent::Sent(ok)));
            let sessions = v.kind == UplinkKind::PacketAddr || v.kind == UplinkKind::Multiplexed;
            &&& sessions ==> uplink_action(w) == UplinkAction::Sweep && w.unread == v.unread.skip(
                (v.stage->Work_0).end as int,
            )
            &&& !sessions ==> uplink_action(w) != UplinkAction::Sweep
        }),
{
    let left = v.unread.skip((v.stage->Work_0).end as int);
    lemma_settled_first(v.kind, left);
}

/// What is read is added to what there was: the datagrams of both together are to be done with.
/// When nothing more can be read, nothing more is done.
pub proof fn law_what_is_read_counts(v: UplinkView, b: Seq<u8>)
    ensures
        v.stage is Read ==> pending(uplink_step(v, UplinkEventView::Read(b))) == datagrams(
            v.kind,
            v.unread + b,
        ),
        uplink_action(uplink_step(v, UplinkEventView::Ended)) == UplinkAction::Stop,
        uplink_action(settled(v.kind, v.unread)) == UplinkAction::Stop ==> scan(
            v.kind,
            settled(v.kind, v.unread).unread,
        ) is Stop,
{
    lemma_settled_keeps_datagrams(v.kind, v.unread + b);
    lemma_settled_first(v.kind, v.unread);
}

/// A datagram goes from step to step without being changed or lost: until it is sent or given
/// up, the same datagram is being worked on and nothing of the stream is dropped.
pub proof fn law_steps_keep_the_datagram(v: UplinkView, e: StepEvent)
    requires
        v.stage is Work,
        ({
            let step = v.stage->Work_1;
            ||| step == Step::Resolve && e == StepEvent::Resolved(true)
            ||| step == Step::Lookup && e is Known
            ||| step == Step::Open && e == StepEvent::Opened(true)
        }),
    ensures
        ({
            let w = uplink_step(v, UplinkEventView::Step(e));
            &&& w.unread == v.unread
            &&& w.kind == v.kind
            &&& w.stage is Work
            &&& w.stage->Work_0 == v.stage->Work_0
            &&& uplink_action(w) == UplinkAction::Step(
                if e is Resolved {
                    Step::Lookup
                } else if e == StepEvent::Known(false) {
                    Step::Open
                } else {
                    Step::Send
                },
            )
        }),
{
}

/// A name that is not UTF-8 ends a stream of datagrams with addresses.
pub proof fn law_bad_name_ends_the_stream(s: Seq<u8>)
    requires
        s.len() >= 2,
        s[0] == 3,
        s.len() >= 4 + s[1],
        !valid_utf8(s.subrange(2, 2 + s[1])),
    ensures
        settled(UplinkKind::PacketAddr, s).stage is Stopped,
{
}

/// What is to be done with a stream, and what came of it, are told as they are.
pub proof fn law_uplink_is_told(v: UplinkView, job: Job, n: usize, step: Step, b: Vec<u8>)
    ensures
        v.stage == StageView::Read(n as nat) ==> uplink_action(v) == UplinkAction::Read(n),
        v.stage == StageView::Work(job@, step) ==> uplink_action(v) == UplinkAction::Step(step),
        v.stage is Sweep ==> uplink_action(v) == UplinkAction::Sweep,
        v.stage is Stopped ==> uplink_action(v) == UplinkAction::Stop,
        job@.assoc == job.assoc && job@.start == job.start && job@.end == job.end,
        job.target matches Some(t) ==> job@.target == Some((t.0@, t.1)),
        job.target is None ==> job@.target is None,
        UplinkEvent::Read(b)@ == UplinkEventView::Read(b@),
        UplinkEvent::Ended@ == UplinkEventView::Ended,
        UplinkEvent::Swept@ == UplinkEventView::Swept,
{
}

/// Which datagrams a stream can have: with a target of their own where they have an address,
/// without one where all have the same, and with as much payload as their length can tell.
pub proof fn law_datagrams_that_fit(d: DatagramView, host: HostView, port: u16)
    ensures
        d.target == Some((host, port)) && d.assoc == 0 ==> (datagram_fits(
            UplinkKind::PacketAddr,
            d,
        ) <==> host_fits(host) && d.payload.len() <= 65535),
        d.target == Some((host, port)) ==> (datagram_fits(UplinkKind::Multiplexed, d) <==> frame_fits(
            host,
            d.payload,
        )) && (datagram_fits(UplinkKind::Messages, d) <==> frame_fits(host, d.payload)),
        d.target is None && d.assoc == 0 ==> (datagram_fits(UplinkKind::Standard, d) <==> 0
            < d.payload.len() <= 65535),
{
}

} // verus!
