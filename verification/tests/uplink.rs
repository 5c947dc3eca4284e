use target_core::net::{Host, IpAddress};
use target_core::outbound::uplink::{
    next, Next, Step, StepEvent, Uplink, UplinkAction, UplinkEvent, UplinkKind,
};

fn read(n: usize) -> UplinkAction {
    UplinkAction::Read(n)
}

fn step(s: Step) -> UplinkAction {
    UplinkAction::Step(s)
}

fn got(b: &[u8]) -> UplinkEvent {
    UplinkEvent::Read(b.to_vec())
}

fn came(e: StepEvent) -> UplinkEvent {
    UplinkEvent::Step(e)
}

#[test]
fn datagrams_go_through_their_steps() {
    assert_eq!(next(Step::Resolve, StepEvent::Resolved(true)), Next::Go(Step::Lookup));
    assert_eq!(next(Step::Resolve, StepEvent::Resolved(false)), Next::Drop);
    assert_eq!(next(Step::Lookup, StepEvent::Known(true)), Next::Go(Step::Send));
    assert_eq!(next(Step::Lookup, StepEvent::Known(false)), Next::Go(Step::Open));
    assert_eq!(next(Step::Open, StepEvent::Opened(true)), Next::Go(Step::Send));
    assert_eq!(next(Step::Open, StepEvent::Opened(false)), Next::Drop);
    assert_eq!(next(Step::Send, StepEvent::Sent(true)), Next::Finish(true));
    assert_eq!(next(Step::Send, StepEvent::Sent(false)), Next::Finish(false));
    assert_eq!(next(Step::Send, StepEvent::Known(true)), Next::Go(Step::Send));
}

#[test]
fn datagrams_with_addresses_are_resolved_and_sent() {
    let mut up = Uplink::new(UplinkKind::PacketAddr);
    assert_eq!(up.action(), read(1));
    assert!(up.job().is_none());
    up.advance(got(&[1]));
    assert_eq!(up.action(), read(6));
    up.advance(got(&[9, 8, 7, 6, 0, 53]));
    assert_eq!(up.action(), read(2));
    up.advance(got(&[0, 3]));
    assert_eq!(up.action(), read(3));
    up.advance(got(&[1, 2, 3]));
    assert_eq!(up.action(), step(Step::Resolve));
    {
        let (job, payload) = up.job().unwrap();
        assert_eq!(job.assoc, 0);
        match &job.target {
            Some((Host::Ip(IpAddress::V4(o)), 53)) => assert_eq!(*o, [9, 8, 7, 6]),
            _ => panic!("another target"),
        }
        assert_eq!(payload, &[1, 2, 3]);
    }
    assert_eq!(up.advance(came(StepEvent::Resolved(true))), 0);
    assert_eq!(up.action(), step(Step::Lookup));
    assert_eq!(up.advance(came(StepEvent::Known(false))), 0);
    assert_eq!(up.action(), step(Step::Open));
    assert_eq!(up.advance(came(StepEvent::Opened(true))), 0);
    assert_eq!(up.action(), step(Step::Send));
    assert_eq!(up.advance(came(StepEvent::Sent(true))), 3);
    assert_eq!(up.action(), UplinkAction::Sweep);
    assert_eq!(up.advance(UplinkEvent::Swept), 0);
    assert_eq!(up.action(), read(1));
    up.advance(UplinkEvent::Ended);
    assert_eq!(up.action(), UplinkAction::Stop);
}

#[test]
fn datagrams_without_an_address_are_dropped() {
    let mut up = Uplink::new(UplinkKind::PacketAddr);
    up.advance(got(&[3, 1, 97, 0, 80, 0, 1, 5, 1]));
    assert_eq!(up.action(), step(Step::Resolve));
    assert_eq!(up.advance(came(StepEvent::Resolved(false))), 0);
    assert_eq!(up.action(), read(6));
    let mut up = Uplink::new(UplinkKind::PacketAddr);
    up.advance(got(&[9]));
    assert_eq!(up.action(), UplinkAction::Stop);
}

#[test]
fn frames_go_by_association() {
    let mut up = Uplink::new(UplinkKind::Multiplexed);
    assert_eq!(up.action(), read(4));
    up.advance(got(&[0, 10, 1, 2]));
    assert_eq!(up.action(), read(8));
    up.advance(got(&[1, 9, 9, 9, 9, 0, 53, 7]));
    // An address in the frame needs no lookup of its host.
    assert_eq!(up.action(), step(Step::Lookup));
    {
        let (job, payload) = up.job().unwrap();
        assert_eq!(job.assoc, 0x0102);
        assert_eq!(payload, &[7]);
    }
    assert_eq!(up.advance(came(StepEvent::Known(true))), 0);
    assert_eq!(up.advance(came(StepEvent::Sent(false))), 0);
    assert_eq!(up.action(), UplinkAction::Sweep);
    up.advance(UplinkEvent::Swept);
    assert_eq!(up.action(), read(4));
}

#[test]
fn frames_without_a_target_are_passed_over() {
    let mut up = Uplink::new(UplinkKind::Multiplexed);
    // The first frame holds one byte behind its association, which is no address.
    up.advance(got(&[0, 3, 0, 1, 9, 0, 9, 0, 2, 3, 1, 97, 0, 80, 4, 4]));
    assert_eq!(up.action(), step(Step::Resolve));
    let (job, payload) = up.job().unwrap();
    assert_eq!(job.assoc, 2);
    match &job.target {
        Some((Host::Domain(d), 80)) => assert_eq!(d, "a"),
        _ => panic!("another target"),
    }
    assert_eq!(payload, &[4, 4]);
}

#[test]
fn frames_too_short_end_the_stream() {
    let mut up = Uplink::new(UplinkKind::Messages);
    up.advance(got(&[0, 1, 0, 0]));
    assert_eq!(up.action(), UplinkAction::Stop);
}

#[test]
fn messages_are_sent_at_once() {
    let mut up = Uplink::new(UplinkKind::Messages);
    up.advance(got(&[0, 10, 0, 9, 1, 1, 1, 1, 1, 0, 53, 7]));
    assert_eq!(up.action(), step(Step::Send));
    assert_eq!(up.advance(came(StepEvent::Sent(true))), 1);
    assert_eq!(up.action(), read(4));
}

#[test]
fn payloads_are_sent_one_by_one() {
    let mut up = Uplink::new(UplinkKind::Standard);
    assert_eq!(up.action(), read(2));
    up.advance(got(&[0, 2, 5, 6, 0, 1, 7, 0, 0]));
    assert_eq!(up.action(), step(Step::Send));
    assert_eq!(up.job().unwrap().1, &[5, 6]);
    assert!(up.job().unwrap().0.target.is_none());
    assert_eq!(up.advance(came(StepEvent::Sent(true))), 2);
    assert_eq!(up.job().unwrap().1, &[7]);
    assert_eq!(up.advance(came(StepEvent::Sent(false))), 0);
    assert_eq!(up.action(), UplinkAction::Stop);
}

#[test]
fn long_streams_keep_their_place() {
    let mut up = Uplink::new(UplinkKind::Standard);
    let mut frame: Vec<u8> = vec![0x4e, 0x20];
    frame.resize(20002, 3);
    for _ in 0..4 {
        up.advance(got(&frame));
        assert_eq!(up.job().unwrap().1.len(), 20000);
        assert_eq!(up.advance(came(StepEvent::Sent(true))), 20000);
        assert_eq!(up.action(), read(2));
    }
}
