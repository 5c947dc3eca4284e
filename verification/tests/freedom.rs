use target_core::outbound::freedom::{FreedomOutbound, Pump, PumpAction, PumpEvent};
use target_core::outbound::BlackholeOutbound;

#[test]
fn pump_carries_bytes_until_the_source_closes() {
    let mut p = Pump::new();
    assert_eq!(p.action(), PumpAction::Fill(65536));
    p.advance(PumpEvent::Moved(1000));
    assert_eq!(p.action(), PumpAction::Drain(1000));
    p.advance(PumpEvent::Moved(400));
    assert_eq!(p.action(), PumpAction::Fill(64936));
    p.advance(PumpEvent::Again);
    assert_eq!(p.action(), PumpAction::Drain(600));
    p.advance(PumpEvent::Again);
    assert_eq!(p.action(), PumpAction::Sleep(5));
    p.advance(PumpEvent::Woke);
    assert_eq!(p.action(), PumpAction::Fill(64936));
    p.advance(PumpEvent::Moved(0));
    assert_eq!(p.action(), PumpAction::Shutdown);
    p.advance(PumpEvent::Woke);
    assert_eq!(p.action(), PumpAction::Drain(600));
    p.advance(PumpEvent::Again);
    assert_eq!(p.action(), PumpAction::Sleep(2));
    p.advance(PumpEvent::Woke);
    assert_eq!(p.action(), PumpAction::Drain(600));
    p.advance(PumpEvent::Moved(600));
    assert_eq!(p.action(), PumpAction::Report(1000));
    p.advance(PumpEvent::Woke);
    assert_eq!(p.action(), PumpAction::Report(1000));
}

#[test]
fn full_pipe_is_not_filled() {
    let mut p = Pump::new();
    p.advance(PumpEvent::Moved(65536));
    assert_eq!(p.action(), PumpAction::Drain(65536));
    p.advance(PumpEvent::Again);
    assert_eq!(p.action(), PumpAction::Drain(65536));
    p.advance(PumpEvent::Again);
    assert_eq!(p.action(), PumpAction::Sleep(5));
}

#[test]
fn idle_pump_rests() {
    let mut p = Pump::new();
    p.advance(PumpEvent::Again);
    assert_eq!(p.action(), PumpAction::Sleep(5));
    p.advance(PumpEvent::Woke);
    assert_eq!(p.action(), PumpAction::Fill(65536));
    p.advance(PumpEvent::Failed);
    assert_eq!(p.action(), PumpAction::Shutdown);
    p.advance(PumpEvent::Woke);
    assert_eq!(p.action(), PumpAction::Report(0));
}

#[test]
fn failing_sink_ends_the_pump() {
    let mut p = Pump::new();
    p.advance(PumpEvent::Moved(10));
    p.advance(PumpEvent::Failed);
    assert_eq!(p.action(), PumpAction::Shutdown);
    p.advance(PumpEvent::Woke);
    assert_eq!(p.action(), PumpAction::Drain(10));
    p.advance(PumpEvent::Failed);
    assert_eq!(p.action(), PumpAction::Report(0));
}

#[test]
fn outbounds_keep_what_they_are_made_of() {
    let f = FreedomOutbound::new(None, Some("10.0.0.1".to_string()));
    assert_eq!(f.outbound_proxy, None);
    assert_eq!(f.bind_address, Some("10.0.0.1".to_string()));
    let _ = BlackholeOutbound::new();
}
