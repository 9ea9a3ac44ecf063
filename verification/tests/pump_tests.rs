use livestream_sfu::pump::{pump_step, run_pump, PumpAction, PumpEvent};

#[test]
fn every_packet_read_is_forwarded_in_order() {
    let events: Vec<PumpEvent<u64>> = vec![
        PumpEvent::Packet(10),
        PumpEvent::Tick { peer_alive: true },
        PumpEvent::Packet(11),
        PumpEvent::Packet(12),
        PumpEvent::ReadClosed,
        PumpEvent::Packet(13),
    ];
    let log = run_pump(777, events);
    assert_eq!(log.forwarded, vec![10, 11, 12]);
    assert_eq!(log.plis, 1);
}

#[test]
fn tick_sends_a_pli_with_the_remote_ssrc() {
    let step = pump_step::<u64>(424242, PumpEvent::Tick { peer_alive: true });
    match step.action {
        PumpAction::SendPli { sender_ssrc, media_ssrc } => {
            assert_eq!(sender_ssrc, 0);
            assert_eq!(media_ssrc, 424242);
        },
        _ => panic!("a tick with a live peer must request a keyframe"),
    }
    assert!(!step.done);
}

#[test]
fn dead_peer_reference_ends_the_pump() {
    let events: Vec<PumpEvent<u64>> =
        vec![PumpEvent::Tick { peer_alive: false }, PumpEvent::Packet(1)];
    let log = run_pump(1, events);
    assert!(log.forwarded.is_empty());
    assert_eq!(log.plis, 0);
}

#[test]
fn closed_pipe_ends_the_pump_cleanly() {
    let events: Vec<PumpEvent<u64>> = vec![
        PumpEvent::Packet(5),
        PumpEvent::WriteClosed,
        PumpEvent::Packet(6),
        PumpEvent::Tick { peer_alive: true },
    ];
    let log = run_pump(2, events);
    assert_eq!(log.forwarded, vec![5]);
    assert_eq!(log.plis, 0);
}

#[test]
fn remote_read_end_ends_the_pump() {
    let events: Vec<PumpEvent<u64>> = vec![PumpEvent::ReadClosed];
    let log = run_pump(3, events);
    assert!(log.forwarded.is_empty());
    assert_eq!(log.plis, 0);
}
