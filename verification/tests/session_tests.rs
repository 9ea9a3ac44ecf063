use livestream_sfu::messages::{encode_ice_candidate, IceCandidate};
use livestream_sfu::session::{run_session, session_step, SessionAction, WireEvent};

fn chars(s: &str) -> Vec<char> {
    s.chars().collect()
}

fn candidate(n: u16) -> IceCandidate {
    IceCandidate {
        candidate: chars(&format!("candidate:{n} 1 UDP {n} 10.0.0.1 9 typ host")),
        sdp_mid: Some(chars("0")),
        sdp_mline_index: Some(n),
        username_fragment: None,
    }
}

#[test]
fn inbound_candidate_is_applied_and_nothing_is_sent_back() {
    let frame = encode_ice_candidate(&candidate(4));
    let log = run_session(vec![WireEvent::Text(frame)]);
    assert_eq!(log.applied.len(), 1);
    assert_eq!(log.applied[0].candidate, candidate(4).candidate);
    assert_eq!(log.applied[0].sdp_mid, Some(chars("0")));
    assert_eq!(log.applied[0].sdp_mline_index, Some(4));
    assert!(log.sent.is_empty());
    assert_eq!(log.publishes, 0);
}

#[test]
fn serde_encoded_inbound_candidate_is_applied() {
    let mut m = serde_json::Map::new();
    m.insert("candidate".to_string(), serde_json::Value::String("candidate:9 1 UDP 9 10.0.0.9 9 typ host".to_string()));
    m.insert("sdpMLineIndex".to_string(), serde_json::Value::Number(1u64.into()));
    m.insert("sdpMid".to_string(), serde_json::Value::String("0".to_string()));
    let frame: Vec<char> = serde_json::Value::Object(m).to_string().chars().collect();
    let log = run_session(vec![WireEvent::Text(frame)]);
    assert_eq!(log.applied.len(), 1);
    assert_eq!(log.applied[0].candidate, chars("candidate:9 1 UDP 9 10.0.0.9 9 typ host"));
    assert_eq!(log.applied[0].sdp_mid, Some(chars("0")));
    assert_eq!(log.applied[0].sdp_mline_index, Some(1));
    assert_eq!(log.applied[0].username_fragment, None);
    assert!(log.sent.is_empty());
}

#[test]
fn outbound_candidates_are_sent_in_emission_order() {
    let events = vec![
        WireEvent::IceOut(candidate(1)),
        WireEvent::OtherFrame,
        WireEvent::IceOut(candidate(2)),
        WireEvent::IceOut(candidate(3)),
    ];
    let log = run_session(events);
    assert_eq!(log.sent.len(), 3);
    assert_eq!(log.sent[0], encode_ice_candidate(&candidate(1)));
    assert_eq!(log.sent[1], encode_ice_candidate(&candidate(2)));
    assert_eq!(log.sent[2], encode_ice_candidate(&candidate(3)));
    assert!(log.applied.is_empty());
}

#[test]
fn close_frame_ends_the_session() {
    let events = vec![
        WireEvent::IceOut(candidate(1)),
        WireEvent::CloseFrame,
        WireEvent::IceOut(candidate(2)),
    ];
    let log = run_session(events);
    assert_eq!(log.sent.len(), 1);
    assert_eq!(log.sent[0], encode_ice_candidate(&candidate(1)));
}

#[test]
fn candidate_channel_closing_ends_the_session() {
    let events = vec![WireEvent::IceClosed, WireEvent::IceOut(candidate(1))];
    let log = run_session(events);
    assert!(log.sent.is_empty());
    assert!(log.applied.is_empty());
}

#[test]
fn undecodable_text_ends_the_session() {
    let events = vec![
        WireEvent::Text(chars("not a candidate")),
        WireEvent::IceOut(candidate(1)),
    ];
    let log = run_session(events);
    assert!(log.sent.is_empty());
    assert!(log.applied.is_empty());
}

#[test]
fn other_frames_are_ignored() {
    let step = session_step(WireEvent::OtherFrame);
    assert!(matches!(step.action, SessionAction::Ignore));
    assert!(!step.done);
}

#[test]
fn track_signal_prompts_a_publish() {
    let events = vec![WireEvent::TrackReady, WireEvent::IceOut(candidate(1))];
    let log = run_session(events);
    assert_eq!(log.publishes, 1);
    assert_eq!(log.sent.len(), 1);
}
