use livestream_sfu::registry::HostState;

#[test]
fn fresh_state_is_vacant() {
    let s: HostState<u64> = HostState::Vacant;
    assert!(s.is_vacant());
    assert!(!s.is_pending());
    assert!(!s.is_ready());
}

#[test]
fn mark_pending_claims_vacant_slot() {
    let mut s: HostState<u64> = HostState::Vacant;
    assert!(s.mark_pending());
    assert!(s.is_pending());
    assert!(!s.is_vacant());
    assert!(!s.is_ready());
}

#[test]
fn second_claim_is_rejected() {
    let mut s: HostState<u64> = HostState::Vacant;
    assert!(s.mark_pending());
    assert!(!s.mark_pending());
    assert!(s.is_pending());
}

#[test]
fn claim_is_rejected_while_ready() {
    let mut s: HostState<u64> = HostState::Vacant;
    assert!(s.mark_pending());
    s.publish(7);
    assert!(!s.mark_pending());
    assert!(s.is_ready());
    assert_eq!(s.subscribe(), Some(&7));
}

#[test]
fn publish_promotes_pending_to_ready() {
    let mut s: HostState<u64> = HostState::Vacant;
    assert!(s.mark_pending());
    s.publish(42);
    assert!(s.is_ready());
    assert_eq!(s.subscribe(), Some(&42));
}

#[test]
fn subscribe_sees_no_track_unless_ready() {
    let vacant: HostState<u64> = HostState::Vacant;
    assert_eq!(vacant.subscribe(), None);
    let mut pending: HostState<u64> = HostState::Vacant;
    assert!(pending.mark_pending());
    assert_eq!(pending.subscribe(), None);
}

#[test]
fn release_returns_any_state_to_vacant() {
    let mut ready: HostState<u64> = HostState::Vacant;
    assert!(ready.mark_pending());
    ready.publish(3);
    ready.release();
    assert!(ready.is_vacant());

    let mut pending: HostState<u64> = HostState::Vacant;
    assert!(pending.mark_pending());
    pending.release();
    assert!(pending.is_vacant());

    let mut vacant: HostState<u64> = HostState::Vacant;
    vacant.release();
    assert!(vacant.is_vacant());
}

#[test]
fn claim_then_release_without_publish_roundtrips() {
    let mut s: HostState<u64> = HostState::Vacant;
    assert!(s.mark_pending());
    s.release();
    assert!(s.is_vacant());
    assert!(s.mark_pending());
}

#[test]
fn always_in_exactly_one_state() {
    let mut s: HostState<u64> = HostState::Vacant;
    let count =
        |s: &HostState<u64>| s.is_vacant() as u32 + s.is_pending() as u32 + s.is_ready() as u32;
    assert_eq!(count(&s), 1);
    assert!(s.mark_pending());
    assert_eq!(count(&s), 1);
    s.publish(1);
    assert_eq!(count(&s), 1);
    s.release();
    assert_eq!(count(&s), 1);
}
