use livestream_sfu::handshake::UpgradeHeaders;
use livestream_sfu::messages::{
    decode_session_description, encode_session_description, SdpKind, SessionDescription,
};
use livestream_sfu::state::{RequestHead, Role, State};

fn chars(s: &str) -> Vec<char> {
    s.chars().collect()
}

fn text(v: &[char]) -> String {
    v.iter().collect()
}

fn offer_protocol() -> Vec<char> {
    let offer = SessionDescription { kind: SdpKind::Offer, sdp: chars("v=0") };
    encode_session_description(&offer)
}

fn upgrade_request(path: &str) -> RequestHead {
    RequestHead {
        method: chars("GET"),
        path: chars(path),
        headers: UpgradeHeaders {
            connection: Some(chars("Upgrade")),
            upgrade: Some(chars("websocket")),
            version: Some(chars("13")),
            key: Some(chars("dGhlIHNhbXBsZSBub25jZQ==")),
            protocol: Some(offer_protocol()),
        },
    }
}

#[test]
fn client_without_host_receives_503_and_registry_is_unchanged() {
    let mut s: State<u64> = State::try_new();
    let r = s.on_request(&upgrade_request("/ws/client"));
    assert_eq!(r.err(), Some(503));
    assert!(s.host.is_vacant());
}

#[test]
fn host_then_client_both_upgrade() {
    let mut s: State<u64> = State::try_new();

    let host = s.on_request(&upgrade_request("/ws/host")).expect("host must be accepted");
    assert_eq!(host.role, Role::Host);
    assert_eq!(text(&host.accept), "s3pPLMBiTxaQ9kYGzzhZRbK+xOo=");
    assert_eq!(host.offer.kind, SdpKind::Offer);
    assert!(s.host.is_pending());

    // The first frame a session sends is the SDP answer.
    let answer = SessionDescription { kind: SdpKind::Answer, sdp: chars("v=0") };
    let first_frame = encode_session_description(&answer);
    let parsed = decode_session_description(&first_frame).expect("answer frame must parse");
    assert_eq!(parsed.kind, SdpKind::Answer);

    // The host's first track arrives and is published.
    assert!(s.host.is_pending());
    s.host.publish(7);
    assert!(s.host.is_ready());

    let client = s.on_request(&upgrade_request("/ws/client")).expect("client must be accepted");
    assert_eq!(client.role, Role::Client);
    assert_eq!(text(&client.accept), "s3pPLMBiTxaQ9kYGzzhZRbK+xOo=");
    assert_eq!(s.host.subscribe(), Some(&7));
}

#[test]
fn host_with_serde_encoded_offer_upgrades() {
    let mut s: State<u64> = State::try_new();
    let mut req = upgrade_request("/ws/host");
    let mut m = serde_json::Map::new();
    m.insert("sdp".to_string(), serde_json::Value::String("v=0\r\nm=video 9 UDP/TLS/RTP/SAVPF 96\r\n".to_string()));
    m.insert("type".to_string(), serde_json::Value::String("offer".to_string()));
    req.headers.protocol = Some(chars(&serde_json::Value::Object(m).to_string()));
    let host = s.on_request(&req).expect("a standard JSON offer must upgrade");
    assert_eq!(host.role, Role::Host);
    assert_eq!(host.offer.sdp, chars("v=0\r\nm=video 9 UDP/TLS/RTP/SAVPF 96\r\n"));
    assert!(s.host.is_pending());
}

#[test]
fn two_hosts_race_exactly_one_wins() {
    let mut s: State<u64> = State::try_new();
    let first = s.on_request(&upgrade_request("/ws/host"));
    let second = s.on_request(&upgrade_request("/ws/host"));
    assert!(first.is_ok());
    assert_eq!(second.err(), Some(503));
    assert!(s.host.is_pending());
}

#[test]
fn host_disconnect_releases_and_blocks_clients_again() {
    let mut s: State<u64> = State::try_new();
    s.on_request(&upgrade_request("/ws/host")).expect("host must be accepted");
    s.host.publish(9);
    let client = s.on_request(&upgrade_request("/ws/client"));
    assert!(client.is_ok());

    // The host goes away: its session teardown releases the registry.
    s.host.release();
    assert!(s.host.is_vacant());
    let late = s.on_request(&upgrade_request("/ws/client"));
    assert_eq!(late.err(), Some(503));
}

#[test]
fn malformed_handshake_receives_400_and_no_state_change() {
    let mut s: State<u64> = State::try_new();
    let mut req = upgrade_request("/ws/host");
    req.headers.version = None;
    let r = s.on_request(&req);
    assert_eq!(r.err(), Some(400));
    assert!(s.host.is_vacant());
}

#[test]
fn unknown_path_receives_404() {
    let mut s: State<u64> = State::try_new();
    let r = s.on_request(&upgrade_request("/ws/watch"));
    assert_eq!(r.err(), Some(404));
    let r = s.on_request(&upgrade_request("/"));
    assert_eq!(r.err(), Some(404));
}

#[test]
fn non_get_method_receives_405() {
    let mut s: State<u64> = State::try_new();
    let mut req = upgrade_request("/ws/host");
    req.method = chars("POST");
    let r = s.on_request(&req);
    assert_eq!(r.err(), Some(405));
    assert!(s.host.is_vacant());
}
