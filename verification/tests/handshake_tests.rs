use livestream_sfu::handshake::{validate_headers, UpgradeHeaders};
use livestream_sfu::messages::{encode_session_description, SdpKind, SessionDescription};

fn chars(s: &str) -> Vec<char> {
    s.chars().collect()
}

fn text(v: &[char]) -> String {
    v.iter().collect()
}

fn offer_protocol() -> Vec<char> {
    let offer = SessionDescription { kind: SdpKind::Offer, sdp: chars("v=0") };
    encode_session_description(&offer)
}

fn valid_headers() -> UpgradeHeaders {
    UpgradeHeaders {
        connection: Some(chars("Upgrade")),
        upgrade: Some(chars("websocket")),
        version: Some(chars("13")),
        key: Some(chars("dGhlIHNhbXBsZSBub25jZQ==")),
        protocol: Some(offer_protocol()),
    }
}

#[test]
fn valid_headers_yield_rfc_accept_key() {
    let hs = validate_headers(&valid_headers()).expect("valid headers must pass");
    assert_eq!(text(&hs.accept), "s3pPLMBiTxaQ9kYGzzhZRbK+xOo=");
    assert_eq!(hs.offer.kind, SdpKind::Offer);
    assert_eq!(hs.offer.sdp, chars("v=0"));
}

#[test]
fn accept_key_matches_websocket_derivation() {
    let key = "x3JJHMbDL1EzLkh9GBhXDw==";
    let mut h = valid_headers();
    h.key = Some(chars(key));
    let hs = validate_headers(&h).expect("valid headers must pass");
    let expected = tokio_tungstenite::tungstenite::handshake::derive_accept_key(key.as_bytes());
    assert_eq!(text(&hs.accept), expected);
}

#[test]
fn serde_encoded_offer_is_accepted() {
    // A peer's offer arrives as ordinary JSON: serde-style escapes for
    // the CR LF every SDP body carries, and its own key order.
    let mut m = serde_json::Map::new();
    m.insert("sdp".to_string(), serde_json::Value::String("v=0\r\no=- 1 1 IN IP4 0.0.0.0\r\n".to_string()));
    m.insert("type".to_string(), serde_json::Value::String("offer".to_string()));
    let mut h = valid_headers();
    h.protocol = Some(chars(&serde_json::Value::Object(m).to_string()));
    let hs = validate_headers(&h).expect("a standard JSON offer must pass");
    assert_eq!(hs.offer.kind, SdpKind::Offer);
    assert_eq!(hs.offer.sdp, chars("v=0\r\no=- 1 1 IN IP4 0.0.0.0\r\n"));
}

#[test]
fn missing_version_is_rejected() {
    let mut h = valid_headers();
    h.version = None;
    assert!(validate_headers(&h).is_none());
}

#[test]
fn wrong_fixed_values_are_rejected() {
    let mut h = valid_headers();
    h.connection = Some(chars("keep-alive"));
    assert!(validate_headers(&h).is_none());

    let mut h = valid_headers();
    h.upgrade = Some(chars("Websocket"));
    assert!(validate_headers(&h).is_none());

    let mut h = valid_headers();
    h.version = Some(chars("8"));
    assert!(validate_headers(&h).is_none());
}

#[test]
fn missing_key_is_rejected() {
    let mut h = valid_headers();
    h.key = None;
    assert!(validate_headers(&h).is_none());
}

#[test]
fn missing_or_malformed_offer_is_rejected() {
    let mut h = valid_headers();
    h.protocol = None;
    assert!(validate_headers(&h).is_none());

    let mut h = valid_headers();
    h.protocol = Some(chars("not json"));
    assert!(validate_headers(&h).is_none());
}
