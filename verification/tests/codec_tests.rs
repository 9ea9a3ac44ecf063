use livestream_sfu::messages::{
    decode_ice_candidate, decode_session_description, encode_ice_candidate,
    encode_session_description, IceCandidate, SdpKind, SessionDescription,
};

fn chars(s: &str) -> Vec<char> {
    s.chars().collect()
}

fn text(v: &[char]) -> String {
    v.iter().collect()
}

#[test]
fn session_description_encodes_canonically() {
    let d = SessionDescription { kind: SdpKind::Answer, sdp: chars("sdp-text") };
    let out = encode_session_description(&d);
    assert_eq!(text(&out), r#"{"type":"answer","sdp":"sdp-text"}"#);
}

#[test]
fn offer_encodes_with_its_own_word() {
    let d = SessionDescription { kind: SdpKind::Offer, sdp: chars("x") };
    let out = encode_session_description(&d);
    assert_eq!(text(&out), r#"{"type":"offer","sdp":"x"}"#);
}

#[test]
fn session_description_roundtrips() {
    for kind in [SdpKind::Offer, SdpKind::Answer, SdpKind::Pranswer, SdpKind::Rollback] {
        let d = SessionDescription { kind, sdp: chars("v=0\r\no=- 1 1 IN IP4 0.0.0.0") };
        let out = encode_session_description(&d);
        let back = decode_session_description(&out).expect("canonical text must decode");
        assert_eq!(back.kind, kind);
        assert_eq!(back.sdp, d.sdp);
    }
}

#[test]
fn control_characters_escape_and_return() {
    let d = SessionDescription { kind: SdpKind::Answer, sdp: chars("a\r\nb\u{1}c") };
    let out = encode_session_description(&d);
    assert_eq!(text(&out), "{\"type\":\"answer\",\"sdp\":\"a\\u000d\\u000ab\\u0001c\"}");
    let back = decode_session_description(&out).expect("escapes must decode");
    assert_eq!(back.sdp, d.sdp);
}

#[test]
fn quotes_and_backslashes_escape_and_return() {
    let c = IceCandidate {
        candidate: chars("a\"b\\c"),
        sdp_mid: None,
        sdp_mline_index: None,
        username_fragment: None,
    };
    let out = encode_ice_candidate(&c);
    assert_eq!(
        text(&out),
        r#"{"candidate":"a\"b\\c","sdpMid":null,"sdpMLineIndex":null,"usernameFragment":null}"#
    );
    let back = decode_ice_candidate(&out).expect("escapes must decode");
    assert_eq!(back.candidate, c.candidate);
}

#[test]
fn ice_candidate_encodes_null_fields() {
    let c = IceCandidate {
        candidate: chars("candidate:0 1 UDP 2122252543 192.0.2.1 54321 typ host"),
        sdp_mid: None,
        sdp_mline_index: None,
        username_fragment: None,
    };
    let out = encode_ice_candidate(&c);
    assert_eq!(
        text(&out),
        r#"{"candidate":"candidate:0 1 UDP 2122252543 192.0.2.1 54321 typ host","sdpMid":null,"sdpMLineIndex":null,"usernameFragment":null}"#
    );
}

#[test]
fn ice_candidate_roundtrips_with_all_fields() {
    let c = IceCandidate {
        candidate: chars("candidate:1 1 UDP 1 10.0.0.1 9 typ host"),
        sdp_mid: Some(chars("0")),
        sdp_mline_index: Some(65535),
        username_fragment: Some(chars("ufrag")),
    };
    let out = encode_ice_candidate(&c);
    assert_eq!(
        text(&out),
        r#"{"candidate":"candidate:1 1 UDP 1 10.0.0.1 9 typ host","sdpMid":"0","sdpMLineIndex":65535,"usernameFragment":"ufrag"}"#
    );
    let back = decode_ice_candidate(&out).expect("canonical text must decode");
    assert_eq!(back.candidate, c.candidate);
    assert_eq!(back.sdp_mid, c.sdp_mid);
    assert_eq!(back.sdp_mline_index, c.sdp_mline_index);
    assert_eq!(back.username_fragment, c.username_fragment);
}

#[test]
fn mline_index_zero_roundtrips() {
    let c = IceCandidate {
        candidate: chars("c"),
        sdp_mid: Some(chars("audio")),
        sdp_mline_index: Some(0),
        username_fragment: None,
    };
    let out = encode_ice_candidate(&c);
    let back = decode_ice_candidate(&out).expect("canonical text must decode");
    assert_eq!(back.sdp_mline_index, Some(0));
}

#[test]
fn mline_index_too_large_is_rejected() {
    let inp = chars(
        r#"{"candidate":"c","sdpMid":null,"sdpMLineIndex":65536,"usernameFragment":null}"#,
    );
    assert!(decode_ice_candidate(&inp).is_none());
}

#[test]
fn unicode_text_passes_through() {
    let d = SessionDescription { kind: SdpKind::Pranswer, sdp: chars("héllo wörld ☃") };
    let out = encode_session_description(&d);
    let back = decode_session_description(&out).expect("unicode must decode");
    assert_eq!(back.sdp, d.sdp);
}

#[test]
fn malformed_frames_are_rejected() {
    for bad in [
        "",
        "{",
        r#"{"type":"answer"}"#,
        r#"{"type":"other","sdp":"x"}"#,
        r#"{"type":"answer","sdp":"x"#,
        r#"{"type":"answer","sdp":"x"}}"#,
        r#"{"type":"answer","sdp":"x","type":"offer"}"#,
        r#"{"type":"answer","sdp":"x","extra":null}"#,
    ] {
        assert!(decode_session_description(&chars(bad)).is_none(), "accepted: {bad}");
    }
    for bad in [
        "",
        "{}",
        r#"{"sdpMid":"0"}"#,
        r#"{"candidate":"c","sdpMid":null,"sdpMLineIndex":null,"usernameFragment":null,}"#,
        r#"{"candidate":"c","sdpMid":0,"sdpMLineIndex":null,"usernameFragment":null}"#,
        r#"{"candidate":"c","sdpMid":null,"sdpMLineIndex":-1,"usernameFragment":null}"#,
        r#"{"candidate":"a","candidate":"b"}"#,
    ] {
        assert!(decode_ice_candidate(&chars(bad)).is_none(), "accepted: {bad}");
    }
}

#[test]
fn whitespace_between_tokens_is_accepted() {
    let inp = chars(" {\n  \"type\" :\t\"answer\" ,\r\n  \"sdp\" : \"x\"\n} ");
    let d = decode_session_description(&inp).expect("whitespace is insignificant");
    assert_eq!(d.kind, SdpKind::Answer);
    assert_eq!(d.sdp, chars("x"));
    let inp = chars(
        r#" { "candidate" : "c" , "sdpMid" : null , "sdpMLineIndex" : 2 , "usernameFragment" : null } "#,
    );
    let c = decode_ice_candidate(&inp).expect("whitespace is insignificant");
    assert_eq!(c.candidate, chars("c"));
    assert_eq!(c.sdp_mline_index, Some(2));
}

#[test]
fn fields_decode_in_any_order() {
    let inp = chars(r#"{"sdp":"x","type":"answer"}"#);
    let d = decode_session_description(&inp).expect("field order is free");
    assert_eq!(d.kind, SdpKind::Answer);
    assert_eq!(d.sdp, chars("x"));
    let inp = chars(
        r#"{"sdpMLineIndex":7,"usernameFragment":"u","candidate":"c","sdpMid":"video"}"#,
    );
    let c = decode_ice_candidate(&inp).expect("field order is free");
    assert_eq!(c.candidate, chars("c"));
    assert_eq!(c.sdp_mid, Some(chars("video")));
    assert_eq!(c.sdp_mline_index, Some(7));
    assert_eq!(c.username_fragment, Some(chars("u")));
}

#[test]
fn absent_optional_fields_read_as_none() {
    let inp = chars(r#"{"candidate":"c"}"#);
    let c = decode_ice_candidate(&inp).expect("optional fields may be absent");
    assert_eq!(c.candidate, chars("c"));
    assert_eq!(c.sdp_mid, None);
    assert_eq!(c.sdp_mline_index, None);
    assert_eq!(c.username_fragment, None);
}

#[test]
fn short_escapes_decode() {
    let inp = chars(r#"{"type":"answer","sdp":"a\r\nb\tc\bd\fe\/f\"g\\h"}"#);
    let d = decode_session_description(&inp).expect("the short escapes are standard");
    assert_eq!(d.sdp, chars("a\r\nb\tc\u{8}d\u{c}e/f\"g\\h"));
}

#[test]
fn hex_escapes_decode_in_either_case_and_beyond_one_byte() {
    let inp = chars(r#"{"type":"answer","sdp":"\u0041\u00e9\u00E9\u265E"}"#);
    let d = decode_session_description(&inp).expect("four-hex escapes are standard");
    assert_eq!(d.sdp, chars("A\u{e9}\u{e9}\u{265e}"));
}

#[test]
fn surrogate_pairs_decode() {
    let inp = chars(r#"{"type":"answer","sdp":"\uD83D\uDE00!"}"#);
    let d = decode_session_description(&inp).expect("surrogate pairs are standard");
    assert_eq!(d.sdp, chars("\u{1F600}!"));
}

#[test]
fn lone_surrogates_are_rejected() {
    let inp = chars(r#"{"type":"answer","sdp":"\uD83D"}"#);
    assert!(decode_session_description(&inp).is_none());
    let inp = chars(r#"{"type":"answer","sdp":"\uDE00"}"#);
    assert!(decode_session_description(&inp).is_none());
}

#[test]
fn serde_encoded_frames_decode() {
    // serde_json writes CR LF as two-character escapes and sorts the
    // keys of its maps; the decoder must take both.
    let mut m = serde_json::Map::new();
    m.insert("type".to_string(), serde_json::Value::String("offer".to_string()));
    m.insert("sdp".to_string(), serde_json::Value::String("v=0\r\no=- 1 1 IN IP4 0.0.0.0\r\n".to_string()));
    let text = serde_json::Value::Object(m).to_string();
    let d = decode_session_description(&chars(&text)).expect("serde output must decode");
    assert_eq!(d.kind, SdpKind::Offer);
    assert_eq!(d.sdp, chars("v=0\r\no=- 1 1 IN IP4 0.0.0.0\r\n"));

    let mut m = serde_json::Map::new();
    m.insert("candidate".to_string(), serde_json::Value::String("candidate:1 1 UDP 1 10.0.0.1 9 typ host".to_string()));
    m.insert("sdpMid".to_string(), serde_json::Value::String("0".to_string()));
    m.insert("sdpMLineIndex".to_string(), serde_json::Value::Number(0u64.into()));
    m.insert("usernameFragment".to_string(), serde_json::Value::Null);
    let text = serde_json::Value::Object(m).to_string();
    let c = decode_ice_candidate(&chars(&text)).expect("serde output must decode");
    assert_eq!(c.candidate, chars("candidate:1 1 UDP 1 10.0.0.1 9 typ host"));
    assert_eq!(c.sdp_mid, Some(chars("0")));
    assert_eq!(c.sdp_mline_index, Some(0));
    assert_eq!(c.username_fragment, None);
}

#[test]
fn pretty_printed_frames_decode() {
    let mut m = serde_json::Map::new();
    m.insert("type".to_string(), serde_json::Value::String("answer".to_string()));
    m.insert("sdp".to_string(), serde_json::Value::String("v=0\r\n".to_string()));
    let text = serde_json::to_string_pretty(&serde_json::Value::Object(m)).unwrap();
    let d = decode_session_description(&chars(&text)).expect("pretty output must decode");
    assert_eq!(d.kind, SdpKind::Answer);
    assert_eq!(d.sdp, chars("v=0\r\n"));
}

#[test]
fn unpaired_escape_is_rejected() {
    let inp = chars(r#"{"type":"answer","sdp":"a\qb"}"#);
    assert!(decode_session_description(&inp).is_none());
}

#[test]
fn encoded_ice_is_real_json() {
    let c = IceCandidate {
        candidate: chars("a\"b\\c\u{2}"),
        sdp_mid: Some(chars("vi\"deo")),
        sdp_mline_index: Some(3),
        username_fragment: None,
    };
    let out: String = encode_ice_candidate(&c).iter().collect();
    let v: serde_json::Value = serde_json::from_str(&out).expect("library output must be JSON");
    assert_eq!(v["candidate"].as_str().unwrap(), "a\"b\\c\u{2}");
    assert_eq!(v["sdpMid"].as_str().unwrap(), "vi\"deo");
    assert_eq!(v["sdpMLineIndex"].as_u64().unwrap(), 3);
    assert!(v["usernameFragment"].is_null());
}

#[test]
fn encoded_sdp_is_real_json() {
    let d = SessionDescription { kind: SdpKind::Answer, sdp: chars("v=0\r\nm=video 9 UDP/TLS/RTP/SAVPF 96") };
    let out: String = encode_session_description(&d).iter().collect();
    let v: serde_json::Value = serde_json::from_str(&out).expect("library output must be JSON");
    assert_eq!(v["type"].as_str().unwrap(), "answer");
    assert_eq!(v["sdp"].as_str().unwrap(), "v=0\r\nm=video 9 UDP/TLS/RTP/SAVPF 96");
}
