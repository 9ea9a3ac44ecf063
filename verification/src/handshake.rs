use crate::codec::{chars_eq, str_to_chars};
use crate::messages::{opt_chars_view, p_sdp, decode_session_description, SessionDescription};
use vstd::prelude::*;

verus! {

// ---------------------------------------------------------------------------
// WebSocket handshake validation
//
// An upgrade request must carry `Connection: Upgrade`, `Upgrade:
// websocket` and `Sec-WebSocket-Version: 13`, exactly and
// case-sensitively. `Sec-WebSocket-Key` feeds the canonical accept-key
// derivation, and `Sec-WebSocket-Protocol` carries the caller's SDP
// offer as JSON, so the answer can ride back on the same round trip.
// ---------------------------------------------------------------------------

/// The upgrade-relevant headers of a request, each as its raw value
/// when present. Pulling them out of the HTTP library's header map is
/// the caller's concern; judging them happens here.
pub struct UpgradeHeaders {
    pub connection: Option<Vec<char>>,
    pub upgrade: Option<Vec<char>>,
    pub version: Option<Vec<char>>,
    pub key: Option<Vec<char>>,
    pub protocol: Option<Vec<char>>,
}

/// The mathematical value of a set of upgrade headers.
pub struct UpgradeHeadersView {
    pub connection: Option<Seq<char>>,
    pub upgrade: Option<Seq<char>>,
    pub version: Option<Seq<char>>,
    pub key: Option<Seq<char>>,
    pub protocol: Option<Seq<char>>,
}

impl View for UpgradeHeaders {
    type V = UpgradeHeadersView;

    open spec fn view(&self) -> UpgradeHeadersView {
        UpgradeHeadersView {
            connection: opt_chars_view(self.connection),
            upgrade: opt_chars_view(self.upgrade),
            version: opt_chars_view(self.version),
            key: opt_chars_view(self.key),
            protocol: opt_chars_view(self.protocol),
        }
    }
}

/// Whether a set of upgrade headers is acceptable: the three fixed
/// headers carry their exact expected values, a key is present, and the
/// protocol slot holds a well-formed session description.
pub open spec fn headers_valid(h: UpgradeHeadersView) -> bool {
    &&& h.connection == Some("Upgrade"@)
    &&& h.upgrade == Some("websocket"@)
    &&& h.version == Some("13"@)
    &&& h.key is Some
    &&& h.protocol matches Some(p) && p_sdp(p) is Some
}

/// The accept key the WebSocket handshake derives from a request key:
/// base64 of the SHA-1 digest of the key joined with the protocol GUID.
/// A digest has no short statement, so the result only gets a name.
pub uninterp spec fn accept_key_of(key: Seq<char>) -> Seq<char>;

/// Relies on tungstenite's `handshake::derive_accept_key`: the
/// canonical `Sec-WebSocket-Accept` derivation, a pure function of the
/// key bytes that never fails.
#[verifier::external_body]
fn derive_accept(key: &Vec<char>) -> (r: Vec<char>)
    ensures
        r@ == accept_key_of(key@),
{
    let s: String = key.iter().collect();
    let derived = tokio_tungstenite::tungstenite::handshake::derive_accept_key(s.as_bytes());
    derived.chars().collect()
}

/// A successful handshake: the accept key to send back, and the offer
/// the caller embedded.
pub struct Handshake {
    pub accept: Vec<char>,
    pub offer: SessionDescription,
}

/// Validate the upgrade headers of a request. Exactly the valid header
/// sets are accepted; acceptance yields the derived accept key and the
/// decoded offer.
pub fn validate_headers(h: &UpgradeHeaders) -> (r: Option<Handshake>)
    ensures
        r is Some <==> headers_valid(h@),
        r matches Some(hs) ==> {
            &&& h@.key matches Some(k) && hs.accept@ == accept_key_of(k)
            &&& h@.protocol matches Some(p) && p_sdp(p) == Some(hs.offer@)
        },
{
    let connection_ok = match &h.connection {
        Some(v) => chars_eq(v, &str_to_chars("Upgrade")),
        None => false,
    };
    let upgrade_ok = match &h.upgrade {
        Some(v) => chars_eq(v, &str_to_chars("websocket")),
        None => false,
    };
    let version_ok = match &h.version {
        Some(v) => chars_eq(v, &str_to_chars("13")),
        None => false,
    };
    if !connection_ok || !upgrade_ok || !version_ok {
        return None;
    }
    let key = match &h.key {
        Some(k) => k,
        None => {
            return None;
        },
    };
    let protocol = match &h.protocol {
        Some(p) => p,
        None => {
            return None;
        },
    };
    let offer = match decode_session_description(protocol) {
        Some(o) => o,
        None => {
            return None;
        },
    };
    let accept = derive_accept(key);
    Some(Handshake { accept, offer })
}

} // verus!
