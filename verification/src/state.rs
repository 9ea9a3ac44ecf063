use crate::codec::{chars_eq, str_to_chars};
use crate::handshake::{headers_valid, validate_headers, UpgradeHeaders, UpgradeHeadersView};
use crate::messages::{p_sdp, SessionDescription};
use crate::registry::HostState;
use vstd::prelude::*;

verus! {

// ---------------------------------------------------------------------------
// The request dispatcher
//
// `GET /ws/host` and `GET /ws/client` are the whole HTTP surface. A
// valid upgrade request either claims the host slot or subscribes to a
// live one; everything else is refused with the status the failure
// calls for. The registry moves to `Pending` before the caller writes
// the 101 response, so a client racing its own host never sees a gap.
// ---------------------------------------------------------------------------

/// The request line and headers of an incoming request, as plain text.
pub struct RequestHead {
    pub method: Vec<char>,
    pub path: Vec<char>,
    pub headers: UpgradeHeaders,
}

/// The mathematical value of a request head.
pub struct RequestHeadView {
    pub method: Seq<char>,
    pub path: Seq<char>,
    pub headers: UpgradeHeadersView,
}

impl View for RequestHead {
    type V = RequestHeadView;

    open spec fn view(&self) -> RequestHeadView {
        RequestHeadView { method: self.method@, path: self.path@, headers: self.headers@ }
    }
}

/// Which side of the stream a connection takes.
#[derive(Clone, Copy, Debug, PartialEq, Eq, Structural)]
pub enum Role {
    Host,
    Client,
}

/// A request that was accepted for upgrade: the role it takes, the
/// accept key to send back, and the offer it carried.
pub struct Accepted {
    pub role: Role,
    pub accept: Vec<char>,
    pub offer: SessionDescription,
}

/// What the dispatcher decides for a request against a given registry
/// state: accept it in a role, or refuse it with an HTTP status.
#[derive(Clone, Copy, Debug, PartialEq, Eq, Structural)]
pub enum Decision {
    AcceptHost,
    AcceptClient,
    Reject(u16),
}

/// The dispatch rule. Only `GET` is served, only the two upgrade paths
/// exist, a bad handshake is a bad request, a host is accepted exactly
/// when the slot is vacant, and a client exactly when a track is live;
/// being only pending still reads as "no host yet".
pub open spec fn decision_of<T>(host: HostState<T>, req: RequestHeadView) -> Decision {
    if req.method != "GET"@ {
        Decision::Reject(405)
    } else if req.path != "/ws/host"@ && req.path != "/ws/client"@ {
        Decision::Reject(404)
    } else if !headers_valid(req.headers) {
        Decision::Reject(400)
    } else if req.path == "/ws/host"@ {
        if host is Vacant {
            Decision::AcceptHost
        } else {
            Decision::Reject(503)
        }
    } else {
        if host is Ready {
            Decision::AcceptClient
        } else {
            Decision::Reject(503)
        }
    }
}

/// The server's shared state: the host registry. The WebRTC engine the
/// sessions draw their peer connections from lives with the caller,
/// beside the reader/writer lock that guards this value.
pub struct State<T> {
    pub host: HostState<T>,
}

impl<T> State<T> {
    /// A fresh server state, with no host present.
    pub fn try_new() -> (s: State<T>)
        ensures
            s.host is Vacant,
    {
        State { host: HostState::Vacant }
    }

    /// Decide one request. An accepted host claims the slot before the
    /// caller answers with 101; everything else leaves the registry as
    /// it was. The status of every refusal is fixed by the dispatch
    /// rule, and acceptance hands back the derived accept key and the
    /// offer from the protocol slot.
    pub fn on_request(&mut self, req: &RequestHead) -> (r: Result<Accepted, u16>)
        ensures
            match r {
                Ok(a) => {
                    &&& decision_of(old(self).host, req@) == (match a.role {
                        Role::Host => Decision::AcceptHost,
                        Role::Client => Decision::AcceptClient,
                    })
                    &&& (a.role is Host ==> final(self).host is Pending)
                    &&& (a.role is Client ==> final(self).host == old(self).host)
                    &&& req@.headers.key matches Some(k) && a.accept@
                        == crate::handshake::accept_key_of(k)
                    &&& req@.headers.protocol matches Some(p) && p_sdp(p) == Some(a.offer@)
                },
                Err(code) => {
                    &&& decision_of(old(self).host, req@) == Decision::Reject(code)
                    &&& *final(self) == *old(self)
                },
            },
    {
        if !chars_eq(&req.method, &str_to_chars("GET")) {
            return Err(405);
        }
        let is_host = if chars_eq(&req.path, &str_to_chars("/ws/host")) {
            true
        } else if chars_eq(&req.path, &str_to_chars("/ws/client")) {
            false
        } else {
            return Err(404);
        };
        let handshake = match validate_headers(&req.headers) {
            Some(hs) => hs,
            None => {
                return Err(400);
            },
        };
        if is_host {
            if !self.host.mark_pending() {
                return Err(503);
            }
            Ok(Accepted { role: Role::Host, accept: handshake.accept, offer: handshake.offer })
        } else {
            if !self.host.is_ready() {
                return Err(503);
            }
            Ok(Accepted { role: Role::Client, accept: handshake.accept, offer: handshake.offer })
        }
    }
}

/// A host teardown closes the window at once: the registry is vacant
/// again in the same step, and until a new host claims it, a client
/// request is refused with 503 rather than accepted, whatever state the
/// slot was torn down from.
pub proof fn lemma_teardown_blocks_clients<T>(req: RequestHeadView)
    requires
        req.method == "GET"@,
        req.path == "/ws/client"@,
    ensures
        decision_of(HostState::<T>::Vacant, req) != Decision::AcceptClient,
        headers_valid(req.headers) ==> decision_of(HostState::<T>::Vacant, req)
            == Decision::Reject(503),
{
    reveal_strlit("/ws/host");
    reveal_strlit("/ws/client");
    assert("/ws/host"@.len() != "/ws/client"@.len());
}

/// Two hosts cannot both win the race for the slot: once one host's
/// claim has moved the registry off `Vacant`, the dispatch rule refuses
/// the other host with 503.
pub proof fn lemma_host_race_single_winner<T>(host: HostState<T>, req: RequestHeadView)
    requires
        decision_of(host, req) == Decision::AcceptHost,
    ensures
        decision_of(host.after_mark_pending(), req) == Decision::Reject(503),
{
}

} // verus!
