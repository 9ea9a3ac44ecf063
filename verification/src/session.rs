use crate::messages::{
    decode_ice_candidate, enc_ice, encode_ice_candidate, p_ice, IceCandidate, IceCandidateView,
};
use vstd::prelude::*;

verus! {

// ---------------------------------------------------------------------------
// The signaling session loop
//
// After the 101 response the caller first sends the encoded SDP answer,
// then multiplexes two sources until one of them closes: candidates the
// local peer emits, and frames the remote sends. The decisions are all
// here; performing a send, an apply or a publish is the caller's part.
// Outbound candidates favour draining before inbound frames are read.
// ---------------------------------------------------------------------------

/// One observation the session loop can wake up on.
pub enum WireEvent {
    /// The local peer emitted an ICE candidate to relay outwards.
    IceOut(IceCandidate),
    /// The local peer's candidate channel closed.
    IceClosed,
    /// The remote sent a text frame.
    Text(Vec<char>),
    /// The remote sent a close frame.
    CloseFrame,
    /// The remote sent any other frame (binary or control).
    OtherFrame,
    /// The one-shot track signal fired (host sessions only).
    TrackReady,
}

/// The mathematical value of a wire event.
pub enum WireEventView {
    IceOut(IceCandidateView),
    IceClosed,
    Text(Seq<char>),
    CloseFrame,
    OtherFrame,
    TrackReady,
}

impl View for WireEvent {
    type V = WireEventView;

    open spec fn view(&self) -> WireEventView {
        match self {
            WireEvent::IceOut(c) => WireEventView::IceOut(c@),
            WireEvent::IceClosed => WireEventView::IceClosed,
            WireEvent::Text(t) => WireEventView::Text(t@),
            WireEvent::CloseFrame => WireEventView::CloseFrame,
            WireEvent::OtherFrame => WireEventView::OtherFrame,
            WireEvent::TrackReady => WireEventView::TrackReady,
        }
    }
}

/// What the caller must do in response to one event.
pub enum SessionAction {
    /// Send this text frame to the remote.
    SendFrame(Vec<char>),
    /// Feed this candidate to the local peer connection.
    ApplyRemote(IceCandidate),
    /// Publish the newly arrived track to the registry.
    PublishTrack,
    /// Nothing.
    Ignore,
}

/// The mathematical value of a session action.
pub enum SessionActionView {
    SendFrame(Seq<char>),
    ApplyRemote(IceCandidateView),
    PublishTrack,
    Ignore,
}

impl View for SessionAction {
    type V = SessionActionView;

    open spec fn view(&self) -> SessionActionView {
        match self {
            SessionAction::SendFrame(f) => SessionActionView::SendFrame(f@),
            SessionAction::ApplyRemote(c) => SessionActionView::ApplyRemote(c@),
            SessionAction::PublishTrack => SessionActionView::PublishTrack,
            SessionAction::Ignore => SessionActionView::Ignore,
        }
    }
}

/// What one step of the loop decides: an action, and whether the
/// session is over afterwards.
pub struct SessionStep {
    pub action: SessionAction,
    pub done: bool,
}

/// The decision the loop takes on one event. A candidate from the local
/// peer goes out encoded, in emission order. An inbound text frame must
/// decode to a candidate, which is applied in receive order; a frame
/// that does not decode ends the session, as does a close frame or the
/// candidate channel closing. Other frames are ignored. The track
/// signal promotes the registry.
pub open spec fn session_step_spec(ev: WireEventView) -> (SessionActionView, bool) {
    match ev {
        WireEventView::IceOut(c) => (SessionActionView::SendFrame(enc_ice(c)), false),
        WireEventView::IceClosed => (SessionActionView::Ignore, true),
        WireEventView::Text(t) => match p_ice(t) {
            Some(c) => (SessionActionView::ApplyRemote(c), false),
            None => (SessionActionView::Ignore, true),
        },
        WireEventView::CloseFrame => (SessionActionView::Ignore, true),
        WireEventView::OtherFrame => (SessionActionView::Ignore, false),
        WireEventView::TrackReady => (SessionActionView::PublishTrack, false),
    }
}

/// Decide what to do with one event of the session loop.
pub fn session_step(ev: WireEvent) -> (r: SessionStep)
    ensures
        (r.action@, r.done) == session_step_spec(ev@),
{
    match ev {
        WireEvent::IceOut(c) => SessionStep {
            action: SessionAction::SendFrame(encode_ice_candidate(&c)),
            done: false,
        },
        WireEvent::IceClosed => SessionStep { action: SessionAction::Ignore, done: true },
        WireEvent::Text(t) => match decode_ice_candidate(&t) {
            Some(c) => SessionStep { action: SessionAction::ApplyRemote(c), done: false },
            None => SessionStep { action: SessionAction::Ignore, done: true },
        },
        WireEvent::CloseFrame => SessionStep { action: SessionAction::Ignore, done: true },
        WireEvent::OtherFrame => SessionStep { action: SessionAction::Ignore, done: false },
        WireEvent::TrackReady => SessionStep { action: SessionAction::PublishTrack, done: false },
    }
}

/// The frames a session sends while working through these events, in
/// order, up to and including the event that ends it.
pub open spec fn frames_sent(evs: Seq<WireEventView>) -> Seq<Seq<char>>
    decreases evs.len(),
{
    if evs.len() == 0 {
        Seq::empty()
    } else {
        let (a, done) = session_step_spec(evs[0]);
        let here = match a {
            SessionActionView::SendFrame(f) => seq![f],
            _ => Seq::empty(),
        };
        if done {
            here
        } else {
            here + frames_sent(evs.drop_first())
        }
    }
}

/// The candidates the local peer emitted among these events, in
/// emission order, up to the event that ends the session.
pub open spec fn ice_emitted(evs: Seq<WireEventView>) -> Seq<IceCandidateView>
    decreases evs.len(),
{
    if evs.len() == 0 {
        Seq::empty()
    } else {
        let (_, done) = session_step_spec(evs[0]);
        let here = match evs[0] {
            WireEventView::IceOut(c) => seq![c],
            _ => Seq::empty(),
        };
        if done {
            here
        } else {
            here + ice_emitted(evs.drop_first())
        }
    }
}

/// The candidates a session applies to the local peer while working
/// through these events, in receive order.
pub open spec fn ice_applied(evs: Seq<WireEventView>) -> Seq<IceCandidateView>
    decreases evs.len(),
{
    if evs.len() == 0 {
        Seq::empty()
    } else {
        let (a, done) = session_step_spec(evs[0]);
        let here = match a {
            SessionActionView::ApplyRemote(c) => seq![c],
            _ => Seq::empty(),
        };
        if done {
            here
        } else {
            here + ice_applied(evs.drop_first())
        }
    }
}

/// How many times a session publishes the track while working through
/// these events.
pub open spec fn publish_count(evs: Seq<WireEventView>) -> int
    decreases evs.len(),
{
    if evs.len() == 0 {
        0int
    } else {
        let (a, done) = session_step_spec(evs[0]);
        let here: int = match a {
            SessionActionView::PublishTrack => 1int,
            _ => 0int,
        };
        if done {
            here
        } else {
            here + publish_count(evs.drop_first())
        }
    }
}

/// Candidates keep their order on the way out: the frames a session
/// sends are exactly the emitted candidates, encoded, first to last.
/// Nothing is dropped, duplicated or reordered before the channel.
pub proof fn lemma_outbound_ice_fifo(evs: Seq<WireEventView>)
    ensures
        frames_sent(evs) == ice_emitted(evs).map_values(|c: IceCandidateView| enc_ice(c)),
    decreases evs.len(),
{
    let f = |c: IceCandidateView| enc_ice(c);
    if evs.len() == 0 {
        assert(frames_sent(evs) =~= ice_emitted(evs).map_values(f));
    } else {
        lemma_outbound_ice_fifo(evs.drop_first());
        assert(frames_sent(evs) =~= ice_emitted(evs).map_values(f));
    }
}

/// The text frames the remote sent among these events, in order, up to
/// the event that ends the session.
pub open spec fn texts_received(evs: Seq<WireEventView>) -> Seq<Seq<char>>
    decreases evs.len(),
{
    if evs.len() == 0 {
        Seq::empty()
    } else {
        let (_, done) = session_step_spec(evs[0]);
        let here = match evs[0] {
            WireEventView::Text(t) => seq![t],
            _ => Seq::empty(),
        };
        if done {
            here
        } else {
            here + texts_received(evs.drop_first())
        }
    }
}

/// Candidates keep their order on the way in, too: when every text
/// frame the remote sends decodes, the session applies exactly those
/// candidates to the local peer, in receive order.
pub proof fn lemma_inbound_ice_in_receive_order(evs: Seq<WireEventView>)
    requires
        forall|i: int|
            0 <= i < evs.len() ==> ((#[trigger] evs[i]) matches WireEventView::Text(t) ==> p_ice(
                t,
            ) is Some),
    ensures
        ice_applied(evs) == texts_received(evs).map_values(
            |t: Seq<char>| p_ice(t)->Some_0,
        ),
    decreases evs.len(),
{
    let f = |t: Seq<char>| p_ice(t)->Some_0;
    if evs.len() == 0 {
        assert(ice_applied(evs) =~= texts_received(evs).map_values(f));
    } else {
        assert(forall|i: int|
            0 <= i < evs.drop_first().len() ==> evs.drop_first()[i] == #[trigger] evs[i + 1]);
        lemma_inbound_ice_in_receive_order(evs.drop_first());
        assert(evs[0] matches WireEventView::Text(t) ==> p_ice(t) is Some);
        assert(ice_applied(evs) =~= texts_received(evs).map_values(f));
    }
}

/// The server never speaks unprompted: a session in which the local
/// peer emits no candidate sends no frame, whatever arrives from the
/// remote. In particular no reply is synthesized for an inbound
/// candidate.
pub proof fn lemma_no_unsolicited_frames(evs: Seq<WireEventView>)
    requires
        forall|i: int| 0 <= i < evs.len() ==> !(#[trigger] evs[i] is IceOut),
    ensures
        frames_sent(evs) == Seq::<Seq<char>>::empty(),
    decreases evs.len(),
{
    if evs.len() > 0 {
        assert(forall|i: int|
            0 <= i < evs.drop_first().len() ==> evs.drop_first()[i] == #[trigger] evs[i + 1]);
        lemma_no_unsolicited_frames(evs.drop_first());
        assert(frames_sent(evs) =~= Seq::<Seq<char>>::empty());
    }
}

/// What a session did after the fact: the frames it sent, the
/// candidates it applied, and how often it published the track.
pub struct SessionLog {
    pub sent: Vec<Vec<char>>,
    pub applied: Vec<IceCandidate>,
    pub publishes: usize,
}

/// The views of a sequence of wire events.
pub open spec fn event_views(evs: Seq<WireEvent>) -> Seq<WireEventView> {
    evs.map_values(|e: WireEvent| e@)
}

/// The views of a sequence of sent frames.
pub open spec fn frame_views(fs: Seq<Vec<char>>) -> Seq<Seq<char>> {
    fs.map_values(|f: Vec<char>| f@)
}

/// The views of a sequence of candidates.
pub open spec fn candidate_views(cs: Seq<IceCandidate>) -> Seq<IceCandidateView> {
    cs.map_values(|c: IceCandidate| c@)
}

/// Drive a whole session over a queue of events, stopping at the first
/// event that ends it. What comes back is exactly what the decision
/// function prescribes for those events.
pub fn run_session(events: Vec<WireEvent>) -> (log: SessionLog)
    ensures
        frame_views(log.sent@) == frames_sent(event_views(events@)),
        candidate_views(log.applied@) == ice_applied(event_views(events@)),
        log.publishes as int == publish_count(event_views(events@)),
{
    let ghost evs0 = event_views(events@);
    let n0 = events.len();
    let mut remaining = events;
    let mut sent: Vec<Vec<char>> = Vec::new();
    let mut applied: Vec<IceCandidate> = Vec::new();
    let mut publishes: usize = 0;
    let mut done = false;
    while !done && remaining.len() > 0
        invariant
            remaining@.len() <= n0,
            publishes as int <= n0 as int - remaining@.len(),
            !done ==> {
                &&& frames_sent(evs0) == frame_views(sent@) + frames_sent(
                    event_views(remaining@),
                )
                &&& ice_applied(evs0) == candidate_views(applied@) + ice_applied(
                    event_views(remaining@),
                )
                &&& publish_count(evs0) == publishes + publish_count(event_views(remaining@))
            },
            done ==> {
                &&& frames_sent(evs0) == frame_views(sent@)
                &&& ice_applied(evs0) == candidate_views(applied@)
                &&& publish_count(evs0) == publishes
            },
        decreases remaining.len(),
    {
        let ghost rv = event_views(remaining@);
        let ev = remaining.remove(0);
        proof {
            assert(rv[0] == ev@);
            assert(event_views(remaining@) =~= rv.drop_first());
            assert(rv.len() > 0);
        }
        let step = session_step(ev);
        proof {
            let (a, d) = session_step_spec(rv[0]);
            assert(step.action@ == a && step.done == d);
        }
        match step.action {
            SessionAction::SendFrame(f) => {
                let ghost sent_before = sent@;
                sent.push(f);
                proof {
                    assert(frame_views(sent@) =~= frame_views(sent_before).push(f@));
                    assert(frame_views(sent_before) + (seq![f@] + frames_sent(rv.drop_first()))
                        =~= frame_views(sent@) + frames_sent(rv.drop_first()));
                    assert(frame_views(sent_before) + seq![f@] =~= frame_views(sent@));
                }
            },
            SessionAction::ApplyRemote(c) => {
                let ghost applied_before = applied@;
                applied.push(c);
                proof {
                    assert(candidate_views(applied@) =~= candidate_views(applied_before).push(c@));
                    assert(candidate_views(applied_before) + (seq![c@] + ice_applied(
                        rv.drop_first(),
                    )) =~= candidate_views(applied@) + ice_applied(rv.drop_first()));
                    assert(candidate_views(applied_before) + seq![c@] =~= candidate_views(
                        applied@,
                    ));
                }
            },
            SessionAction::PublishTrack => {
                publishes = publishes + 1;
            },
            SessionAction::Ignore => {},
        }
        done = step.done;
        proof {
            if !done {
                assert(frame_views(sent@) + (Seq::<Seq<char>>::empty() + frames_sent(
                    rv.drop_first(),
                )) =~= frame_views(sent@) + frames_sent(rv.drop_first()));
            }
            assert(frame_views(sent@) + Seq::<Seq<char>>::empty() =~= frame_views(sent@));
            assert(candidate_views(applied@) + Seq::<IceCandidateView>::empty()
                =~= candidate_views(applied@));
        }
    }
    proof {
        if !done {
            assert(event_views(remaining@) =~= Seq::<WireEventView>::empty());
            assert(frames_sent(event_views(remaining@)) =~= Seq::<Seq<char>>::empty());
            assert(frame_views(sent@) + Seq::<Seq<char>>::empty() =~= frame_views(sent@));
            assert(candidate_views(applied@) + Seq::<IceCandidateView>::empty()
                =~= candidate_views(applied@));
        }
    }
    SessionLog { sent, applied, publishes }
}

} // verus!
