use vstd::prelude::*;

verus! {

// ---------------------------------------------------------------------------
// The RTP pump
//
// One pump runs per host connection. It copies packets from the host's
// inbound track to the server-owned local track, and on a fixed timer
// asks the host for a fresh keyframe. The decisions are here; the
// caller reads, writes, and ticks the timer, with the timer favoured
// over reads when both are due. The type parameter is the packet; the
// pump forwards it untouched.
// ---------------------------------------------------------------------------

/// One observation the pump can wake up on.
pub enum PumpEvent<P> {
    /// The keyframe timer fired; whether the weak reference to the peer
    /// connection still resolved.
    Tick { peer_alive: bool },
    /// A packet was read from the remote track.
    Packet(P),
    /// Reading the remote track failed: the host closed its sender.
    ReadClosed,
    /// Writing the local track reported a closed pipe: the track was
    /// reclaimed after the last reader went away.
    WriteClosed,
}

/// What the caller must do in response to one event.
pub enum PumpAction<P> {
    /// Send a keyframe request over the peer connection, from the given
    /// sender toward the given media source.
    SendPli { sender_ssrc: u32, media_ssrc: u32 },
    /// Write this packet to the local track.
    Forward(P),
    /// Nothing.
    Ignore,
}

/// What one step of the pump decides: an action, and whether the pump
/// is finished afterwards.
pub struct PumpStep<P> {
    pub action: PumpAction<P>,
    pub done: bool,
}

/// The decision the pump takes on one event. A timer tick sends one
/// keyframe request, with sender zero and the remote track's SSRC as
/// the media source, unless the peer connection is gone, which ends the
/// pump. Every packet read is forwarded, exactly once, in order. The
/// remote read ending or the local pipe closing ends the pump.
pub open spec fn pump_step_spec<P>(media_ssrc: u32, ev: PumpEvent<P>) -> PumpStep<P> {
    match ev {
        PumpEvent::Tick { peer_alive } => if peer_alive {
            PumpStep { action: PumpAction::SendPli { sender_ssrc: 0, media_ssrc }, done: false }
        } else {
            PumpStep { action: PumpAction::Ignore, done: true }
        },
        PumpEvent::Packet(p) => PumpStep { action: PumpAction::Forward(p), done: false },
        PumpEvent::ReadClosed => PumpStep { action: PumpAction::Ignore, done: true },
        PumpEvent::WriteClosed => PumpStep { action: PumpAction::Ignore, done: true },
    }
}

/// Decide what to do with one event of the pump loop.
pub fn pump_step<P>(media_ssrc: u32, ev: PumpEvent<P>) -> (r: PumpStep<P>)
    ensures
        r == pump_step_spec(media_ssrc, ev),
{
    match ev {
        PumpEvent::Tick { peer_alive } => if peer_alive {
            PumpStep { action: PumpAction::SendPli { sender_ssrc: 0, media_ssrc }, done: false }
        } else {
            PumpStep { action: PumpAction::Ignore, done: true }
        },
        PumpEvent::Packet(p) => PumpStep { action: PumpAction::Forward(p), done: false },
        PumpEvent::ReadClosed => PumpStep { action: PumpAction::Ignore, done: true },
        PumpEvent::WriteClosed => PumpStep { action: PumpAction::Ignore, done: true },
    }
}

/// The packets the pump forwards to the local track while working
/// through these events, in order, up to the event that ends it.
pub open spec fn packets_forwarded<P>(media_ssrc: u32, evs: Seq<PumpEvent<P>>) -> Seq<P>
    decreases evs.len(),
{
    if evs.len() == 0 {
        Seq::empty()
    } else {
        let step = pump_step_spec(media_ssrc, evs[0]);
        let here = match step.action {
            PumpAction::Forward(p) => seq![p],
            _ => Seq::empty(),
        };
        if step.done {
            here
        } else {
            here + packets_forwarded(media_ssrc, evs.drop_first())
        }
    }
}

/// The packets read from the remote track among these events, in
/// order, up to the event that ends the pump.
pub open spec fn packets_read<P>(media_ssrc: u32, evs: Seq<PumpEvent<P>>) -> Seq<P>
    decreases evs.len(),
{
    if evs.len() == 0 {
        Seq::empty()
    } else {
        let step = pump_step_spec(media_ssrc, evs[0]);
        let here = match evs[0] {
            PumpEvent::Packet(p) => seq![p],
            _ => Seq::empty(),
        };
        if step.done {
            here
        } else {
            here + packets_read(media_ssrc, evs.drop_first())
        }
    }
}

/// How many keyframe requests the pump sends while working through
/// these events.
pub open spec fn pli_count<P>(media_ssrc: u32, evs: Seq<PumpEvent<P>>) -> int
    decreases evs.len(),
{
    if evs.len() == 0 {
        0int
    } else {
        let step = pump_step_spec(media_ssrc, evs[0]);
        let here: int = match step.action {
            PumpAction::SendPli { .. } => 1int,
            _ => 0int,
        };
        if step.done {
            here
        } else {
            here + pli_count(media_ssrc, evs.drop_first())
        }
    }
}

/// Per-packet forwarding loses nothing: every packet read from the
/// remote track before the pump ends is written to the local track,
/// exactly once and in reading order.
pub proof fn lemma_forwarding_is_lossless<P>(media_ssrc: u32, evs: Seq<PumpEvent<P>>)
    ensures
        packets_forwarded(media_ssrc, evs) == packets_read(media_ssrc, evs),
    decreases evs.len(),
{
    if evs.len() > 0 {
        lemma_forwarding_is_lossless(media_ssrc, evs.drop_first());
        assert(packets_forwarded(media_ssrc, evs) =~= packets_read(media_ssrc, evs));
    } else {
        assert(packets_forwarded(media_ssrc, evs) =~= packets_read(media_ssrc, evs));
    }
}

/// What a pump did after the fact: the packets it forwarded and the
/// keyframe requests it sent.
pub struct PumpLog<P> {
    pub forwarded: Vec<P>,
    pub plis: usize,
}

/// Drive a whole pump over a queue of events, stopping at the first
/// event that ends it. What comes back is exactly what the decision
/// function prescribes for those events.
pub fn run_pump<P>(media_ssrc: u32, events: Vec<PumpEvent<P>>) -> (log: PumpLog<P>)
    ensures
        log.forwarded@ == packets_forwarded(media_ssrc, events@),
        log.plis as int == pli_count(media_ssrc, events@),
{
    let ghost evs0 = events@;
    let n0 = events.len();
    let mut remaining = events;
    let mut forwarded: Vec<P> = Vec::new();
    let mut plis: usize = 0;
    let mut done = false;
    while !done && remaining.len() > 0
        invariant
            remaining@.len() <= n0,
            plis as int <= n0 as int - remaining@.len(),
            !done ==> {
                &&& packets_forwarded(media_ssrc, evs0) == forwarded@ + packets_forwarded(
                    media_ssrc,
                    remaining@,
                )
                &&& pli_count(media_ssrc, evs0) == plis + pli_count(media_ssrc, remaining@)
            },
            done ==> {
                &&& packets_forwarded(media_ssrc, evs0) == forwarded@
                &&& pli_count(media_ssrc, evs0) == plis
            },
        decreases remaining.len(),
    {
        let ghost rv = remaining@;
        let ev = remaining.remove(0);
        proof {
            assert(rv[0] == ev);
            assert(remaining@ =~= rv.drop_first());
        }
        let step = pump_step(media_ssrc, ev);
        match step.action {
            PumpAction::Forward(p) => {
                let ghost fwd_before = forwarded@;
                forwarded.push(p);
                proof {
                    assert(fwd_before + (seq![p] + packets_forwarded(media_ssrc, rv.drop_first()))
                        =~= forwarded@ + packets_forwarded(media_ssrc, rv.drop_first()));
                    assert(fwd_before + seq![p] =~= forwarded@);
                }
            },
            PumpAction::SendPli { .. } => {
                plis = plis + 1;
            },
            PumpAction::Ignore => {},
        }
        done = step.done;
        proof {
            if !done {
                assert(forwarded@ + (Seq::<P>::empty() + packets_forwarded(
                    media_ssrc,
                    rv.drop_first(),
                )) =~= forwarded@ + packets_forwarded(media_ssrc, rv.drop_first()));
            }
            assert(forwarded@ + Seq::<P>::empty() =~= forwarded@);
        }
    }
    proof {
        if !done {
            assert(packets_forwarded(media_ssrc, remaining@) =~= Seq::<P>::empty());
            assert(forwarded@ + Seq::<P>::empty() =~= forwarded@);
        }
    }
    PumpLog { forwarded, plis }
}

} // verus!
