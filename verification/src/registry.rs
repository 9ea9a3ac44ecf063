use vstd::prelude::*;

verus! {

/// The lifecycle of the single live-stream host slot.
///
/// `Vacant`: no host is present; this is the initial state. `Pending`: a
/// host connection has been accepted but its first media track has not
/// arrived yet. `Ready(t)`: the host's forwardable local track `t` is live
/// and may be attached to subscribing clients.
///
/// The slot is a single cell, so at most one host is `Pending` or `Ready`
/// at any moment. The type parameter is the track handle; the registry
/// itself never looks inside it.
pub enum HostState<T> {
    Vacant,
    Pending,
    Ready(T),
}

impl<T> HostState<T> {
    /// The transitions the host lifecycle allows: `Vacant -> Pending`
    /// (host accepted), `Pending -> Ready` (first track observed),
    /// any state `-> Vacant` (host teardown), and standing still.
    /// `Vacant -> Ready` and `Ready -> Pending` are never legal.
    pub open spec fn legal_step(pre: HostState<T>, post: HostState<T>) -> bool {
        ||| (pre is Vacant && post is Pending)
        ||| (pre is Pending && post is Ready)
        ||| post is Vacant
        ||| post == pre
    }

    /// Whether a newly arrived host may claim the slot.
    pub open spec fn accepts_host(self) -> bool {
        self is Vacant
    }

    /// The state after a host tried to claim the slot: only a vacant slot
    /// moves to `Pending`; an occupied slot is left untouched.
    pub open spec fn after_mark_pending(self) -> HostState<T> {
        if self is Vacant {
            HostState::Pending
        } else {
            self
        }
    }

    /// Try to claim the host slot for a newly accepted host connection.
    /// The claim is accepted exactly when the slot is vacant; a second
    /// concurrent host is rejected and the slot is left as it was.
    pub fn mark_pending(&mut self) -> (accepted: bool)
        ensures
            accepted == old(self).accepts_host(),
            *final(self) == old(self).after_mark_pending(),
    {
        match self {
            HostState::Vacant => {
                *self = HostState::Pending;
                true
            },
            _ => false,
        }
    }

    /// Publish the host's first track, promoting `Pending` to `Ready`.
    /// The track only ever arrives on the connection that claimed the
    /// slot, so the slot must be `Pending` when it does.
    pub fn publish(&mut self, track: T)
        requires
            *old(self) is Pending,
        ensures
            *final(self) == HostState::Ready(track),
    {
        *self = HostState::Ready(track);
    }

    /// The track a subscribing client would attach, if the host is live.
    /// A `Pending` host is treated as "no host yet": subscribers do not
    /// wait for the promotion to `Ready`.
    pub fn subscribe(&self) -> (r: Option<&T>)
        ensures
            match r {
                Some(t) => *self is Ready && *t == self->0,
                None => !(*self is Ready),
            },
    {
        match self {
            HostState::Ready(t) => Some(t),
            _ => None,
        }
    }

    /// The state after a host teardown: always vacant.
    pub open spec fn after_release(self) -> HostState<T> {
        HostState::Vacant
    }

    /// Tear the host down, returning the slot to `Vacant` from any state.
    pub fn release(&mut self)
        ensures
            *final(self) == old(self).after_release(),
            *final(self) is Vacant,
    {
        *self = HostState::Vacant;
    }

    /// Whether the slot is vacant, for callers that must pre-check.
    pub fn is_vacant(&self) -> (r: bool)
        ensures
            r == (*self is Vacant),
    {
        matches!(self, HostState::Vacant)
    }

    /// Whether a host claimed the slot but has not yet published a track.
    pub fn is_pending(&self) -> (r: bool)
        ensures
            r == (*self is Pending),
    {
        matches!(self, HostState::Pending)
    }

    /// Whether a live track is available to subscribers.
    pub fn is_ready(&self) -> (r: bool)
        ensures
            r == (*self is Ready),
    {
        matches!(self, HostState::Ready(_))
    }
}

/// The registry is in exactly one of the three lifecycle states at every
/// observation point: the three are exhaustive and mutually exclusive.
pub proof fn lemma_exactly_one_state<T>(s: HostState<T>)
    ensures
        s is Vacant || s is Pending || s is Ready,
        !(s is Vacant && s is Pending),
        !(s is Vacant && s is Ready),
        !(s is Pending && s is Ready),
{
}

/// Every outcome the registry operations allow is a legal step of the
/// lifecycle graph: claiming the slot, publishing a track under a pending
/// claim, and tearing the host down never make a forbidden transition.
pub proof fn lemma_operations_take_legal_steps<T>(pre: HostState<T>, track: T)
    ensures
        HostState::legal_step(pre, pre.after_mark_pending()),
        pre is Pending ==> HostState::legal_step(pre, HostState::Ready(track)),
        HostState::legal_step(pre, HostState::Vacant),
{
}

/// Claims do not stack: once a host has been accepted, the slot is no
/// longer vacant, so a second host's claim is rejected until the first
/// is torn down.
pub proof fn lemma_second_host_rejected<T>(s: HostState<T>)
    requires
        s.accepts_host(),
    ensures
        !s.after_mark_pending().accepts_host(),
{
}

/// Claiming the slot and then tearing the host down without publishing
/// returns the registry to `Vacant`, ready for the next host.
pub proof fn lemma_claim_then_release_roundtrip<T>(s: HostState<T>)
    requires
        s.accepts_host(),
    ensures
        s.after_mark_pending() is Pending,
        s.after_mark_pending().after_release() is Vacant,
        s.after_mark_pending().after_release().accepts_host(),
{
}

} // verus!
