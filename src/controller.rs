//! The outbound controller link: connect with a fixed back-off until it
//! succeeds, then stream length-prefixed events until a write fails.

use vstd::prelude::*;

verus! {

/// Seconds to wait after a failed connection attempt before the next one.
pub const RECONNECT_DELAY_SECS: u64 = 10;

/// Where the link stands.
#[derive(Clone, Copy, Debug, PartialEq, Eq, Structural)]
pub enum LinkState {
    /// No connection yet; attempts continue without limit.
    Connecting,
    /// Connected; every input event is framed and written.
    Streaming,
    /// A write failed after connecting: the session is over.
    Closed,
}

/// What happened on the link since the last decision.
#[derive(Clone, Copy, Debug, PartialEq, Eq, Structural)]
pub enum LinkEvent {
    ConnectFailed,
    Connected,
    /// An event was written and flushed.
    Sent,
    WriteFailed,
}

/// What the owner of the socket does next.
#[derive(Clone, Copy, Debug, PartialEq, Eq, Structural)]
pub enum LinkAction {
    /// Sleep this many seconds, then try to connect again.
    RetryAfter(u64),
    /// Wait for the next input event, frame it and write it.
    SendNext,
    /// Report the failure to the operator and end the session.
    Stop,
}

/// The next state and action for `event` in `state`. An event that cannot
/// occur in a state leaves the state as it is and repeats its action.
pub open spec fn link_step(state: LinkState, event: LinkEvent) -> (LinkState, LinkAction) {
    match (state, event) {
        (LinkState::Connecting, LinkEvent::Connected) => (LinkState::Streaming, LinkAction::SendNext),
        (LinkState::Connecting, _) => (LinkState::Connecting, LinkAction::RetryAfter(10)),
        (LinkState::Streaming, LinkEvent::WriteFailed) => (LinkState::Closed, LinkAction::Stop),
        (LinkState::Streaming, _) => (LinkState::Streaming, LinkAction::SendNext),
        (LinkState::Closed, _) => (LinkState::Closed, LinkAction::Stop),
    }
}

/// The decisions of one controller session.
pub struct Controller {
    state: LinkState,
}

impl Controller {
    /// A session that has not connected yet.
    pub fn new() -> (r: Controller)
        ensures
            r.state() == LinkState::Connecting,
    {
        Controller { state: LinkState::Connecting }
    }

    pub closed spec fn state(&self) -> LinkState {
        self.state
    }

    /// The current state.
    pub fn link_state(&self) -> (r: LinkState)
        ensures
            r == self.state(),
    {
        self.state
    }

    /// Moves the session on by `event` and says what to do next.
    pub fn step(&mut self, event: LinkEvent) -> (r: LinkAction)
        ensures
            (final(self).state(), r) == link_step(old(self).state(), event),
    {
        let (next, action) = match (self.state, event) {
            (LinkState::Connecting, LinkEvent::Connected) => (LinkState::Streaming, LinkAction::SendNext),
            (LinkState::Connecting, _) => (LinkState::Connecting, LinkAction::RetryAfter(RECONNECT_DELAY_SECS)),
            (LinkState::Streaming, LinkEvent::WriteFailed) => (LinkState::Closed, LinkAction::Stop),
            (LinkState::Streaming, _) => (LinkState::Streaming, LinkAction::SendNext),
            (LinkState::Closed, _) => (LinkState::Closed, LinkAction::Stop),
        };
        self.state = next;
        action
    }
}

/// Once closed, a session stays closed and only stops, whatever happens.
pub proof fn lemma_closed_is_final(event: LinkEvent)
    ensures
        link_step(LinkState::Closed, event) == (LinkState::Closed, LinkAction::Stop),
{
}

/// Connection failures never end a session: each one is answered with the
/// fixed back-off and a new attempt.
pub proof fn lemma_connect_retries_forever(event: LinkEvent)
    requires
        event != LinkEvent::Connected,
    ensures
        link_step(LinkState::Connecting, event) == (LinkState::Connecting, LinkAction::RetryAfter(RECONNECT_DELAY_SECS)),
{
}

} // verus!
