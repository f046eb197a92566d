//! When the remote host is asked for its listening ports.
use crate::forward::ConnectionState;
use vstd::prelude::*;

verus! {

/// How often the remote host is asked for its listening ports, in seconds.
pub const PORT_POLL_INTERVAL_SECS: u64 = 3;

/// A step of the polling loop.
#[derive(Clone, Copy, Debug, PartialEq, Eq, Structural)]
pub enum PollAction {
    /// Ask the remote host for its listening ports. The reply goes to
    /// `ForwardManager::on_poll_reply`.
    Query,
    /// Wait for `PORT_POLL_INTERVAL_SECS`.
    Sleep,
}

impl PollAction {
    /// The step that follows this one, given how the connection is doing (it is missing if the
    /// remote client is gone). Every query is followed by a wait, and a query is made only on an
    /// established connection. The loop starts as if a wait had just ended.
    pub open spec fn then_do(self, connection: Option<ConnectionState>) -> PollAction {
        if self == PollAction::Sleep && connection == Some(ConnectionState::Connected) {
            PollAction::Query
        } else {
            PollAction::Sleep
        }
    }
}

/// The step of the polling loop that follows `last`.
pub fn next_poll_action(last: PollAction, connection: Option<ConnectionState>) -> (r: PollAction)
    ensures
        r == last.then_do(connection),
{
    match last {
        PollAction::Query => PollAction::Sleep,
        PollAction::Sleep => match connection {
            Some(ConnectionState::Connected) => PollAction::Query,
            _ => PollAction::Sleep,
        },
    }
}

} // verus!
