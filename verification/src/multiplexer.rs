//! Merging a connection's two event sources into one ordered stream.
//!
//! Each connection receives externally-sent protocol requests and
//! internally-injected control messages.  Both feed one event stream: when
//! both sources have something ready, the internal message is yielded first,
//! so that a connection observes broker-authoritative facts ("you are now in
//! this session") before any externally-triggered transition that assumes
//! them.  The stream ends exactly when the external source ends; the internal
//! source never terminates the stream on its own.

use vstd::prelude::*;

use crate::messages::{InternalMessage, WsRequest};

verus! {

/// One event of a connection's merged stream.
#[derive(PartialEq, Debug)]
pub enum Event {
    Internal(InternalMessage),
    External(WsRequest),
}

/// The state of the external source at one poll.
#[derive(PartialEq, Debug)]
pub enum ExternalPoll {
    /// A parsed request is ready.
    Ready(WsRequest),
    /// The transport has closed; no further request will arrive.
    Closed,
    /// Nothing is ready yet.
    Pending,
}

/// What one poll of the merged stream decides.
#[derive(PartialEq, Debug)]
pub enum EventStep {
    /// Yield this event to the session loop.
    Yield(Event),
    /// The stream is over: run teardown.
    End,
    /// Suspend until a source wakes.
    Wait,
}

/// One step of the merge: internal messages take strict priority, and only a
/// closed external source ends the stream.
pub fn poll_event(internal: Option<InternalMessage>, external: ExternalPoll) -> (r: EventStep)
    ensures
        r == (match internal {
            Some(m) => EventStep::Yield(Event::Internal(m)),
            None => match external {
                ExternalPoll::Ready(q) => EventStep::Yield(Event::External(q)),
                ExternalPoll::Closed => EventStep::End,
                ExternalPoll::Pending => EventStep::Wait,
            },
        }),
{
    match internal {
        Some(m) => EventStep::Yield(Event::Internal(m)),
        None => match external {
            ExternalPoll::Ready(q) => EventStep::Yield(Event::External(q)),
            ExternalPoll::Closed => EventStep::End,
            ExternalPoll::Pending => EventStep::Wait,
        },
    }
}

} // verus!
