use fbox::messages::{InternalMessage, WsRequest};
use fbox::multiplexer::{poll_event, Event, EventStep, ExternalPoll};

#[test]
fn internal_message_is_preferred_over_a_ready_external() {
    let step = poll_event(
        Some(InternalMessage::PeerDisconnected(7)),
        ExternalPoll::Ready(WsRequest::RemoveFile { id: 1 }),
    );
    assert_eq!(
        step,
        EventStep::Yield(Event::Internal(InternalMessage::PeerDisconnected(7)))
    );
}

#[test]
fn external_request_is_yielded_when_no_internal_is_ready() {
    let step = poll_event(None, ExternalPoll::Ready(WsRequest::RemoveFile { id: 1 }));
    assert_eq!(
        step,
        EventStep::Yield(Event::External(WsRequest::RemoveFile { id: 1 }))
    );
}

#[test]
fn internal_message_is_preferred_even_when_transport_closed() {
    let step = poll_event(
        Some(InternalMessage::SessionCreated(vec![1, 2, 3])),
        ExternalPoll::Closed,
    );
    assert_eq!(
        step,
        EventStep::Yield(Event::Internal(InternalMessage::SessionCreated(vec![1, 2, 3])))
    );
}

#[test]
fn stream_ends_only_when_external_source_closes() {
    assert_eq!(poll_event(None, ExternalPoll::Closed), EventStep::End);
    assert_eq!(poll_event(None, ExternalPoll::Pending), EventStep::Wait);
}
