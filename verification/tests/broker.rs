use fbox::messages::{InternalMessage, OutboundMessage, Outgoing, WsRequest, WsResponse};
use fbox::multiplexer::Event;
use fbox::service::{ConnectionHandler, SessionService};

fn paired_service() -> (SessionService, ConnectionHandler, ConnectionHandler, String) {
    let mut svc = SessionService::new("server secret".to_string());
    let (ha, out_a) = svc.create_pending_connection(1).unwrap();
    assert_eq!(out_a.len(), 1);
    assert_eq!(out_a[0].to, 1);
    assert!(matches!(
        &out_a[0].msg,
        OutboundMessage::External(WsResponse::Created { phrase }) if *phrase == ha.phrase
    ));
    let (mut hb, _) = svc.create_pending_connection(2).unwrap();

    // B presents A's phrase; the session forms from B's own seed.
    let out = svc.on_connect(2, &mut hb, ha.phrase.clone());
    assert_eq!(out.len(), 3);
    assert_eq!(out[0].to, 1);
    assert!(matches!(
        &out[0].msg,
        OutboundMessage::Internal(InternalMessage::SessionCreated(_))
    ));
    assert_eq!(out[1].to, 1);
    assert_eq!(out[2].to, 2);

    // A adopts the session by consuming the internal notice.
    let seed = match &out[0].msg {
        OutboundMessage::Internal(InternalMessage::SessionCreated(seed)) => seed.clone(),
        _ => unreachable!(),
    };
    let mut ha = ha;
    let adopted = svc.handle_event(1, &mut ha, Event::Internal(InternalMessage::SessionCreated(seed)));
    assert!(adopted.is_empty());
    assert!(ha.session_seed.is_some());
    let encoded = match &out[1].msg {
        OutboundMessage::External(WsResponse::Connected { seed, .. }) => seed.clone(),
        _ => unreachable!(),
    };
    (svc, ha, hb, encoded)
}

#[test]
fn created_then_paired() {
    let (svc, ha, hb, _) = paired_service();
    assert_eq!(svc.sessions.len(), 1);
    assert_eq!(svc.sessions[0].connections, vec![2, 1]);
    assert!(svc.pending_connections.is_empty());
    assert_eq!(ha.session_seed.as_deref(), Some(svc.sessions[0].seed.as_slice()));
    assert_eq!(hb.session_seed.as_deref(), Some(svc.sessions[0].seed.as_slice()));
}

#[test]
fn connected_responses_carry_member_ids_and_empty_files() {
    let mut svc = SessionService::new("server secret".to_string());
    let (ha, _) = svc.create_pending_connection(1).unwrap();
    let (mut hb, _) = svc.create_pending_connection(2).unwrap();
    let out = svc.on_connect(2, &mut hb, ha.phrase.clone());
    match &out[1].msg {
        OutboundMessage::External(WsResponse::Connected { connection_id, files, .. }) => {
            assert_eq!(*connection_id, 1);
            assert!(files.is_empty());
        },
        other => panic!("unexpected message: {other:?}"),
    }
    match &out[2].msg {
        OutboundMessage::External(WsResponse::Connected { connection_id, files, .. }) => {
            assert_eq!(*connection_id, 2);
            assert!(files.is_empty());
        },
        other => panic!("unexpected message: {other:?}"),
    }
}

#[test]
fn short_phrase_is_peer_not_found_and_registry_unchanged() {
    let mut svc = SessionService::new("server secret".to_string());
    let (_ha, _) = svc.create_pending_connection(1).unwrap();
    let (mut hb, _) = svc.create_pending_connection(2).unwrap();
    let pending_before = svc.pending_connections.clone();
    let out = svc.on_connect(2, &mut hb, "too short".to_string());
    assert_eq!(
        out,
        vec![Outgoing { to: 2, msg: OutboundMessage::External(WsResponse::PeerNotFound) }]
    );
    assert_eq!(svc.pending_connections, pending_before);
    assert!(svc.sessions.is_empty());
}

#[test]
fn own_phrase_is_peer_not_found() {
    let mut svc = SessionService::new("server secret".to_string());
    let (mut ha, _) = svc.create_pending_connection(1).unwrap();
    let phrase = ha.phrase.clone();
    let out = svc.on_connect(1, &mut ha, phrase);
    assert_eq!(
        out,
        vec![Outgoing { to: 1, msg: OutboundMessage::External(WsResponse::PeerNotFound) }]
    );
    assert_eq!(svc.pending_connections.len(), 1);
}

#[test]
fn consumed_phrase_is_never_matched_again() {
    let (mut svc, ha, _hb, _) = paired_service();
    let (mut hc, _) = svc.create_pending_connection(3).unwrap();
    let out = svc.on_connect(3, &mut hc, ha.phrase.clone());
    assert_eq!(
        out,
        vec![Outgoing { to: 3, msg: OutboundMessage::External(WsResponse::PeerNotFound) }]
    );
    assert_eq!(svc.sessions.len(), 1);
    assert_eq!(svc.sessions[0].connections, vec![2, 1]);
}

#[test]
fn second_connect_of_pair_fails() {
    let mut svc = SessionService::new("server secret".to_string());
    let (mut ha, _) = svc.create_pending_connection(1).unwrap();
    let (mut hb, _) = svc.create_pending_connection(2).unwrap();
    let out_b = svc.on_connect(2, &mut hb, ha.phrase.clone());
    assert_eq!(out_b.len(), 3);
    // A's racing connect against B's phrase arrives second and must fail.
    let out_a = svc.on_connect(1, &mut ha, hb.phrase.clone());
    assert_eq!(
        out_a,
        vec![Outgoing { to: 1, msg: OutboundMessage::External(WsResponse::PeerNotFound) }]
    );
    assert_eq!(svc.sessions.len(), 1);
}

#[test]
fn add_file_broadcasts_to_all_members() {
    let (mut svc, _ha, hb, _) = paired_service();
    let out = svc.on_add_file(2, &hb, 0xf1, "x.txt".to_string(), "text/plain".to_string(), 10);
    assert_eq!(out.len(), 2);
    assert_eq!(out[0].to, 2);
    assert_eq!(out[1].to, 1);
    for o in &out {
        match &o.msg {
            OutboundMessage::External(WsResponse::FileAdded(f)) => {
                assert_eq!(f.id, 0xf1);
                assert_eq!(f.name, "x.txt");
                assert_eq!(f.mime_type, "text/plain");
                assert_eq!(f.size, 10);
                assert_eq!(f.connection_id, 2);
            },
            other => panic!("unexpected message: {other:?}"),
        }
    }
    assert_eq!(svc.sessions[0].files.len(), 1);
}

#[test]
fn add_file_without_session_is_session_not_found() {
    let mut svc = SessionService::new("server secret".to_string());
    let (ha, _) = svc.create_pending_connection(1).unwrap();
    let out = svc.on_add_file(1, &ha, 0xf1, "x".to_string(), "t".to_string(), 1);
    assert_eq!(
        out,
        vec![Outgoing { to: 1, msg: OutboundMessage::External(WsResponse::SessionNotFound) }]
    );
}

#[test]
fn add_file_duplicate_id_keeps_first_file() {
    let (mut svc, _ha, hb, _) = paired_service();
    svc.on_add_file(2, &hb, 0xf1, "first.txt".to_string(), "text/plain".to_string(), 10);
    let out = svc.on_add_file(2, &hb, 0xf1, "second.txt".to_string(), "text/html".to_string(), 99);
    assert_eq!(
        out,
        vec![Outgoing { to: 2, msg: OutboundMessage::External(WsResponse::FileAlreadyExists) }]
    );
    assert_eq!(svc.sessions[0].files.len(), 1);
    assert_eq!(svc.sessions[0].files[0].name, "first.txt");
    assert_eq!(svc.sessions[0].files[0].size, 10);
}

#[test]
fn add_file_ceiling_is_enforced() {
    let (mut svc, _ha, hb, _) = paired_service();
    // the ceiling rejects an insertion once the count would reach 10
    for k in 0..9u128 {
        let out = svc.on_add_file(2, &hb, k, format!("f{k}"), "t".to_string(), 1);
        assert_eq!(out.len(), 2, "file {k} should broadcast to both members");
    }
    assert_eq!(svc.sessions[0].files.len(), 9);
    let out = svc.on_add_file(2, &hb, 100, "over".to_string(), "t".to_string(), 1);
    assert_eq!(
        out,
        vec![Outgoing { to: 2, msg: OutboundMessage::External(WsResponse::FileCountLimitReached) }]
    );
    assert_eq!(svc.sessions[0].files.len(), 9);
}

#[test]
fn remove_file_broadcasts_and_absent_id_is_silent() {
    let (mut svc, _ha, hb, _) = paired_service();
    svc.on_add_file(2, &hb, 0xf1, "x".to_string(), "t".to_string(), 1);
    let out = svc.on_remove_file(2, &hb, 0xf1);
    assert_eq!(
        out,
        vec![
            Outgoing { to: 2, msg: OutboundMessage::External(WsResponse::FileRemoved { id: 0xf1 }) },
            Outgoing { to: 1, msg: OutboundMessage::External(WsResponse::FileRemoved { id: 0xf1 }) },
        ]
    );
    assert!(svc.sessions[0].files.is_empty());
    let out = svc.on_remove_file(2, &hb, 0xf1);
    assert!(out.is_empty());
}

#[test]
fn relay_request_and_upload_round_trip() {
    let (mut svc, ha, _hb, encoded) = paired_service();
    svc.on_add_file(1, &ha, 0xf1, "x.txt".to_string(), "text/plain".to_string(), 10);

    let (file, out) = svc.request_file(0xf1, encoded.clone(), 77).unwrap();
    assert_eq!(file.id, 0xf1);
    assert_eq!(file.connection_id, 1);
    assert_eq!(
        out,
        vec![Outgoing { to: 1, msg: OutboundMessage::External(WsResponse::FileRequested { id: 0xf1 }) }]
    );

    // a second request while the relay is pending fails and changes nothing
    assert!(svc.request_file(0xf1, encoded.clone(), 88).is_none());
    assert_eq!(svc.sessions[0].pending_relays, vec![(0xf1, 77)]);

    // the upload takes the pending relay exactly once
    assert_eq!(svc.upload_file(0xf1, encoded.clone()), Some(77));
    assert!(svc.sessions[0].pending_relays.is_empty());
    assert_eq!(svc.upload_file(0xf1, encoded), None);
}

#[test]
fn request_file_unknown_ids_fail() {
    let (mut svc, ha, _hb, encoded) = paired_service();
    assert!(svc.request_file(0xf1, encoded.clone(), 1).is_none());
    assert!(svc.request_file(0xf1, "not base64!!".to_string(), 1).is_none());
    svc.on_add_file(1, &ha, 0xf1, "x".to_string(), "t".to_string(), 1);
    assert!(svc.request_file(0xf2, encoded, 1).is_none());
}

#[test]
fn disconnect_removes_owned_files_and_notifies_rest() {
    let (mut svc, ha, hb, _) = paired_service();
    svc.on_add_file(1, &ha, 0xa1, "a1".to_string(), "t".to_string(), 1);
    svc.on_add_file(1, &ha, 0xa2, "a2".to_string(), "t".to_string(), 2);
    svc.on_add_file(2, &hb, 0xb1, "b1".to_string(), "t".to_string(), 3);

    let out = svc.remove_connection(1, ha);
    // two owned files, one remaining member: two FileRemoved plus one PeerDisconnected
    assert_eq!(
        out,
        vec![
            Outgoing { to: 2, msg: OutboundMessage::External(WsResponse::FileRemoved { id: 0xa1 }) },
            Outgoing { to: 2, msg: OutboundMessage::External(WsResponse::FileRemoved { id: 0xa2 }) },
            Outgoing { to: 2, msg: OutboundMessage::Internal(InternalMessage::PeerDisconnected(1)) },
        ]
    );
    assert_eq!(svc.sessions.len(), 1);
    assert_eq!(svc.sessions[0].connections, vec![2]);
    assert_eq!(svc.sessions[0].files.len(), 1);
    assert_eq!(svc.sessions[0].files[0].id, 0xb1);
}

#[test]
fn last_disconnect_removes_session() {
    let (mut svc, ha, hb, encoded) = paired_service();
    svc.on_add_file(1, &ha, 0xf1, "x".to_string(), "t".to_string(), 1);
    let out = svc.remove_connection(1, ha);
    assert_eq!(out.len(), 2);
    let out = svc.remove_connection(2, hb);
    assert!(out.is_empty());
    assert!(svc.sessions.is_empty());
    // the seed no longer resolves
    assert!(svc.request_file(0xf1, encoded, 1).is_none());
}

#[test]
fn pending_connection_teardown_is_silent() {
    let mut svc = SessionService::new("server secret".to_string());
    let (ha, _) = svc.create_pending_connection(1).unwrap();
    let out = svc.remove_connection(1, ha);
    assert!(out.is_empty());
    assert!(svc.pending_connections.is_empty());
    assert!(svc.sessions.is_empty());
}

#[test]
fn handle_event_dispatches_requests() {
    let (mut svc, mut ha, _hb, _) = paired_service();
    let out = svc.handle_event(
        1,
        &mut ha,
        Event::External(WsRequest::AddFile {
            id: 0xf1,
            name: "x".to_string(),
            mime_type: "t".to_string(),
            size: 4,
        }),
    );
    assert_eq!(out.len(), 2);
    let out = svc.handle_event(1, &mut ha, Event::External(WsRequest::RemoveFile { id: 0xf1 }));
    assert_eq!(out.len(), 2);
    let out = svc.handle_event(
        1,
        &mut ha,
        Event::Internal(InternalMessage::PeerDisconnected(2)),
    );
    assert!(out.is_empty());
}

#[test]
fn session_broadcasts_address_members_in_order() {
    let (svc, _ha, _hb, _) = paired_service();
    let session = &svc.sessions[0];
    let out = session.broadcast_external(&WsResponse::FileRemoved { id: 9 });
    assert_eq!(
        out,
        vec![
            Outgoing { to: 2, msg: OutboundMessage::External(WsResponse::FileRemoved { id: 9 }) },
            Outgoing { to: 1, msg: OutboundMessage::External(WsResponse::FileRemoved { id: 9 }) },
        ]
    );
    let out = session.broadcast_external_except(2, &WsResponse::FileRemoved { id: 9 });
    assert_eq!(
        out,
        vec![Outgoing { to: 1, msg: OutboundMessage::External(WsResponse::FileRemoved { id: 9 }) }]
    );
}

#[test]
fn knows_conn_tracks_pending_and_members() {
    let mut svc = SessionService::new("pw".to_string());
    assert!(!svc.knows_conn(1));
    let (ha, _) = svc.create_pending_connection(1).unwrap();
    assert!(svc.knows_conn(1));
    let (mut hb, _) = svc.create_pending_connection(2).unwrap();
    svc.on_connect(2, &mut hb, ha.phrase.clone());
    // both are members now, neither is pending
    assert!(svc.knows_conn(1));
    assert!(svc.knows_conn(2));
    assert!(!svc.knows_conn(3));
}
