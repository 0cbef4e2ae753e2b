//! Laws that relate several transitions of the broker.
//!
//! Each law is stated over the transition predicates that the broker's
//! methods ensure, so everything proved here holds of every run of the
//! executable code.

use vstd::prelude::*;

use crate::codec::b64url_decode_of;
use crate::messages::{FileInfo, OutboundMessage, Outgoing, WsResponse};
use crate::seqs::{distinct, lemma_filter_distinct, lemma_filter_subset};
use crate::service::{add_file_post, connect_post, connect_rejects, disconnect_post, key_not,
    peer_disconnected_msgs, removal_msgs, request_file_post, upload_file_post, ConnectionHandler,
    SessionService};
use crate::session::{not_conn, owned_by};
use crate::MAX_FILE_COUNT;

verus! {

/// How many `FileRemoved` messages a batch of outgoing messages carries for
/// one recipient.
pub open spec fn file_removed_count(out: Seq<Outgoing>, m: usize) -> int
    decreases out.len(),
{
    if out.len() == 0 {
        0
    } else {
        file_removed_count(out.drop_last(), m) + (if out.last().to == m && (out.last().msg matches
            OutboundMessage::External(WsResponse::FileRemoved { .. })) {
            1int
        } else {
            0int
        })
    }
}

proof fn lemma_count_concat(a: Seq<Outgoing>, b: Seq<Outgoing>, m: usize)
    ensures
        file_removed_count(a + b, m) == file_removed_count(a, m) + file_removed_count(b, m),
    decreases b.len(),
{
    reveal_with_fuel(file_removed_count, 2);
    if b.len() == 0 {
        assert(a + b =~= a);
    } else {
        lemma_count_concat(a, b.drop_last(), m);
        assert((a + b).drop_last() =~= a + b.drop_last());
        assert((a + b).last() == b.last());
    }
}

proof fn lemma_count_file_removed_msgs(id: u128, members: Seq<usize>, m: usize)
    requires
        distinct(members),
    ensures
        file_removed_count(crate::service::file_removed_msgs(id, members), m) == (
        if members.contains(m) {
            1int
        } else {
            0int
        }),
    decreases members.len(),
{
    reveal_with_fuel(file_removed_count, 2);
    let msgs = crate::service::file_removed_msgs(id, members);
    if members.len() == 0 {
        assert(!members.contains(m));
    } else {
        lemma_count_file_removed_msgs(id, members.drop_last(), m);
        assert(msgs.drop_last() =~= crate::service::file_removed_msgs(id, members.drop_last()));
        assert(msgs.last().to == members.last());
        if members.last() == m {
            assert(members.contains(m));
            assert(!members.drop_last().contains(m)) by {
                if members.drop_last().contains(m) {
                    let w = choose|w: int|
                        0 <= w < members.drop_last().len() && members.drop_last()[w] == m;
                    assert(members[w] == m);
                    assert(members[members.len() - 1] == m);
                }
            }
        } else {
            assert(members.contains(m) == members.drop_last().contains(m)) by {
                if members.contains(m) {
                    let w = choose|w: int| 0 <= w < members.len() && members[w] == m;
                    assert(members.drop_last()[w] == m);
                }
                if members.drop_last().contains(m) {
                    let w = choose|w: int|
                        0 <= w < members.drop_last().len() && members.drop_last()[w] == m;
                    assert(members[w] == m);
                }
            }
        }
    }
}

proof fn lemma_count_removal_msgs(files: Seq<FileInfo>, members: Seq<usize>, m: usize)
    requires
        distinct(members),
    ensures
        file_removed_count(removal_msgs(files, members), m) == (if members.contains(m) {
            files.len() as int
        } else {
            0int
        }),
    decreases files.len(),
{
    reveal_with_fuel(file_removed_count, 2);
    if files.len() == 0 {
        assert(removal_msgs(files, members) =~= Seq::<Outgoing>::empty());
    } else {
        lemma_count_removal_msgs(files.drop_last(), members, m);
        lemma_count_file_removed_msgs(files.last().id, members, m);
        lemma_count_concat(
            removal_msgs(files.drop_last(), members),
            crate::service::file_removed_msgs(files.last().id, members),
            m,
        );
    }
}

proof fn lemma_count_peer_disconnected(members: Seq<usize>, conn: usize, m: usize)
    ensures
        file_removed_count(peer_disconnected_msgs(members, conn), m) == 0,
    decreases members.len(),
{
    reveal_with_fuel(file_removed_count, 2);
    let msgs = peer_disconnected_msgs(members, conn);
    if members.len() > 0 {
        lemma_count_peer_disconnected(members.drop_last(), conn, m);
        assert(msgs.drop_last() =~= peer_disconnected_msgs(members.drop_last(), conn));
    }
}

/// Law: a successful pairing consumes both phrases.  After a connect by a
/// still-pending caller creates the session, neither the presented phrase nor
/// the caller's own phrase remains in the pending registry.
pub proof fn law_pairing_consumes_codes(
    pre: SessionService,
    post: SessionService,
    conn: usize,
    h0: ConnectionHandler,
    h1: ConnectionHandler,
    phrase: Seq<char>,
    out: Seq<Outgoing>,
)
    requires
        !connect_rejects(h0, phrase),
        h0.session_seed is None,
        pre.has_pending(phrase),
        connect_post(pre, post, conn, h0, h1, phrase, out),
    ensures
        !post.has_pending(phrase),
        !post.has_pending(h0.phrase@),
{
    let m1 = pre.pending_connections@.filter(key_not(phrase));
    let m2 = m1.filter(key_not(h0.phrase@));
    assert(post.pending_connections@ == m2);
    assert(!post.has_pending(phrase)) by {
        if post.has_pending(phrase) {
            let k = choose|k: int| 0 <= k < m2.len() && m2[k].0@ == phrase;
            lemma_filter_subset(m1, key_not(h0.phrase@), k);
            let k1 = choose|k1: int| 0 <= k1 < m1.len() && m1[k1] == m2[k];
            lemma_filter_subset(pre.pending_connections@, key_not(phrase), k1);
        }
    }
    assert(!post.has_pending(h0.phrase@)) by {
        if post.has_pending(h0.phrase@) {
            let k = choose|k: int| 0 <= k < m2.len() && m2[k].0@ == h0.phrase@;
            lemma_filter_subset(m1, key_not(h0.phrase@), k);
        }
    }
}

/// Law: a pairing code that is not pending is never matched.  A connect
/// presenting it, by any caller in any state, is answered `PeerNotFound` and
/// changes nothing.
pub proof fn law_unknown_code_rejected(
    pre: SessionService,
    post: SessionService,
    conn: usize,
    h0: ConnectionHandler,
    h1: ConnectionHandler,
    phrase: Seq<char>,
    out: Seq<Outgoing>,
)
    requires
        !pre.has_pending(phrase),
        connect_post(pre, post, conn, h0, h1, phrase, out),
    ensures
        post == pre,
        h1 == h0,
        out.len() == 1,
        out[0] == (Outgoing { to: conn, msg: OutboundMessage::External(WsResponse::PeerNotFound) }),
{
}

/// Law: of two connects on one phrase pair, only the first forms a session.
/// After one participant's connect consumed the other's phrase and created
/// the session, the other participant's connect, presenting the creator's
/// phrase, is answered `PeerNotFound` and changes nothing.
pub proof fn law_second_connect_fails(
    b0: SessionService,
    b1: SessionService,
    b2: SessionService,
    first_conn: usize,
    second_conn: usize,
    ha0: ConnectionHandler,
    ha1: ConnectionHandler,
    hb0: ConnectionHandler,
    hb1: ConnectionHandler,
    first_phrase: Seq<char>,
    out1: Seq<Outgoing>,
    out2: Seq<Outgoing>,
)
    requires
        ha0.session_seed is None,
        !connect_rejects(ha0, first_phrase),
        b0.has_pending(first_phrase),
        connect_post(b0, b1, first_conn, ha0, ha1, first_phrase, out1),
        connect_post(b1, b2, second_conn, hb0, hb1, ha0.phrase@, out2),
    ensures
        b2 == b1,
        hb1 == hb0,
        out2.len() == 1,
        out2[0] == (Outgoing {
            to: second_conn,
            msg: OutboundMessage::External(WsResponse::PeerNotFound),
        }),
{
    law_pairing_consumes_codes(b0, b1, first_conn, ha0, ha1, first_phrase, out1);
}

/// Law: `AddFile` at the ceiling answers `FileCountLimitReached` and inserts
/// nothing.
pub proof fn law_file_ceiling(
    pre: SessionService,
    post: SessionService,
    conn: usize,
    h: ConnectionHandler,
    id: u128,
    name: String,
    mime_type: String,
    size: usize,
    out: Seq<Outgoing>,
    sd: Seq<u8>,
)
    requires
        h.session_seed matches Some(s) && s@ == sd,
        pre.has_session(sd),
        pre.session_at(sd).has_member(conn),
        pre.session_at(sd).files@.len() + 1 >= MAX_FILE_COUNT,
        add_file_post(pre, post, conn, h, id, name, mime_type, size, out),
    ensures
        post == pre,
        out.len() == 1,
        out[0] == (Outgoing {
            to: conn,
            msg: OutboundMessage::External(WsResponse::FileCountLimitReached),
        }),
{
}

/// Law: `AddFile` with a duplicate id never overwrites the stored file: the
/// registries are left exactly as they were.
pub proof fn law_duplicate_file_kept(
    pre: SessionService,
    post: SessionService,
    conn: usize,
    h: ConnectionHandler,
    id: u128,
    name: String,
    mime_type: String,
    size: usize,
    out: Seq<Outgoing>,
    sd: Seq<u8>,
)
    requires
        h.session_seed matches Some(s) && s@ == sd,
        pre.has_session(sd),
        pre.session_at(sd).has_file(id),
        add_file_post(pre, post, conn, h, id, name, mime_type, size, out),
    ensures
        post == pre,
        post.session_at(sd).file_at(id) == pre.session_at(sd).file_at(id),
        pre.session_at(sd).has_member(conn) && pre.session_at(sd).files@.len() + 1
            < MAX_FILE_COUNT ==> out == seq![
            Outgoing { to: conn, msg: OutboundMessage::External(WsResponse::FileAlreadyExists) },
        ],
{
    if pre.session_at(sd).has_member(conn) && pre.session_at(sd).files@.len() + 1
        < MAX_FILE_COUNT {
        assert(out =~= seq![
            Outgoing { to: conn, msg: OutboundMessage::External(WsResponse::FileAlreadyExists) },
        ]);
    }
}

/// Law: when a member owning files leaves a session in which other members
/// remain, each remaining member receives exactly one `FileRemoved` per file
/// the leaver owned, and the session stays registered.
pub proof fn law_disconnect_broadcasts(
    pre: SessionService,
    post: SessionService,
    conn: usize,
    h: ConnectionHandler,
    out: Seq<Outgoing>,
    sd: Seq<u8>,
    m: usize,
)
    requires
        pre.wf(),
        h.session_seed matches Some(s) && s@ == sd,
        pre.has_session(sd),
        pre.session_at(sd).connections@.filter(not_conn(conn)).contains(m),
        disconnect_post(pre, post, conn, h, out),
    ensures
        file_removed_count(out, m) == pre.session_at(sd).files@.filter(owned_by(conn)).len(),
        post.has_session(sd),
{
    let i = pre.session_idx(sd);
    let s0 = pre.sessions@[i];
    let members1 = s0.connections@.filter(not_conn(conn));
    let owned = s0.files@.filter(owned_by(conn));
    assert(distinct(members1)) by {
        assert(distinct(s0.connections@));
        lemma_filter_distinct(s0.connections@, not_conn(conn));
    }
    lemma_count_removal_msgs(owned, members1, m);
    lemma_count_peer_disconnected(members1, conn, m);
    lemma_count_concat(removal_msgs(owned, members1), peer_disconnected_msgs(members1, conn), m);
    assert(members1.len() > 0);
    assert(post.has_session(sd)) by {
        let s1 = post.sessions@[i];
        assert(s1.seed == s0.seed);
        assert(post.sessions@[i].seed@ == sd);
    }
}

/// Law: when the last member of a session disconnects, the session leaves
/// the registry in the same step, and nothing is broadcast.
pub proof fn law_last_disconnect_removes_session(
    pre: SessionService,
    post: SessionService,
    conn: usize,
    h: ConnectionHandler,
    out: Seq<Outgoing>,
    sd: Seq<u8>,
)
    requires
        pre.wf(),
        h.session_seed matches Some(s) && s@ == sd,
        pre.has_session(sd),
        pre.session_at(sd).connections@.filter(not_conn(conn)).len() == 0,
        disconnect_post(pre, post, conn, h, out),
    ensures
        !post.has_session(sd),
        out.len() == 0,
{
    let i = pre.session_idx(sd);
    let s0 = pre.sessions@[i];
    let members1 = s0.connections@.filter(not_conn(conn));
    assert(post.sessions@ == pre.sessions@.remove(i));
    assert(!post.has_session(sd)) by {
        if post.has_session(sd) {
            let k = choose|k: int| 0 <= k < post.sessions@.len() && post.sessions@[k].seed@ == sd;
            let k0 = if k < i {
                k
            } else {
                k + 1
            };
            assert(post.sessions@[k] == pre.sessions@[k0]);
            assert(pre.sessions@[k0].seed@ == pre.sessions@[i].seed@);
        }
    }
    assert(out.len() == 0) by {
        lemma_removal_msgs_no_members(s0.files@.filter(owned_by(conn)), members1);
        assert(peer_disconnected_msgs(members1, conn).len() == 0);
    }
}

proof fn lemma_removal_msgs_no_members(files: Seq<FileInfo>, members: Seq<usize>)
    requires
        members.len() == 0,
    ensures
        removal_msgs(files, members).len() == 0,
    decreases files.len(),
{
    if files.len() > 0 {
        lemma_removal_msgs_no_members(files.drop_last(), members);
    }
}

/// Law: a seed whose session has been removed answers every file request
/// with a failure and no change.
pub proof fn law_request_after_removal(
    pre: SessionService,
    post: SessionService,
    id: u128,
    seed: Seq<char>,
    relay_token: u64,
    r: Option<(FileInfo, Vec<Outgoing>)>,
    sd: Seq<u8>,
)
    requires
        b64url_decode_of(seed) == Some(sd),
        !pre.has_session(sd),
        request_file_post(pre, post, id, seed, relay_token, r),
    ensures
        r is None,
        post == pre,
{
}

/// Law: the relay pipe pairs one upload with one request.  After a file
/// request registers a relay under a token, an upload for the same file and
/// seed takes exactly that token, and the relay is pending no more.
pub proof fn law_relay_round_trip(
    pre: SessionService,
    mid: SessionService,
    post: SessionService,
    id: u128,
    seed: Seq<char>,
    relay_token: u64,
    file: FileInfo,
    notices: Vec<Outgoing>,
    r: Option<u64>,
    sd: Seq<u8>,
)
    requires
        pre.wf(),
        b64url_decode_of(seed) == Some(sd),
        pre.has_session(sd),
        request_file_post(pre, mid, id, seed, relay_token, Some((file, notices))),
        upload_file_post(mid, post, id, seed, r),
    ensures
        r == Some(relay_token),
        !post.session_at(sd).has_relay(id),
{
    let i = pre.session_idx(sd);
    let s0 = pre.sessions@[i];
    let s1 = mid.sessions@[i];
    assert(mid.has_session(sd));
    assert(mid.session_idx(sd) == i) by {
        let k = mid.session_idx(sd);
        assert(mid.sessions@[k].seed@ == sd);
        if k != i {
            assert(mid.sessions@[k] == pre.sessions@[k]);
            assert(pre.sessions@[k].seed@ == pre.sessions@[i].seed@);
        }
    }
    let last = s1.pending_relays@.len() - 1;
    assert(s1.pending_relays@[last] == (id, relay_token));
    assert(s1.has_relay(id));
    assert(s1.relay_idx(id) == last) by {
        let k = s1.relay_idx(id);
        if k != last {
            assert(s1.pending_relays@[k] == s0.pending_relays@[k]);
            assert(s0.has_relay(id));
        }
    }
    let s2 = post.sessions@[i];
    assert(post.session_idx(sd) == i) by {
        let k = post.session_idx(sd);
        assert(post.sessions@[k].seed@ == sd);
        if k != i {
            assert(post.sessions@[k] == mid.sessions@[k]);
            assert(mid.sessions@[k] == pre.sessions@[k]);
            assert(pre.sessions@[k].seed@ == pre.sessions@[i].seed@);
        }
    }
    assert(!s2.has_relay(id)) by {
        assert(s2.pending_relays@ == s1.pending_relays@.remove(last));
        if s2.has_relay(id) {
            let k = choose|k: int|
                0 <= k < s2.pending_relays@.len() && s2.pending_relays@[k].0 == id;
            assert(s2.pending_relays@[k] == s1.pending_relays@[k]);
            assert(s1.pending_relays@[k] == s0.pending_relays@[k]);
            assert(s0.has_relay(id));
        }
    }
}

/// Law: a file request for a file whose relay is already pending fails
/// without touching the pending-relay map or anything else.
pub proof fn law_relay_conflict(
    pre: SessionService,
    post: SessionService,
    id: u128,
    seed: Seq<char>,
    relay_token: u64,
    r: Option<(FileInfo, Vec<Outgoing>)>,
    sd: Seq<u8>,
)
    requires
        b64url_decode_of(seed) == Some(sd),
        pre.has_session(sd),
        pre.session_at(sd).has_relay(id),
        request_file_post(pre, post, id, seed, relay_token, r),
    ensures
        r is None,
        post == pre,
{
}

} // verus!
