//! The session broker: the pairing registry, the session registry and the
//! per-connection state machine.
//!
//! Every operation is a transition from the broker's state (and possibly one
//! connection's own state) to the next state, returning the messages to
//! deliver.  The transport layer around the library drives the loop: it waits
//! for the next event, calls the transition, and performs the sends.

use vstd::prelude::*;
use vstd::pervasive::unreached;

use crate::codec::{b64url_decode_of, b64url_of, decode_seed, derive_seed, encode_seed,
    generate_phrase, mnemonic_ok, seed_of, words_shaped};
use crate::messages::{FileInfo, InternalMessage, OutboundMessage, Outgoing, WsRequest,
    WsResponse};
use crate::multiplexer::Event;
use crate::phrase_len_ok;
use crate::session::{broadcast_msgs, not_conn, not_owned_by, owned_by, Session};
use crate::MAX_FILE_COUNT;

verus! {

/// How many fresh phrases the broker draws before giving a collision up.
const PHRASE_ATTEMPTS: usize = 64;

/// Keeps the pending entries whose phrase differs from the one given.
pub open spec fn key_not(phrase: Seq<char>) -> spec_fn((String, usize)) -> bool {
    |e: (String, usize)| e.0@ != phrase
}

/// The state one connection's own loop carries: its phrase, the seed its
/// phrase derives, and the session it has adopted, if any.
pub struct ConnectionHandler {
    /// The pairing phrase issued to this connection.
    pub phrase: String,
    /// The seed derived from this connection's own phrase: the identity of
    /// the session this connection creates if it pairs first.
    pub own_seed: Vec<u8>,
    /// The seed of the session this connection currently belongs to.
    pub session_seed: Option<Vec<u8>>,
}

/// The broker: which phrases are pending on which connection, and which
/// sessions are live.
pub struct SessionService {
    /// The server-wide password mixed into every seed derivation.
    pub seed_password: String,
    /// Pending connections: pairing phrase and the connection advertising it.
    pub pending_connections: Vec<(String, usize)>,
    /// Live sessions, keyed by their seed.
    pub sessions: Vec<Session>,
}

impl SessionService {
    pub open spec fn has_pending(self, phrase: Seq<char>) -> bool {
        exists|i: int|
            0 <= i < self.pending_connections@.len() && self.pending_connections@[i].0@ == phrase
    }

    pub open spec fn pending_idx(self, phrase: Seq<char>) -> int {
        choose|i: int|
            0 <= i < self.pending_connections@.len() && self.pending_connections@[i].0@ == phrase
    }

    pub open spec fn pending_conn(self, phrase: Seq<char>) -> usize {
        self.pending_connections@[self.pending_idx(phrase)].1
    }

    pub open spec fn has_session(self, seed: Seq<u8>) -> bool {
        exists|i: int| 0 <= i < self.sessions@.len() && self.sessions@[i].seed@ == seed
    }

    pub open spec fn session_idx(self, seed: Seq<u8>) -> int {
        choose|i: int| 0 <= i < self.sessions@.len() && self.sessions@[i].seed@ == seed
    }

    pub open spec fn session_at(self, seed: Seq<u8>) -> Session {
        self.sessions@[self.session_idx(seed)]
    }

    pub open spec fn conn_pending(self, c: usize) -> bool {
        exists|i: int|
            0 <= i < self.pending_connections@.len() && self.pending_connections@[i].1 == c
    }

    pub open spec fn conn_member(self, c: usize) -> bool {
        exists|j: int| 0 <= j < self.sessions@.len() && self.sessions@[j].has_member(c)
    }

    /// Whether the broker has seen this connection id, pending or as a
    /// session member.
    pub open spec fn conn_known(self, c: usize) -> bool {
        self.conn_pending(c) || self.conn_member(c)
    }

    /// Well-formedness of the registries: pending phrases and their
    /// connections are free of duplicates, session seeds are free of
    /// duplicates, every session is well-formed and non-empty, and a pending
    /// connection is not a member of any session.
    pub open spec fn wf(self) -> bool {
        &&& forall|i: int, j: int|
            0 <= i < j < self.pending_connections@.len()
                ==> self.pending_connections@[i].0@ != self.pending_connections@[j].0@
                    && self.pending_connections@[i].1 != self.pending_connections@[j].1
        &&& forall|i: int, j: int|
            0 <= i < j < self.sessions@.len() ==> self.sessions@[i].seed@ != self.sessions@[j].seed@
        &&& forall|i: int|
            0 <= i < self.sessions@.len() ==> (#[trigger] self.sessions@[i]).wf()
                && self.sessions@[i].connections@.len() > 0
        &&& forall|i: int, j: int|
            #![trigger self.pending_connections@[i], self.sessions@[j]]
            0 <= i < self.pending_connections@.len() && 0 <= j < self.sessions@.len()
                ==> !self.sessions@[j].has_member(self.pending_connections@[i].1)
    }

    /// In a well-formed broker the pending entry at an index is the one entry
    /// for its phrase.
    pub proof fn lemma_pending_idx(self, i: int)
        requires
            self.wf(),
            0 <= i < self.pending_connections@.len(),
        ensures
            self.has_pending(self.pending_connections@[i].0@),
            self.pending_idx(self.pending_connections@[i].0@) == i,
    {
        let phrase = self.pending_connections@[i].0@;
        assert(self.has_pending(phrase));
        let j = self.pending_idx(phrase);
        if j < i {
            assert(self.pending_connections@[j].0@ != self.pending_connections@[i].0@);
        } else if j > i {
            assert(self.pending_connections@[i].0@ != self.pending_connections@[j].0@);
        }
    }

    /// In a well-formed broker the session at an index is the one session
    /// with its seed.
    pub proof fn lemma_session_idx(self, i: int)
        requires
            self.wf(),
            0 <= i < self.sessions@.len(),
        ensures
            self.has_session(self.sessions@[i].seed@),
            self.session_idx(self.sessions@[i].seed@) == i,
    {
        let seed = self.sessions@[i].seed@;
        assert(self.has_session(seed));
        let j = self.session_idx(seed);
        if j < i {
            assert(self.sessions@[j].seed@ != self.sessions@[i].seed@);
        } else if j > i {
            assert(self.sessions@[i].seed@ != self.sessions@[j].seed@);
        }
    }

    /// A broker with no pending connection and no session.
    pub fn new(seed_password: String) -> (s: Self)
        ensures
            s.seed_password == seed_password,
            s.pending_connections@ == Seq::<(String, usize)>::empty(),
            s.sessions@ == Seq::<Session>::empty(),
            s.wf(),
    {
        SessionService { seed_password, pending_connections: Vec::new(), sessions: Vec::new() }
    }

    /// A fresh pairing phrase, independent of any connection.
    pub fn generate_mnemonic(&self) -> (r: String)
        ensures
            phrase_len_ok(r@.len()),
            words_shaped(r@, crate::PHRASE_WORDS as nat),
            mnemonic_ok(r@),
    {
        generate_phrase()
    }

    /// Whether the broker has seen this connection id.
    pub fn knows_conn(&self, c: usize) -> (r: bool)
        ensures
            r == self.conn_known(c),
    {
        let mut i: usize = 0;
        while i < self.pending_connections.len()
            invariant
                i <= self.pending_connections@.len(),
                forall|k: int| 0 <= k < i ==> self.pending_connections@[k].1 != c,
            decreases self.pending_connections@.len() - i,
        {
            if self.pending_connections[i].1 == c {
                return true;
            }
            i += 1;
        }
        let mut j: usize = 0;
        while j < self.sessions.len()
            invariant
                j <= self.sessions@.len(),
                forall|k: int| 0 <= k < j ==> !(#[trigger] self.sessions@[k]).has_member(c),
                forall|k: int|
                    0 <= k < self.pending_connections@.len()
                        ==> (#[trigger] self.pending_connections@[k]).1 != c,
            decreases self.sessions@.len() - j,
        {
            if self.sessions[j].is_member(c) {
                return true;
            }
            j += 1;
        }
        assert(!self.conn_known(c)) by {
            if self.conn_pending(c) {
                let k = choose|k: int|
                    0 <= k < self.pending_connections@.len()
                        && self.pending_connections@[k].1 == c;
                assert(self.pending_connections@[k].1 != c);
            }
            if self.conn_member(c) {
                let k = choose|k: int|
                    0 <= k < self.sessions@.len() && self.sessions@[k].has_member(c);
                assert(!self.sessions@[k].has_member(c));
            }
        }
        false
    }

    /// The position of the pending entry for a phrase, if present.
    fn find_pending(&self, phrase: &String) -> (r: Option<usize>)
        ensures
            match r {
                Some(i) => i < self.pending_connections@.len() && self.pending_connections@[
                    i as int
                ].0@ == phrase@,
                None => !self.has_pending(phrase@),
            },
    {
        let mut i: usize = 0;
        while i < self.pending_connections.len()
            invariant
                i <= self.pending_connections@.len(),
                forall|k: int| 0 <= k < i ==> self.pending_connections@[k].0@ != phrase@,
            decreases self.pending_connections@.len() - i,
        {
            if self.pending_connections[i].0 == *phrase {
                return Some(i);
            }
            i += 1;
        }
        assert(!self.has_pending(phrase@)) by {
            if self.has_pending(phrase@) {
                let k = choose|k: int|
                    0 <= k < self.pending_connections@.len()
                        && self.pending_connections@[k].0@ == phrase@;
                assert(self.pending_connections@[k].0@ != phrase@);
            }
        }
        None
    }

    /// The position of the session with a seed, if present.
    fn find_session(&self, seed: &Vec<u8>) -> (r: Option<usize>)
        ensures
            match r {
                Some(i) => i < self.sessions@.len() && self.sessions@[i as int].seed@ == seed@,
                None => !self.has_session(seed@),
            },
    {
        let mut i: usize = 0;
        while i < self.sessions.len()
            invariant
                i <= self.sessions@.len(),
                forall|k: int| 0 <= k < i ==> (#[trigger] self.sessions@[k]).seed@ != seed@,
            decreases self.sessions@.len() - i,
        {
            if eq_bytes(&self.sessions[i].seed, seed) {
                return Some(i);
            }
            i += 1;
        }
        assert(!self.has_session(seed@)) by {
            if self.has_session(seed@) {
                let k = choose|k: int|
                    0 <= k < self.sessions@.len() && self.sessions@[k].seed@ == seed@;
                assert(self.sessions@[k].seed@ != seed@);
            }
        }
        None
    }

    /// Takes and removes the pending entry for a phrase: the atomic
    /// take-and-remove that pairing is built on.
    pub fn remove_pending_peer(&mut self, phrase: &String) -> (r: Option<usize>)
        requires
            old(self).wf(),
        ensures
            final(self).wf(),
            final(self).seed_password == old(self).seed_password,
            final(self).sessions == old(self).sessions,
            final(self).pending_connections@ == old(self).pending_connections@.filter(
                key_not(phrase@),
            ),
            !final(self).has_pending(phrase@),
            forall|k: int|
                0 <= k < final(self).pending_connections@.len() ==> old(
                    self,
                ).pending_connections@.contains(#[trigger] final(self).pending_connections@[k]),
            match r {
                Some(c) => old(self).has_pending(phrase@) && c == old(self).pending_conn(phrase@)
                    && !final(self).conn_pending(c),
                None => !old(self).has_pending(phrase@) && *final(self) == *old(self),
            },
    {
        match self.find_pending(phrase) {
            None => {
                proof {
                    crate::seqs::lemma_filter_all(self.pending_connections@, key_not(phrase@));
                }
                None
            },
            Some(i) => {
                let c = self.pending_connections[i].1;
                proof {
                    old(self).lemma_pending_idx(i as int);
                    crate::seqs::lemma_remove_single_is_filter(
                        old(self).pending_connections@,
                        key_not(phrase@),
                        i as int,
                    );
                }
                self.pending_connections.remove(i);
                proof {
                    let pre = old(self).pending_connections@;
                    let post = self.pending_connections@;
                    assert forall|a: int, b: int| 0 <= a < b < post.len() implies post[a].0@
                        != post[b].0@ && post[a].1 != post[b].1 by {
                        let a0 = if a < i { a } else { a + 1 };
                        let b0 = if b < i { b } else { b + 1 };
                        assert(post[a] == pre[a0]);
                        assert(post[b] == pre[b0]);
                    }
                    assert forall|a: int, j: int|
                        0 <= a < post.len() && 0 <= j < self.sessions@.len() implies !self.sessions@[
                        j
                    ].has_member(post[a].1) by {
                        let a0 = if a < i { a } else { a + 1 };
                        assert(post[a] == pre[a0]);
                        assert(!old(self).sessions@[j].has_member(pre[a0].1));
                    }
                    assert forall|k: int| 0 <= k < post.len() implies pre.contains(
                        #[trigger] post[k],
                    ) by {
                        let k0 = if k < i { k } else { k + 1 };
                        assert(post[k] == pre[k0]);
                    }
                    assert(!self.has_pending(phrase@)) by {
                        if self.has_pending(phrase@) {
                            let k = choose|k: int|
                                0 <= k < post.len() && post[k].0@ == phrase@;
                            let k0 = if k < i { k } else { k + 1 };
                            assert(post[k] == pre[k0]);
                            assert(pre[k0].0@ == pre[i as int].0@);
                        }
                    }
                    assert(!self.conn_pending(c)) by {
                        if self.conn_pending(c) {
                            let k = choose|k: int| 0 <= k < post.len() && post[k].1 == c;
                            let k0 = if k < i { k } else { k + 1 };
                            assert(post[k] == pre[k0]);
                            assert(pre[k0].1 == pre[i as int].1);
                        }
                    }
                }
                Some(c)
            },
        }
    }

    /// Draws a fresh phrase, registers the connection under it, and hands
    /// back the connection's own state and the `Created` notice.  Fails only
    /// if every drawn phrase collided with a pending one.
    pub fn create_pending_connection(&mut self, conn: usize) -> (r: Option<
        (ConnectionHandler, Vec<Outgoing>),
    >)
        requires
            old(self).wf(),
            !old(self).conn_known(conn),
        ensures
            final(self).wf(),
            final(self).seed_password == old(self).seed_password,
            final(self).sessions == old(self).sessions,
            match r {
                None => *final(self) == *old(self) && old(self).pending_connections@.len() > 0,
                Some((h, out)) => {
                    &&& h.session_seed is None
                    &&& phrase_len_ok(h.phrase@.len())
                    &&& words_shaped(h.phrase@, crate::PHRASE_WORDS as nat)
                    &&& mnemonic_ok(h.phrase@)
                    &&& h.own_seed@ == seed_of(h.phrase@, old(self).seed_password@)
                    &&& !old(self).has_pending(h.phrase@)
                    &&& final(self).pending_connections@ == old(
                        self,
                    ).pending_connections@.push((h.phrase, conn))
                    &&& out@.len() == 1
                    &&& out@[0].to == conn
                    &&& out@[0].msg matches OutboundMessage::External(WsResponse::Created {
                        phrase,
                    }) && phrase == h.phrase
                },
            },
    {
        let mut attempts: usize = 0;
        while attempts < PHRASE_ATTEMPTS
            invariant
                *self == *old(self),
                old(self).wf(),
                !old(self).conn_known(conn),
                attempts > 0 ==> old(self).pending_connections@.len() > 0,
            decreases PHRASE_ATTEMPTS - attempts,
        {
            let phrase = generate_phrase();
            if self.find_pending(&phrase).is_none() {
                let seed_opt = derive_seed(&phrase, &self.seed_password);
                let own_seed = seed_opt.unwrap();
                let registered = phrase.clone();
                let announced = phrase.clone();
                self.pending_connections.push((registered, conn));
                let mut out: Vec<Outgoing> = Vec::new();
                out.push(
                    Outgoing {
                        to: conn,
                        msg: OutboundMessage::External(WsResponse::Created { phrase: announced }),
                    },
                );
                let h = ConnectionHandler { phrase, own_seed, session_seed: None };
                proof {
                    let pre = old(self).pending_connections@;
                    let post = self.pending_connections@;
                    assert forall|a: int, b: int| 0 <= a < b < post.len() implies post[a].0@
                        != post[b].0@ && post[a].1 != post[b].1 by {
                        if b == post.len() - 1 {
                            assert(post[a] == pre[a]);
                            assert(!old(self).has_pending(post[b].0@));
                            assert(!old(self).conn_pending(conn));
                        } else {
                            assert(post[a] == pre[a]);
                            assert(post[b] == pre[b]);
                        }
                    }
                    assert forall|a: int, j: int|
                        0 <= a < post.len() && 0 <= j < self.sessions@.len() implies !self.sessions@[
                        j
                    ].has_member(post[a].1) by {
                        if a == post.len() - 1 {
                            assert(!old(self).conn_member(conn));
                            assert(!old(self).sessions@[j].has_member(conn));
                        } else {
                            assert(post[a] == pre[a]);
                            assert(!old(self).sessions@[j].has_member(pre[a].1));
                        }
                    }
                }
                return Some((h, out));
            }
            proof {
                assert(self.pending_connections@.len() > 0);
            }
            attempts += 1;
        }
        None
    }
}

/// Whether two byte vectors hold the same bytes.
fn eq_bytes(a: &Vec<u8>, b: &Vec<u8>) -> (r: bool)
    ensures
        r == (a@ == b@),
{
    if a.len() != b.len() {
        assert(a@ != b@) by {
            assert(a@.len() != b@.len());
        }
        return false;
    }
    let mut i: usize = 0;
    while i < a.len()
        invariant
            a@.len() == b@.len(),
            i <= a@.len(),
            forall|k: int| 0 <= k < i ==> a@[k] == b@[k],
        decreases a@.len() - i,
    {
        if a[i] != b[i] {
            return false;
        }
        i += 1;
    }
    proof {
        assert(a@ =~= b@);
    }
    true
}

/// The transition answered the caller with one response and changed nothing.
pub open spec fn only_reply(
    pre: SessionService,
    post: SessionService,
    conn: usize,
    out: Seq<Outgoing>,
    resp: WsResponse,
) -> bool {
    &&& post == pre
    &&& out.len() == 1
    &&& out[0] == (Outgoing { to: conn, msg: OutboundMessage::External(resp) })
}

/// What `on_add_file` does: without a live session the caller belongs to it
/// answers `SessionNotFound`; at the ceiling, `FileCountLimitReached`; on a
/// duplicate id, `FileAlreadyExists`; otherwise it inserts the file owned by
/// the caller and announces it to every member.
pub open spec fn add_file_post(
    pre: SessionService,
    post: SessionService,
    conn: usize,
    h: ConnectionHandler,
    id: u128,
    name: String,
    mime_type: String,
    size: usize,
    out: Seq<Outgoing>,
) -> bool {
    match h.session_seed {
        None => only_reply(pre, post, conn, out, WsResponse::SessionNotFound),
        Some(sdv) => {
            let sd = sdv@;
            if !pre.has_session(sd) {
                only_reply(pre, post, conn, out, WsResponse::SessionNotFound)
            } else {
                let i = pre.session_idx(sd);
                let s0 = pre.sessions@[i];
                if !s0.has_member(conn) {
                    only_reply(pre, post, conn, out, WsResponse::SessionNotFound)
                } else if s0.files@.len() + 1 >= MAX_FILE_COUNT {
                    only_reply(pre, post, conn, out, WsResponse::FileCountLimitReached)
                } else if s0.has_file(id) {
                    only_reply(pre, post, conn, out, WsResponse::FileAlreadyExists)
                } else {
                    let fi = FileInfo { id, name, mime_type, size, connection_id: conn };
                    let s1 = post.sessions@[i];
                    &&& post.seed_password == pre.seed_password
                    &&& post.pending_connections == pre.pending_connections
                    &&& post.sessions@ == pre.sessions@.update(i, s1)
                    &&& s1.seed == s0.seed
                    &&& s1.connections == s0.connections
                    &&& s1.pending_relays == s0.pending_relays
                    &&& s1.files@ == s0.files@.push(fi)
                    &&& out == broadcast_msgs(s0.connections@, WsResponse::FileAdded(fi))
                }
            }
        },
    }
}

/// What `on_remove_file` does: without a live session it answers
/// `SessionNotFound`; an absent id is a silent no-op; otherwise it removes
/// the file and announces the removal to every member.
pub open spec fn remove_file_post(
    pre: SessionService,
    post: SessionService,
    conn: usize,
    h: ConnectionHandler,
    id: u128,
    out: Seq<Outgoing>,
) -> bool {
    match h.session_seed {
        None => only_reply(pre, post, conn, out, WsResponse::SessionNotFound),
        Some(sdv) => {
            let sd = sdv@;
            if !pre.has_session(sd) {
                only_reply(pre, post, conn, out, WsResponse::SessionNotFound)
            } else {
                let i = pre.session_idx(sd);
                let s0 = pre.sessions@[i];
                if !s0.has_file(id) {
                    &&& post == pre
                    &&& out.len() == 0
                } else {
                    let s1 = post.sessions@[i];
                    &&& post.seed_password == pre.seed_password
                    &&& post.pending_connections == pre.pending_connections
                    &&& post.sessions@ == pre.sessions@.update(i, s1)
                    &&& s1.seed == s0.seed
                    &&& s1.connections == s0.connections
                    &&& s1.pending_relays == s0.pending_relays
                    &&& s1.files@ == s0.files@.remove(s0.file_idx(id))
                    &&& out == broadcast_msgs(s0.connections@, WsResponse::FileRemoved { id })
                }
            }
        },
    }
}

impl SessionService {
    /// Advertises a file in the caller's session.
    pub fn on_add_file(
        &mut self,
        conn: usize,
        handler: &ConnectionHandler,
        id: u128,
        name: String,
        mime_type: String,
        size: usize,
    ) -> (out: Vec<Outgoing>)
        requires
            old(self).wf(),
        ensures
            final(self).wf(),
            add_file_post(
                *old(self),
                *final(self),
                conn,
                *handler,
                id,
                name,
                mime_type,
                size,
                out@,
            ),
    {
        let seed = match &handler.session_seed {
            Some(s) => s,
            None => {
                return reply(conn, WsResponse::SessionNotFound);
            },
        };
        let i = match self.find_session(seed) {
            Some(i) => i,
            None => {
                return reply(conn, WsResponse::SessionNotFound);
            },
        };
        proof {
            self.lemma_session_idx(i as int);
        }
        if !self.sessions[i].is_member(conn) {
            return reply(conn, WsResponse::SessionNotFound);
        }
        if self.sessions[i].files.len() >= MAX_FILE_COUNT - 1 {
            return reply(conn, WsResponse::FileCountLimitReached);
        }
        if self.sessions[i].find_file(id).is_some() {
            assert(self.sessions@[i as int].has_file(id));
            return reply(conn, WsResponse::FileAlreadyExists);
        }
        let fi = FileInfo { id, name, mime_type, size, connection_id: conn };
        let mut s = self.sessions.remove(i);
        s.files.push(fi.clone());
        let out = s.broadcast_external(&WsResponse::FileAdded(fi));
        self.sessions.insert(i, s);
        proof {
            let pre = *old(self);
            let ii = i as int;
            let s0 = pre.sessions@[ii];
            let s1 = self.sessions@[ii];
            assert(self.sessions@ =~= pre.sessions@.update(ii, s1));
            assert forall|a: int, b: int| 0 <= a < b < self.sessions@.len() implies self.sessions@[
                a
            ].seed@ != self.sessions@[b].seed@ by {
                assert(self.sessions@[a].seed == pre.sessions@[a].seed);
                assert(self.sessions@[b].seed == pre.sessions@[b].seed);
            }
            assert(s1.wf()) by {
                assert forall|a: int, b: int| 0 <= a < b < s1.files@.len() implies s1.files@[a].id
                    != s1.files@[b].id by {
                    if b < s1.files@.len() - 1 {
                        assert(s1.files@[a] == s0.files@[a]);
                        assert(s1.files@[b] == s0.files@[b]);
                    } else {
                        assert(s1.files@[a] == s0.files@[a]);
                        assert(!s0.has_file(id));
                    }
                }
                assert forall|a: int| 0 <= a < s1.files@.len() implies s1.connections@.contains(
                    #[trigger] s1.files@[a].connection_id,
                ) by {
                    if a < s1.files@.len() - 1 {
                        assert(s1.files@[a] == s0.files@[a]);
                    }
                }
            }
        }
        out
    }

    /// Withdraws a file from the caller's session.
    pub fn on_remove_file(&mut self, conn: usize, handler: &ConnectionHandler, id: u128) -> (out:
        Vec<Outgoing>)
        requires
            old(self).wf(),
        ensures
            final(self).wf(),
            remove_file_post(*old(self), *final(self), conn, *handler, id, out@),
    {
        let seed = match &handler.session_seed {
            Some(s) => s,
            None => {
                return reply(conn, WsResponse::SessionNotFound);
            },
        };
        let i = match self.find_session(seed) {
            Some(i) => i,
            None => {
                return reply(conn, WsResponse::SessionNotFound);
            },
        };
        proof {
            self.lemma_session_idx(i as int);
        }
        let j = match self.sessions[i].find_file(id) {
            Some(j) => j,
            None => {
                return Vec::new();
            },
        };
        proof {
            self.sessions@[i as int].lemma_file_idx(j as int);
        }
        let mut s = self.sessions.remove(i);
        s.files.remove(j);
        let out = s.broadcast_external(&WsResponse::FileRemoved { id });
        self.sessions.insert(i, s);
        proof {
            let pre = *old(self);
            let ii = i as int;
            let jj = j as int;
            let s0 = pre.sessions@[ii];
            let s1 = self.sessions@[ii];
            assert(self.sessions@ =~= pre.sessions@.update(ii, s1));
            assert(s0.file_idx(id) == jj);
            assert forall|a: int, b: int| 0 <= a < b < self.sessions@.len() implies self.sessions@[
                a
            ].seed@ != self.sessions@[b].seed@ by {
                assert(self.sessions@[a].seed == pre.sessions@[a].seed);
                assert(self.sessions@[b].seed == pre.sessions@[b].seed);
            }
            assert(s1.wf()) by {
                assert forall|a: int, b: int| 0 <= a < b < s1.files@.len() implies s1.files@[a].id
                    != s1.files@[b].id by {
                    let a0 = if a < jj { a } else { a + 1 };
                    let b0 = if b < jj { b } else { b + 1 };
                    assert(s1.files@[a] == s0.files@[a0]);
                    assert(s1.files@[b] == s0.files@[b0]);
                }
                assert forall|a: int| 0 <= a < s1.files@.len() implies s1.connections@.contains(
                    #[trigger] s1.files@[a].connection_id,
                ) by {
                    let a0 = if a < jj { a } else { a + 1 };
                    assert(s1.files@[a] == s0.files@[a0]);
                }
            }
        }
        out
    }
}

/// A connect request is dismissed out of hand when the phrase length is not
/// plausible or the caller presents its own phrase.  Both answers are
/// `PeerNotFound`, deliberately indistinguishable from an unknown phrase.
pub open spec fn connect_rejects(h: ConnectionHandler, phrase: Seq<char>) -> bool {
    ||| !phrase_len_ok(phrase.len())
    ||| phrase == h.phrase@
}

/// What a successful connect by a caller that already sits in a session does:
/// the located peer joins that session and is told so, first internally, then
/// by a `Connected` response carrying the current file list.
pub open spec fn connect_joined(
    pre: SessionService,
    post: SessionService,
    sd: Seq<u8>,
    phrase: Seq<char>,
    out: Seq<Outgoing>,
) -> bool {
    let peer = pre.pending_conn(phrase);
    let i = pre.session_idx(sd);
    let s0 = pre.sessions@[i];
    let s1 = post.sessions@[i];
    &&& post.seed_password == pre.seed_password
    &&& post.pending_connections@ == pre.pending_connections@.filter(key_not(phrase))
    &&& post.sessions@ == pre.sessions@.update(i, s1)
    &&& s1.seed == s0.seed
    &&& s1.files == s0.files
    &&& s1.pending_relays == s0.pending_relays
    &&& s1.connections@ == s0.connections@.push(peer)
    &&& out.len() == 2
    &&& out[0].to == peer
    &&& out[0].msg matches OutboundMessage::Internal(InternalMessage::SessionCreated(sv))
        && sv@ == s0.seed@
    &&& out[1].to == peer
    &&& out[1].msg matches OutboundMessage::External(WsResponse::Connected {
        connection_id,
        seed,
        files,
    }) && connection_id == peer && seed@ == b64url_of(s0.seed@) && files@ == s0.files@
}

/// What a successful connect by a still-pending caller does: both phrases
/// leave the pending registry, a fresh session keyed by the seed of the
/// caller's own phrase holds caller and peer, the caller adopts it at once,
/// the peer is told internally, and both get an empty-file `Connected`
/// response, the peer's first.
pub open spec fn connect_created(
    pre: SessionService,
    post: SessionService,
    conn: usize,
    h0: ConnectionHandler,
    h1: ConnectionHandler,
    phrase: Seq<char>,
    out: Seq<Outgoing>,
) -> bool {
    let peer = pre.pending_conn(phrase);
    let replaces = pre.has_session(h0.own_seed@);
    let ns = if replaces {
        post.sessions@[pre.session_idx(h0.own_seed@)]
    } else {
        post.sessions@.last()
    };
    &&& h1.phrase == h0.phrase
    &&& h1.own_seed == h0.own_seed
    &&& h1.session_seed matches Some(s) && s@ == h0.own_seed@
    &&& post.seed_password == pre.seed_password
    &&& post.pending_connections@ == pre.pending_connections@.filter(key_not(phrase)).filter(
        key_not(h0.phrase@),
    )
    &&& ns.seed@ == h0.own_seed@
    &&& ns.connections@ == seq![conn, peer]
    &&& ns.files@ == Seq::<FileInfo>::empty()
    &&& ns.pending_relays@ == Seq::<(u128, u64)>::empty()
    &&& if replaces {
        post.sessions@ == pre.sessions@.update(pre.session_idx(h0.own_seed@), ns)
    } else {
        post.sessions@ == pre.sessions@.push(ns)
    }
    &&& out.len() == 3
    &&& out[0].to == peer
    &&& out[0].msg matches OutboundMessage::Internal(InternalMessage::SessionCreated(sv))
        && sv@ == h0.own_seed@
    &&& out[1].to == peer
    &&& out[1].msg matches OutboundMessage::External(WsResponse::Connected {
        connection_id,
        seed,
        files,
    }) && connection_id == peer && seed@ == b64url_of(h0.own_seed@) && files@.len() == 0
    &&& out[2].to == conn
    &&& out[2].msg matches OutboundMessage::External(WsResponse::Connected {
        connection_id,
        seed,
        files,
    }) && connection_id == conn && seed@ == b64url_of(h0.own_seed@) && files@.len() == 0
}

/// What `on_connect` does, case by case.
pub open spec fn connect_post(
    pre: SessionService,
    post: SessionService,
    conn: usize,
    h0: ConnectionHandler,
    h1: ConnectionHandler,
    phrase: Seq<char>,
    out: Seq<Outgoing>,
) -> bool {
    if connect_rejects(h0, phrase) || !pre.has_pending(phrase) {
        h1 == h0 && only_reply(pre, post, conn, out, WsResponse::PeerNotFound)
    } else {
        match h0.session_seed {
            Some(sdv) => {
                if !pre.has_session(sdv@) {
                    h1 == h0 && only_reply(pre, post, conn, out, WsResponse::SessionNotFound)
                } else {
                    h1 == h0 && connect_joined(pre, post, sdv@, phrase, out)
                }
            },
            None => connect_created(pre, post, conn, h0, h1, phrase, out),
        }
    }
}

impl SessionService {
    /// Whether the broker's pending entries are consistent with a
    /// connection's own state: if the connection is pending at all, it is
    /// pending under its own phrase.
    pub open spec fn handler_ok(self, conn: usize, h: ConnectionHandler) -> bool {
        forall|i: int|
            0 <= i < self.pending_connections@.len() && (#[trigger] self.pending_connections@[
                i
            ]).1 == conn ==> self.pending_connections@[i].0@ == h.phrase@
    }

    /// Decides whether the pending registry is consistent with a
    /// connection's own state, as the event transitions expect of their
    /// caller.
    pub fn handler_consistent(&self, conn: usize, handler: &ConnectionHandler) -> (r: bool)
        ensures
            r == self.handler_ok(conn, *handler),
    {
        let mut i: usize = 0;
        while i < self.pending_connections.len()
            invariant
                i <= self.pending_connections@.len(),
                forall|k: int|
                    0 <= k < i && (#[trigger] self.pending_connections@[k]).1 == conn
                        ==> self.pending_connections@[k].0@ == handler.phrase@,
            decreases self.pending_connections@.len() - i,
        {
            if self.pending_connections[i].1 == conn && !(self.pending_connections[i].0
                == handler.phrase) {
                proof {
                    assert(self.pending_connections@[i as int].1 == conn);
                }
                return false;
            }
            i += 1;
        }
        true
    }

    /// Pairs the caller with the connection advertising `phrase`.
    pub fn on_connect(
        &mut self,
        conn: usize,
        handler: &mut ConnectionHandler,
        phrase: String,
    ) -> (out: Vec<Outgoing>)
        requires
            old(self).wf(),
            old(self).handler_ok(conn, *old(handler)),
        ensures
            final(self).wf(),
            connect_post(
                *old(self),
                *final(self),
                conn,
                *old(handler),
                *final(handler),
                phrase@,
                out@,
            ),
    {
        if !crate::check_phrase_len(phrase.as_str().unicode_len()) || phrase == handler.phrase {
            return reply(conn, WsResponse::PeerNotFound);
        }
        if self.find_pending(&phrase).is_none() {
            return reply(conn, WsResponse::PeerNotFound);
        }
        let joined = match &handler.session_seed {
            Some(sd) => {
                let i = match self.find_session(sd) {
                    Some(i) => i,
                    None => {
                        return reply(conn, WsResponse::SessionNotFound);
                    },
                };
                Some(i)
            },
            None => None,
        };
        match joined {
            Some(i) => {
                proof {
                    self.lemma_session_idx(i as int);
                }
                let peer = match self.remove_pending_peer(&phrase) {
                    Some(p) => p,
                    None => unreached(),
                };
                proof {
                    let pre = *old(self);
                    assert(!pre.sessions@[i as int].has_member(peer)) by {
                        pre.lemma_pending_idx(pre.pending_idx(phrase@));
                    }
                }
                let mut s = self.sessions.remove(i);
                s.connections.push(peer);
                let seed_bytes = clone_bytes(&s.seed);
                let encoded = encode_seed(&s.seed);
                let files = clone_files(&s.files);
                let mut out: Vec<Outgoing> = Vec::new();
                out.push(
                    Outgoing {
                        to: peer,
                        msg: OutboundMessage::Internal(InternalMessage::SessionCreated(seed_bytes)),
                    },
                );
                out.push(
                    Outgoing {
                        to: peer,
                        msg: OutboundMessage::External(
                            WsResponse::Connected { connection_id: peer, seed: encoded, files },
                        ),
                    },
                );
                self.sessions.insert(i, s);
                proof {
                    let pre = *old(self);
                    let ii = i as int;
                    let s0 = pre.sessions@[ii];
                    let s1 = self.sessions@[ii];
                    assert(self.sessions@ =~= pre.sessions@.update(ii, s1));
                    assert(s1.wf() && s1.connections@.len() > 0) by {
                        assert forall|a: int, b: int|
                            0 <= a < b < s1.connections@.len() implies s1.connections@[a]
                            != s1.connections@[b] by {
                            if b < s1.connections@.len() - 1 {
                                assert(s1.connections@[a] == s0.connections@[a]);
                                assert(s1.connections@[b] == s0.connections@[b]);
                            } else {
                                assert(s1.connections@[a] == s0.connections@[a]);
                                assert(s0.connections@.contains(s0.connections@[a]));
                            }
                        }
                        assert forall|a: int|
                            0 <= a < s1.files@.len() implies s1.connections@.contains(
                            #[trigger] s1.files@[a].connection_id,
                        ) by {
                            assert(s0.connections@.contains(s1.files@[a].connection_id));
                            let w = choose|w: int|
                                0 <= w < s0.connections@.len() && s0.connections@[w]
                                    == s1.files@[a].connection_id;
                            assert(s1.connections@[w] == s0.connections@[w]);
                        }
                    }
                    assert forall|a: int, b: int|
                        0 <= a < b < self.sessions@.len() implies self.sessions@[a].seed@
                        != self.sessions@[b].seed@ by {
                        assert(self.sessions@[a].seed == pre.sessions@[a].seed);
                        assert(self.sessions@[b].seed == pre.sessions@[b].seed);
                    }
                    assert forall|a: int, j: int|
                        #![trigger self.pending_connections@[a], self.sessions@[j]]
                        0 <= a < self.pending_connections@.len() && 0 <= j < self.sessions@.len()
                            implies !self.sessions@[j].has_member(
                            self.pending_connections@[a].1,
                        ) by {
                        let c = self.pending_connections@[a].1;
                        assert(!pre.sessions@[j].has_member(c));
                        if j == ii && self.sessions@[j].has_member(c) {
                            let w = choose|w: int|
                                0 <= w < s1.connections@.len() && s1.connections@[w] == c;
                            if w < s1.connections@.len() - 1 {
                                assert(s0.connections@[w] == c);
                                assert(s0.has_member(c));
                            }
                        }
                    }
                }
                out
            },
            None => {
                let peer = match self.remove_pending_peer(&phrase) {
                    Some(p) => p,
                    None => unreached(),
                };
                let ghost mid1 = *self;
                proof {
                    let pre = *old(self);
                    let pi = pre.pending_idx(phrase@);
                    pre.lemma_pending_idx(pi);
                    assert(pre.pending_connections@[pi].1 == peer);
                    assert(peer != conn) by {
                        if peer == conn {
                            assert(pre.pending_connections@[pi].0@ == old(handler).phrase@);
                        }
                    }
                    assert(!pre.conn_member(peer)) by {
                        if pre.conn_member(peer) {
                            let j = choose|j: int|
                                0 <= j < pre.sessions@.len() && pre.sessions@[j].has_member(peer);
                            assert(!pre.sessions@[j].has_member(pre.pending_connections@[pi].1));
                        }
                    }
                }
                let _ = self.remove_pending_peer(&handler.phrase);
                let own_seed_copy = clone_bytes(&handler.own_seed);
                let mut ns = Session::new(own_seed_copy, conn);
                ns.connections.push(peer);
                proof {
                    assert(ns.connections@ =~= seq![conn, peer]);
                }
                let seed_bytes = clone_bytes(&handler.own_seed);
                let encoded = encode_seed(&handler.own_seed);
                let encoded_own = encoded.clone();
                handler.session_seed = Some(clone_bytes(&handler.own_seed));
                let mut out: Vec<Outgoing> = Vec::new();
                out.push(
                    Outgoing {
                        to: peer,
                        msg: OutboundMessage::Internal(InternalMessage::SessionCreated(seed_bytes)),
                    },
                );
                out.push(
                    Outgoing {
                        to: peer,
                        msg: OutboundMessage::External(
                            WsResponse::Connected {
                                connection_id: peer,
                                seed: encoded,
                                files: Vec::new(),
                            },
                        ),
                    },
                );
                out.push(
                    Outgoing {
                        to: conn,
                        msg: OutboundMessage::External(
                            WsResponse::Connected {
                                connection_id: conn,
                                seed: encoded_own,
                                files: Vec::new(),
                            },
                        ),
                    },
                );
                proof {
                    let pre = *old(self);
                    let mid2 = *self;
                    assert(!mid2.conn_pending(peer)) by {
                        if mid2.conn_pending(peer) {
                            let k = choose|k: int|
                                0 <= k < mid2.pending_connections@.len()
                                    && mid2.pending_connections@[k].1 == peer;
                            let e = mid2.pending_connections@[k];
                            assert(mid1.pending_connections@.contains(e));
                            let k1 = choose|k1: int|
                                0 <= k1 < mid1.pending_connections@.len()
                                    && mid1.pending_connections@[k1] == e;
                            assert(mid1.conn_pending(peer));
                        }
                    }
                    assert(!mid2.conn_pending(conn)) by {
                        if mid2.conn_pending(conn) {
                            let k = choose|k: int|
                                0 <= k < mid2.pending_connections@.len()
                                    && mid2.pending_connections@[k].1 == conn;
                            let e = mid2.pending_connections@[k];
                            assert(mid1.pending_connections@.contains(e));
                            let k1 = choose|k1: int|
                                0 <= k1 < mid1.pending_connections@.len()
                                    && mid1.pending_connections@[k1] == e;
                            assert(pre.pending_connections@.contains(e));
                            let k0 = choose|k0: int|
                                0 <= k0 < pre.pending_connections@.len()
                                    && pre.pending_connections@[k0] == e;
                            assert(e.0@ == old(handler).phrase@);
                            assert(mid2.has_pending(old(handler).phrase@));
                        }
                    }
                }
                let replaced = match self.find_session(&handler.own_seed) {
                    Some(k) => {
                        proof {
                            self.lemma_session_idx(k as int);
                        }
                        let _ = self.sessions.remove(k);
                        self.sessions.insert(k, ns);
                        Some(k)
                    },
                    None => {
                        self.sessions.push(ns);
                        None
                    },
                };
                proof {
                    let pre = *old(self);
                    let post = *self;
                    let nsl = post.sessions@.len();
                    match replaced {
                        Some(k) => {
                            assert(post.sessions@ =~= pre.sessions@.update(k as int, post.sessions@[k as int]));
                            assert(pre.session_idx(old(handler).own_seed@) == k as int);
                        },
                        None => {
                            assert(post.sessions@ =~= pre.sessions@.push(post.sessions@[nsl - 1]));
                        },
                    }
                    let ni: int = match replaced {
                        Some(k) => k as int,
                        None => nsl - 1,
                    };
                    let nss = post.sessions@[ni];
                    assert(nss.wf() && nss.connections@.len() > 0) by {
                        assert(nss.connections@ == seq![conn, peer]);
                        assert(nss.connections@[0] == conn && nss.connections@[1] == peer);
                    }
                    assert forall|a: int, b: int|
                        0 <= a < b < post.sessions@.len() implies post.sessions@[a].seed@
                        != post.sessions@[b].seed@ by {
                        if a != ni && b != ni {
                            assert(post.sessions@[a] == pre.sessions@[a]);
                            assert(post.sessions@[b] == pre.sessions@[b]);
                        } else if a == ni {
                            assert(post.sessions@[b] == pre.sessions@[b]);
                            match replaced {
                                Some(k) => {
                                    assert(pre.sessions@[a].seed@ == nss.seed@);
                                },
                                None => {},
                            }
                            if replaced is None {
                                assert(!pre.has_session(nss.seed@));
                                assert(b < nsl - 1);
                            }
                        } else {
                            assert(post.sessions@[a] == pre.sessions@[a]);
                            match replaced {
                                Some(k) => {
                                    assert(pre.sessions@[b].seed@ == nss.seed@);
                                },
                                None => {
                                    assert(!pre.has_session(nss.seed@));
                                },
                            }
                        }
                    }
                    assert forall|a: int, j: int|
                        #![trigger post.pending_connections@[a], post.sessions@[j]]
                        0 <= a < post.pending_connections@.len() && 0 <= j < post.sessions@.len()
                            implies !post.sessions@[j].has_member(
                            post.pending_connections@[a].1,
                        ) by {
                        let c = post.pending_connections@[a].1;
                        if j == ni {
                            assert(c != conn && c != peer);
                            if post.sessions@[j].has_member(c) {
                                let w = choose|w: int|
                                    0 <= w < nss.connections@.len() && nss.connections@[w] == c;
                                assert(nss.connections@ == seq![conn, peer]);
                                assert(w == 0 || w == 1);
                            }
                        } else {
                            assert(post.sessions@[j] == pre.sessions@[j]);
                        }
                    }
                }
                out
            },
        }
    }
}

/// The messages that tell every given member that one file is gone.
pub open spec fn file_removed_msgs(id: u128, members: Seq<usize>) -> Seq<Outgoing> {
    members.map_values(
        |m: usize| Outgoing { to: m, msg: OutboundMessage::External(WsResponse::FileRemoved { id }) },
    )
}

/// The removal broadcasts for a list of files, file by file in list order.
pub open spec fn removal_msgs(files: Seq<FileInfo>, members: Seq<usize>) -> Seq<Outgoing>
    decreases files.len(),
{
    if files.len() == 0 {
        Seq::empty()
    } else {
        removal_msgs(files.drop_last(), members) + file_removed_msgs(files.last().id, members)
    }
}

/// The internal notices that tell every given member that a peer left.
pub open spec fn peer_disconnected_msgs(members: Seq<usize>, conn: usize) -> Seq<Outgoing> {
    members.map_values(
        |m: usize| Outgoing {
            to: m,
            msg: OutboundMessage::Internal(InternalMessage::PeerDisconnected(conn)),
        },
    )
}

/// What `remove_connection` does: the connection's own phrase leaves the
/// pending registry; if the connection sits in a session, it leaves the
/// member set, its files are withdrawn with a `FileRemoved` broadcast to each
/// remaining member, the remaining members are told internally that the peer
/// left, and a session left empty leaves the registry in the same step.
pub open spec fn disconnect_post(
    pre: SessionService,
    post: SessionService,
    conn: usize,
    h: ConnectionHandler,
    out: Seq<Outgoing>,
) -> bool {
    &&& post.seed_password == pre.seed_password
    &&& post.pending_connections@ == pre.pending_connections@.filter(key_not(h.phrase@))
    &&& match h.session_seed {
        None => post.sessions == pre.sessions && out.len() == 0,
        Some(sdv) => {
            let sd = sdv@;
            if !pre.has_session(sd) {
                post.sessions == pre.sessions && out.len() == 0
            } else {
                let i = pre.session_idx(sd);
                let s0 = pre.sessions@[i];
                let members1 = s0.connections@.filter(not_conn(conn));
                let owned = s0.files@.filter(owned_by(conn));
                let kept = s0.files@.filter(not_owned_by(conn));
                &&& out == removal_msgs(owned, members1) + peer_disconnected_msgs(members1, conn)
                &&& if members1.len() == 0 {
                    post.sessions@ == pre.sessions@.remove(i)
                } else {
                    let s1 = post.sessions@[i];
                    &&& post.sessions@ == pre.sessions@.update(i, s1)
                    &&& s1.seed == s0.seed
                    &&& s1.connections@ == members1
                    &&& s1.files@ == kept
                    &&& s1.pending_relays == s0.pending_relays
                }
            }
        },
    }
}

/// What `request_file` does: it fails without any change when the seed does
/// not decode, no session carries it, the file is unknown, or a relay for the
/// file is already pending; otherwise it registers the relay under the given
/// token and hands back the file together with the `FileRequested` notice for
/// the owner.
pub open spec fn request_file_post(
    pre: SessionService,
    post: SessionService,
    id: u128,
    seed: Seq<char>,
    relay_token: u64,
    r: Option<(FileInfo, Vec<Outgoing>)>,
) -> bool {
    match b64url_decode_of(seed) {
        None => r is None && post == pre,
        Some(sd) => {
            if !pre.has_session(sd) {
                r is None && post == pre
            } else {
                let i = pre.session_idx(sd);
                let s0 = pre.sessions@[i];
                if !s0.has_file(id) {
                    r is None && post == pre
                } else if s0.has_relay(id) {
                    r is None && post == pre
                } else {
                    let f = s0.file_at(id);
                    let s1 = post.sessions@[i];
                    &&& post.seed_password == pre.seed_password
                    &&& post.pending_connections == pre.pending_connections
                    &&& post.sessions@ == pre.sessions@.update(i, s1)
                    &&& s1.seed == s0.seed
                    &&& s1.connections == s0.connections
                    &&& s1.files == s0.files
                    &&& s1.pending_relays@ == s0.pending_relays@.push((id, relay_token))
                    &&& r matches Some((fi, out)) && fi == f && out@.len() == 1 && out@[0]
                        == (Outgoing {
                        to: f.connection_id,
                        msg: OutboundMessage::External(WsResponse::FileRequested { id }),
                    })
                }
            }
        },
    }
}

/// What `upload_file` does: it takes and removes the pending relay for the
/// file, handing back its token; it fails without any change when the seed
/// does not decode, no session carries it, or no relay is pending.
pub open spec fn upload_file_post(
    pre: SessionService,
    post: SessionService,
    id: u128,
    seed: Seq<char>,
    r: Option<u64>,
) -> bool {
    match b64url_decode_of(seed) {
        None => r is None && post == pre,
        Some(sd) => {
            if !pre.has_session(sd) {
                r is None && post == pre
            } else {
                let i = pre.session_idx(sd);
                let s0 = pre.sessions@[i];
                if !s0.has_relay(id) {
                    r is None && post == pre
                } else {
                    let s1 = post.sessions@[i];
                    &&& r == Some(s0.relay_token(id))
                    &&& post.seed_password == pre.seed_password
                    &&& post.pending_connections == pre.pending_connections
                    &&& post.sessions@ == pre.sessions@.update(i, s1)
                    &&& s1.seed == s0.seed
                    &&& s1.connections == s0.connections
                    &&& s1.files == s0.files
                    &&& s1.pending_relays@ == s0.pending_relays@.remove(s0.relay_idx(id))
                }
            }
        },
    }
}

impl SessionService {
    /// Tears a connection down, exactly once, when its stream ends.
    pub fn remove_connection(&mut self, conn: usize, handler: ConnectionHandler) -> (out: Vec<
        Outgoing,
    >)
        requires
            old(self).wf(),
        ensures
            final(self).wf(),
            disconnect_post(*old(self), *final(self), conn, handler, out@),
    {
        let _ = self.remove_pending_peer(&handler.phrase);
        let seed = match handler.session_seed {
            Some(s) => s,
            None => {
                return Vec::new();
            },
        };
        let i = match self.find_session(&seed) {
            Some(i) => i,
            None => {
                return Vec::new();
            },
        };
        proof {
            self.lemma_session_idx(i as int);
            assert(old(self).session_idx(seed@) == i as int) by {
                old(self).lemma_session_idx(i as int);
            }
        }
        let mut s = self.sessions.remove(i);
        let ghost s0 = s;
        let ghost conns0 = s.connections@;
        let ghost files0 = s.files@;
        let ghost members1 = conns0.filter(not_conn(conn));
        let ghost owned = files0.filter(owned_by(conn));

        // drop the leaving member
        let mut members: Vec<usize> = Vec::new();
        let mut k: usize = 0;
        while k < s.connections.len()
            invariant
                k <= conns0.len(),
                s.connections@ == conns0,
                members@ == conns0.take(k as int).filter(not_conn(conn)),
                forall|a: int, b: int| 0 <= a < b < members@.len() ==> members@[a] != members@[b],
                forall|a: int, t: int|
                    0 <= a < members@.len() && k <= t < conns0.len() ==> members@[a] != conns0[t],
                forall|a: int| 0 <= a < members@.len() ==> conns0.contains(#[trigger] members@[a]),
                forall|a: int, b: int| 0 <= a < b < conns0.len() ==> conns0[a] != conns0[b],
            decreases conns0.len() - k,
        {
            proof {
                crate::seqs::lemma_filter_take_step(conns0, not_conn(conn), k as int);
            }
            let c = s.connections[k];
            if c != conn {
                members.push(c);
                proof {
                    assert(members@ =~= conns0.take(k as int).filter(not_conn(conn)).push(c));
                    assert(members@ == conns0.take(k + 1).filter(not_conn(conn)));
                }
            }
            k += 1;
        }
        proof {
            assert(conns0.take(conns0.len() as int) =~= conns0);
            assert(members@ == members1);
        }

        // withdraw the leaving member's files, telling the remaining members
        let mut kept: Vec<FileInfo> = Vec::new();
        let mut out: Vec<Outgoing> = Vec::new();
        let mut k: usize = 0;
        while k < s.files.len()
            invariant
                k <= files0.len(),
                s.files@ == files0,
                kept@ == files0.take(k as int).filter(not_owned_by(conn)),
                out@ == removal_msgs(files0.take(k as int).filter(owned_by(conn)), members1),
                forall|a: int, b: int| 0 <= a < b < kept@.len() ==> kept@[a].id != kept@[b].id,
                forall|a: int, t: int|
                    0 <= a < kept@.len() && k <= t < files0.len() ==> kept@[a].id != files0[t].id,
                forall|a: int| 0 <= a < kept@.len() ==> (#[trigger] kept@[a]).connection_id != conn,
                forall|a: int|
                    0 <= a < kept@.len() ==> conns0.contains(
                        (#[trigger] kept@[a]).connection_id,
                    ),
                forall|a: int, b: int| 0 <= a < b < files0.len() ==> files0[a].id != files0[b].id,
                forall|a: int|
                    0 <= a < files0.len() ==> conns0.contains(
                        (#[trigger] files0[a]).connection_id,
                    ),
                members@ == members1,
            decreases files0.len() - k,
        {
            proof {
                crate::seqs::lemma_filter_take_step(files0, owned_by(conn), k as int);
                crate::seqs::lemma_filter_take_step(files0, not_owned_by(conn), k as int);
            }
            let f = &s.files[k];
            if f.connection_id == conn {
                let id = f.id;
                let ghost prev = files0.take(k as int).filter(owned_by(conn));
                let mut j: usize = 0;
                while j < members.len()
                    invariant
                        j <= members@.len(),
                        members@ == members1,
                        0 <= k < files0.len(),
                        id == files0[k as int].id,
                        out@ == removal_msgs(prev, members1) + file_removed_msgs(
                            id,
                            members1.take(j as int),
                        ),
                    decreases members@.len() - j,
                {
                    out.push(
                        Outgoing {
                            to: members[j],
                            msg: OutboundMessage::External(WsResponse::FileRemoved { id }),
                        },
                    );
                    proof {
                        assert(out@ =~= removal_msgs(prev, members1) + file_removed_msgs(
                            id,
                            members1.take(j + 1),
                        ));
                    }
                    j += 1;
                }
                proof {
                    assert(members1.take(members1.len() as int) =~= members1);
                    let stepped = prev.push(files0[k as int]);
                    assert(stepped.drop_last() =~= prev);
                    assert(removal_msgs(stepped, members1) == removal_msgs(prev, members1)
                        + file_removed_msgs(id, members1));
                }
            } else {
                kept.push(f.clone());
                proof {
                    assert(kept@ =~= files0.take(k as int).filter(not_owned_by(conn)).push(
                        files0[k as int],
                    ));
                }
            }
            k += 1;
        }
        proof {
            assert(files0.take(files0.len() as int) =~= files0);
            assert(kept@ == files0.filter(not_owned_by(conn)));
            assert(out@ == removal_msgs(owned, members1));
        }

        // tell the remaining members that the peer left
        let mut j: usize = 0;
        while j < members.len()
            invariant
                j <= members@.len(),
                members@ == members1,
                out@ == removal_msgs(owned, members1) + peer_disconnected_msgs(
                    members1.take(j as int),
                    conn,
                ),
            decreases members@.len() - j,
        {
            out.push(
                Outgoing {
                    to: members[j],
                    msg: OutboundMessage::Internal(InternalMessage::PeerDisconnected(conn)),
                },
            );
            proof {
                assert(out@ =~= removal_msgs(owned, members1) + peer_disconnected_msgs(
                    members1.take(j + 1),
                    conn,
                ));
            }
            j += 1;
        }
        proof {
            assert(members1.take(members1.len() as int) =~= members1);
        }

        s.connections = members;
        s.files = kept;
        if s.connections.len() == 0 {
            proof {
                let pre = *old(self);
                let mid = *self;
                assert(mid.sessions@ == pre.sessions@.remove(i as int));
                assert forall|a: int, b: int|
                    0 <= a < b < mid.sessions@.len() implies mid.sessions@[a].seed@
                    != mid.sessions@[b].seed@ by {
                    let a0 = if a < i as int { a } else { a + 1 };
                    let b0 = if b < i as int { b } else { b + 1 };
                    assert(mid.sessions@[a] == pre.sessions@[a0]);
                    assert(mid.sessions@[b] == pre.sessions@[b0]);
                }
                assert forall|a: int, jx: int|
                    #![trigger mid.pending_connections@[a], mid.sessions@[jx]]
                    0 <= a < mid.pending_connections@.len() && 0 <= jx < mid.sessions@.len()
                        implies !mid.sessions@[jx].has_member(
                        mid.pending_connections@[a].1,
                    ) by {
                    let j0 = if jx < i as int { jx } else { jx + 1 };
                    assert(mid.sessions@[jx] == pre.sessions@[j0]);
                }
            }
            return out;
        }
        self.sessions.insert(i, s);
        proof {
            let pre = *old(self);
            let post = *self;
            let ii = i as int;
            let s1 = post.sessions@[ii];
            assert(post.sessions@ =~= pre.sessions@.update(ii, s1));
            assert(s1.wf() && s1.connections@.len() > 0) by {
                assert forall|a: int, b: int|
                    0 <= a < b < s1.connections@.len() implies s1.connections@[a]
                    != s1.connections@[b] by {}
                assert forall|a: int, b: int| 0 <= a < b < s1.files@.len() implies s1.files@[a].id
                    != s1.files@[b].id by {}
                assert forall|a: int|
                    0 <= a < s1.files@.len() implies s1.connections@.contains(
                    #[trigger] s1.files@[a].connection_id,
                ) by {
                    let o = s1.files@[a].connection_id;
                    assert(conns0.contains(o));
                    let w = choose|w: int| 0 <= w < conns0.len() && conns0[w] == o;
                    conns0.lemma_filter_contains(not_conn(conn), w);
                }
            }
            assert forall|a: int, b: int| 0 <= a < b < post.sessions@.len() implies post.sessions@[
                a
            ].seed@ != post.sessions@[b].seed@ by {
                assert(post.sessions@[a].seed == pre.sessions@[a].seed);
                assert(post.sessions@[b].seed == pre.sessions@[b].seed);
            }
            assert forall|a: int, jx: int|
                #![trigger post.pending_connections@[a], post.sessions@[jx]]
                0 <= a < post.pending_connections@.len() && 0 <= jx < post.sessions@.len()
                    implies !post.sessions@[jx].has_member(post.pending_connections@[a].1) by {
                let c = post.pending_connections@[a].1;
                assert(!pre.sessions@[jx].has_member(c));
                if jx == ii && post.sessions@[jx].has_member(c) {
                    let w = choose|w: int|
                        0 <= w < s1.connections@.len() && s1.connections@[w] == c;
                    assert(conns0.contains(c));
                    assert(s0.has_member(c));
                }
            }
        }
        out
    }

    /// Opens a relay for a file: registers the given token as the pending
    /// relay and asks the owner to start uploading.
    pub fn request_file(&mut self, id: u128, seed: String, relay_token: u64) -> (r: Option<
        (FileInfo, Vec<Outgoing>),
    >)
        requires
            old(self).wf(),
        ensures
            final(self).wf(),
            request_file_post(*old(self), *final(self), id, seed@, relay_token, r),
    {
        let decoded = match decode_seed(seed.as_str()) {
            Some(d) => d,
            None => {
                return None;
            },
        };
        let i = match self.find_session(&decoded) {
            Some(i) => i,
            None => {
                return None;
            },
        };
        proof {
            self.lemma_session_idx(i as int);
        }
        let j = match self.sessions[i].find_file(id) {
            Some(j) => j,
            None => {
                return None;
            },
        };
        proof {
            self.sessions@[i as int].lemma_file_idx(j as int);
        }
        if self.sessions[i].find_relay(id).is_some() {
            return None;
        }
        let f = self.sessions[i].files[j].clone();
        let owner = f.connection_id;
        let mut s = self.sessions.remove(i);
        s.pending_relays.push((id, relay_token));
        self.sessions.insert(i, s);
        let out = reply_raw(
            owner,
            OutboundMessage::External(WsResponse::FileRequested { id }),
        );
        proof {
            let pre = *old(self);
            let ii = i as int;
            let s0 = pre.sessions@[ii];
            let s1 = self.sessions@[ii];
            assert(self.sessions@ =~= pre.sessions@.update(ii, s1));
            assert forall|a: int, b: int| 0 <= a < b < self.sessions@.len() implies self.sessions@[
                a
            ].seed@ != self.sessions@[b].seed@ by {
                assert(self.sessions@[a].seed == pre.sessions@[a].seed);
                assert(self.sessions@[b].seed == pre.sessions@[b].seed);
            }
            assert(s1.wf()) by {
                assert forall|a: int, b: int|
                    0 <= a < b < s1.pending_relays@.len() implies s1.pending_relays@[a].0
                    != s1.pending_relays@[b].0 by {
                    if b < s1.pending_relays@.len() - 1 {
                        assert(s1.pending_relays@[a] == s0.pending_relays@[a]);
                        assert(s1.pending_relays@[b] == s0.pending_relays@[b]);
                    } else {
                        assert(s1.pending_relays@[a] == s0.pending_relays@[a]);
                        assert(!s0.has_relay(id));
                    }
                }
            }
        }
        Some((f, out))
    }

    /// Takes and removes the pending relay for a file, handing back the token
    /// of the byte channel the upload must feed.
    pub fn upload_file(&mut self, id: u128, seed: String) -> (r: Option<u64>)
        requires
            old(self).wf(),
        ensures
            final(self).wf(),
            upload_file_post(*old(self), *final(self), id, seed@, r),
    {
        let decoded = match decode_seed(seed.as_str()) {
            Some(d) => d,
            None => {
                return None;
            },
        };
        let i = match self.find_session(&decoded) {
            Some(i) => i,
            None => {
                return None;
            },
        };
        proof {
            self.lemma_session_idx(i as int);
        }
        let j = match self.sessions[i].find_relay(id) {
            Some(j) => j,
            None => {
                return None;
            },
        };
        proof {
            self.sessions@[i as int].lemma_relay_idx(j as int);
        }
        let mut s = self.sessions.remove(i);
        let token = s.pending_relays[j].1;
        s.pending_relays.remove(j);
        self.sessions.insert(i, s);
        proof {
            let pre = *old(self);
            let ii = i as int;
            let jj = j as int;
            let s0 = pre.sessions@[ii];
            let s1 = self.sessions@[ii];
            assert(self.sessions@ =~= pre.sessions@.update(ii, s1));
            assert forall|a: int, b: int| 0 <= a < b < self.sessions@.len() implies self.sessions@[
                a
            ].seed@ != self.sessions@[b].seed@ by {
                assert(self.sessions@[a].seed == pre.sessions@[a].seed);
                assert(self.sessions@[b].seed == pre.sessions@[b].seed);
            }
            assert(s1.wf()) by {
                assert forall|a: int, b: int|
                    0 <= a < b < s1.pending_relays@.len() implies s1.pending_relays@[a].0
                    != s1.pending_relays@[b].0 by {
                    let a0 = if a < jj { a } else { a + 1 };
                    let b0 = if b < jj { b } else { b + 1 };
                    assert(s1.pending_relays@[a] == s0.pending_relays@[a0]);
                    assert(s1.pending_relays@[b] == s0.pending_relays@[b0]);
                }
            }
        }
        Some(token)
    }

    /// One step of a connection's session loop: dispatches one event of the
    /// merged stream.
    pub fn handle_event(&mut self, conn: usize, handler: &mut ConnectionHandler, event: Event) -> (out:
        Vec<Outgoing>)
        requires
            old(self).wf(),
            old(self).handler_ok(conn, *old(handler)),
        ensures
            final(self).wf(),
            match event {
                Event::External(WsRequest::Connect { phrase }) => connect_post(
                    *old(self),
                    *final(self),
                    conn,
                    *old(handler),
                    *final(handler),
                    phrase@,
                    out@,
                ),
                Event::External(WsRequest::AddFile { id, name, mime_type, size }) => *final(handler)
                    == *old(handler) && add_file_post(
                    *old(self),
                    *final(self),
                    conn,
                    *old(handler),
                    id,
                    name,
                    mime_type,
                    size,
                    out@,
                ),
                Event::External(WsRequest::RemoveFile { id }) => *final(handler) == *old(handler)
                    && remove_file_post(*old(self), *final(self), conn, *old(handler), id, out@),
                Event::Internal(InternalMessage::SessionCreated(sv)) => *final(self) == *old(self)
                    && out@.len() == 0 && final(handler).phrase == old(handler).phrase
                    && final(handler).own_seed == old(handler).own_seed
                    && final(handler).session_seed == Some(sv),
                Event::Internal(InternalMessage::PeerDisconnected(_)) => *final(self) == *old(self)
                    && *final(handler) == *old(handler) && out@.len() == 0,
            },
    {
        match event {
            Event::External(WsRequest::Connect { phrase }) => self.on_connect(
                conn,
                handler,
                phrase,
            ),
            Event::External(WsRequest::AddFile { id, name, mime_type, size }) => self.on_add_file(
                conn,
                handler,
                id,
                name,
                mime_type,
                size,
            ),
            Event::External(WsRequest::RemoveFile { id }) => self.on_remove_file(conn, handler, id),
            Event::Internal(InternalMessage::SessionCreated(sv)) => {
                handler.session_seed = Some(sv);
                Vec::new()
            },
            Event::Internal(InternalMessage::PeerDisconnected(_)) => Vec::new(),
        }
    }
}

/// One message bound for one connection.
fn reply_raw(to: usize, msg: OutboundMessage) -> (out: Vec<Outgoing>)
    ensures
        out@.len() == 1,
        out@[0] == (Outgoing { to, msg }),
{
    let mut out: Vec<Outgoing> = Vec::new();
    out.push(Outgoing { to, msg });
    out
}

/// A copy of a file list.
fn clone_files(v: &Vec<FileInfo>) -> (r: Vec<FileInfo>)
    ensures
        r@ == v@,
{
    let mut r: Vec<FileInfo> = Vec::new();
    let mut i: usize = 0;
    while i < v.len()
        invariant
            i <= v@.len(),
            r@ == v@.take(i as int),
        decreases v@.len() - i,
    {
        r.push(v[i].clone());
        proof {
            assert(r@ =~= v@.take(i + 1));
        }
        i += 1;
    }
    proof {
        assert(v@.take(v@.len() as int) =~= v@);
    }
    r
}

/// One response bound for one connection.
fn reply(conn: usize, resp: WsResponse) -> (out: Vec<Outgoing>)
    ensures
        out@.len() == 1,
        out@[0] == (Outgoing { to: conn, msg: OutboundMessage::External(resp) }),
{
    let mut out: Vec<Outgoing> = Vec::new();
    out.push(Outgoing { to: conn, msg: OutboundMessage::External(resp) });
    out
}

/// A copy of a byte vector.
fn clone_bytes(v: &Vec<u8>) -> (r: Vec<u8>)
    ensures
        r@ == v@,
{
    let mut r: Vec<u8> = Vec::new();
    let mut i: usize = 0;
    while i < v.len()
        invariant
            i <= v@.len(),
            r@ == v@.take(i as int),
        decreases v@.len() - i,
    {
        r.push(v[i]);
        proof {
            assert(r@ =~= v@.take(i + 1));
        }
        i += 1;
    }
    proof {
        assert(v@.take(v@.len() as int) =~= v@);
    }
    r
}

} // verus!
