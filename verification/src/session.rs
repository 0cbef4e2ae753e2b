//! One live session: its seed, its members, the files they advertise and the
//! relays currently in flight.

use vstd::prelude::*;
use vstd::pervasive::unreached;

use crate::messages::{FileInfo, OutboundMessage, Outgoing, WsResponse};

verus! {

/// The shared state of one pairing.
pub struct Session {
    /// The derived seed: the session's identity in the registry.
    pub seed: Vec<u8>,
    /// The ids of the member connections.
    pub connections: Vec<usize>,
    /// The advertised files, at most one per file id.
    pub files: Vec<FileInfo>,
    /// The in-flight relays: file id and the transport's token for the open
    /// byte channel, at most one per file id.
    pub pending_relays: Vec<(u128, u64)>,
}

/// The messages that deliver one response to every given member, in member
/// order.
pub open spec fn broadcast_msgs(members: Seq<usize>, message: WsResponse) -> Seq<Outgoing> {
    members.map_values(|m: usize| Outgoing { to: m, msg: OutboundMessage::External(message) })
}

/// Keeps the members other than the one given.
pub open spec fn not_conn(connection_id: usize) -> spec_fn(usize) -> bool {
    |c: usize| c != connection_id
}

/// Keeps the files a given connection owns.
pub open spec fn owned_by(connection_id: usize) -> spec_fn(FileInfo) -> bool {
    |f: FileInfo| f.connection_id == connection_id
}

/// Keeps the files a given connection does not own.
pub open spec fn not_owned_by(connection_id: usize) -> spec_fn(FileInfo) -> bool {
    |f: FileInfo| f.connection_id != connection_id
}

impl Session {
    pub open spec fn has_member(self, c: usize) -> bool {
        self.connections@.contains(c)
    }

    pub open spec fn has_file(self, id: u128) -> bool {
        exists|i: int| 0 <= i < self.files@.len() && self.files@[i].id == id
    }

    pub open spec fn file_idx(self, id: u128) -> int {
        choose|i: int| 0 <= i < self.files@.len() && self.files@[i].id == id
    }

    pub open spec fn file_at(self, id: u128) -> FileInfo {
        self.files@[self.file_idx(id)]
    }

    pub open spec fn has_relay(self, id: u128) -> bool {
        exists|i: int| 0 <= i < self.pending_relays@.len() && self.pending_relays@[i].0 == id
    }

    pub open spec fn relay_idx(self, id: u128) -> int {
        choose|i: int| 0 <= i < self.pending_relays@.len() && self.pending_relays@[i].0 == id
    }

    pub open spec fn relay_token(self, id: u128) -> u64 {
        self.pending_relays@[self.relay_idx(id)].1
    }

    /// Well-formedness: members, file ids and relay ids are free of
    /// duplicates, and every file is owned by a member.
    pub open spec fn wf(self) -> bool {
        &&& forall|i: int, j: int|
            0 <= i < j < self.connections@.len() ==> self.connections@[i] != self.connections@[j]
        &&& forall|i: int, j: int|
            0 <= i < j < self.files@.len() ==> self.files@[i].id != self.files@[j].id
        &&& forall|i: int, j: int|
            0 <= i < j < self.pending_relays@.len()
                ==> self.pending_relays@[i].0 != self.pending_relays@[j].0
        &&& forall|i: int|
            0 <= i < self.files@.len()
                ==> self.connections@.contains(#[trigger] self.files@[i].connection_id)
    }

    /// In a well-formed session the file found at an index is the one file
    /// with its id.
    pub proof fn lemma_file_idx(self, i: int)
        requires
            self.wf(),
            0 <= i < self.files@.len(),
        ensures
            self.has_file(self.files@[i].id),
            self.file_idx(self.files@[i].id) == i,
    {
        let id = self.files@[i].id;
        assert(self.has_file(id));
        let j = self.file_idx(id);
        if j < i {
            assert(self.files@[j].id != self.files@[i].id);
        } else if j > i {
            assert(self.files@[i].id != self.files@[j].id);
        }
    }

    /// In a well-formed session the relay found at an index is the one relay
    /// with its file id.
    pub proof fn lemma_relay_idx(self, i: int)
        requires
            self.wf(),
            0 <= i < self.pending_relays@.len(),
        ensures
            self.has_relay(self.pending_relays@[i].0),
            self.relay_idx(self.pending_relays@[i].0) == i,
    {
        let id = self.pending_relays@[i].0;
        assert(self.has_relay(id));
        let j = self.relay_idx(id);
        if j < i {
            assert(self.pending_relays@[j].0 != self.pending_relays@[i].0);
        } else if j > i {
            assert(self.pending_relays@[i].0 != self.pending_relays@[j].0);
        }
    }

    /// A fresh session holding its first member and nothing else.
    pub fn new(seed: Vec<u8>, host: usize) -> (s: Session)
        ensures
            s.seed == seed,
            s.connections@ == seq![host],
            s.files@ == Seq::<FileInfo>::empty(),
            s.pending_relays@ == Seq::<(u128, u64)>::empty(),
            s.wf(),
    {
        let mut connections: Vec<usize> = Vec::new();
        connections.push(host);
        let s = Session { seed, connections, files: Vec::new(), pending_relays: Vec::new() };
        proof {
            assert(s.connections@ =~= seq![host]);
        }
        s
    }

    /// Whether a connection is a member.
    pub fn is_member(&self, c: usize) -> (r: bool)
        ensures
            r == self.has_member(c),
    {
        let mut i: usize = 0;
        while i < self.connections.len()
            invariant
                i <= self.connections@.len(),
                forall|k: int| 0 <= k < i ==> self.connections@[k] != c,
            decreases self.connections@.len() - i,
        {
            if self.connections[i] == c {
                return true;
            }
            i += 1;
        }
        assert(!self.has_member(c)) by {
            if self.connections@.contains(c) {
                let k = choose|k: int|
                    0 <= k < self.connections@.len() && self.connections@[k] == c;
                assert(self.connections@[k] != c);
            }
        }
        false
    }

    /// The position of the file with the given id, if present.
    pub fn find_file(&self, id: u128) -> (r: Option<usize>)
        ensures
            match r {
                Some(i) => i < self.files@.len() && self.files@[i as int].id == id,
                None => !self.has_file(id),
            },
    {
        let mut i: usize = 0;
        while i < self.files.len()
            invariant
                i <= self.files@.len(),
                forall|k: int| 0 <= k < i ==> self.files@[k].id != id,
            decreases self.files@.len() - i,
        {
            if self.files[i].id == id {
                return Some(i);
            }
            i += 1;
        }
        None
    }

    /// The position of the pending relay for the given file id, if present.
    pub fn find_relay(&self, id: u128) -> (r: Option<usize>)
        ensures
            match r {
                Some(i) => i < self.pending_relays@.len() && self.pending_relays@[i as int].0 == id,
                None => !self.has_relay(id),
            },
    {
        let mut i: usize = 0;
        while i < self.pending_relays.len()
            invariant
                i <= self.pending_relays@.len(),
                forall|k: int| 0 <= k < i ==> self.pending_relays@[k].0 != id,
            decreases self.pending_relays@.len() - i,
        {
            if self.pending_relays[i].0 == id {
                return Some(i);
            }
            i += 1;
        }
        None
    }

    /// Delivers one response to every member, in member order.
    pub fn broadcast_external(&self, message: &WsResponse) -> (out: Vec<Outgoing>)
        requires
            !(message is Connected),
        ensures
            out@ == broadcast_msgs(self.connections@, *message),
    {
        let mut out: Vec<Outgoing> = Vec::new();
        let mut i: usize = 0;
        while i < self.connections.len()
            invariant
                !(message is Connected),
                i <= self.connections@.len(),
                out@.len() == i,
                forall|k: int|
                    0 <= k < i ==> out@[k] == (Outgoing {
                        to: self.connections@[k],
                        msg: OutboundMessage::External(*message),
                    }),
            decreases self.connections@.len() - i,
        {
            out.push(Outgoing {
                to: self.connections[i],
                msg: OutboundMessage::External(clone_response(message)),
            });
            i += 1;
        }
        proof {
            assert(out@ =~= broadcast_msgs(self.connections@, *message));
        }
        out
    }

    /// Delivers one response to every member but one, in member order.
    pub fn broadcast_external_except(&self, connection_id: usize, message: &WsResponse) -> (out:
        Vec<Outgoing>)
        requires
            !(message is Connected),
        ensures
            out@ == broadcast_msgs(self.connections@.filter(not_conn(connection_id)), *message),
    {
        let mut out: Vec<Outgoing> = Vec::new();
        let mut i: usize = 0;
        while i < self.connections.len()
            invariant
                !(message is Connected),
                i <= self.connections@.len(),
                out@ == broadcast_msgs(
                    self.connections@.take(i as int).filter(not_conn(connection_id)),
                    *message,
                ),
            decreases self.connections@.len() - i,
        {
            proof {
                crate::seqs::lemma_filter_take_step(
                    self.connections@,
                    not_conn(connection_id),
                    i as int,
                );
            }
            let c = self.connections[i];
            if c != connection_id {
                out.push(Outgoing {
                    to: c,
                    msg: OutboundMessage::External(clone_response(message)),
                });
                proof {
                    let f = self.connections@.take(i as int).filter(not_conn(connection_id));
                    assert(out@ =~= broadcast_msgs(f.push(c), *message));
                }
            }
            i += 1;
        }
        proof {
            assert(self.connections@.take(self.connections@.len() as int) =~= self.connections@);
        }
        out
    }
}

/// A copy of a response bound for one more recipient.  `Connected` responses
/// are addressed to a single peer and are never broadcast, so they need no
/// copy.
fn clone_response(message: &WsResponse) -> (r: WsResponse)
    requires
        !(message is Connected),
    ensures
        r == *message,
{
    match message {
        WsResponse::Created { phrase } => WsResponse::Created { phrase: phrase.clone() },
        WsResponse::Connected { .. } => unreached(),
        WsResponse::FileAdded(f) => WsResponse::FileAdded(f.clone()),
        WsResponse::FileRemoved { id } => WsResponse::FileRemoved { id: *id },
        WsResponse::FileRequested { id } => WsResponse::FileRequested { id: *id },
        WsResponse::PeerNotFound => WsResponse::PeerNotFound,
        WsResponse::SessionNotFound => WsResponse::SessionNotFound,
        WsResponse::FileCountLimitReached => WsResponse::FileCountLimitReached,
        WsResponse::FileAlreadyExists => WsResponse::FileAlreadyExists,
    }
}

} // verus!
