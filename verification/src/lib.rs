//! A pairing and relay broker for ephemeral peer-to-peer file-sharing
//! sessions.
//!
//! A fresh connection advertises a human-speakable pairing phrase; a second
//! connection presents that phrase to join the first in a session identified
//! by a seed derived from the creator's phrase and a server-wide password.
//! Members advertise files to each other and relay file bytes through the
//! server.  Every state transition of the broker is a function from the
//! registries, the connection's own state and one event to the next state and
//! the messages to deliver; the transport layer around the library performs
//! the waiting and the sends.

use vstd::prelude::*;

pub mod codec;
pub mod laws;
pub mod messages;
pub mod multiplexer;
mod seqs;
pub mod service;
pub mod session;

verus! {

/// Number of words in a generated pairing phrase.
pub const PHRASE_WORDS: usize = 12;

/// Length of the shortest word in the pairing dictionary.
pub const MIN_WORD_LEN: usize = 3;

/// Length of the longest word in the pairing dictionary.
pub const MAX_WORD_LEN: usize = 8;

/// Shortest well-formed pairing phrase: all words minimal, single spaces
/// between them.
pub const MIN_PHRASE_LEN: usize = 47;

/// Longest well-formed pairing phrase: all words maximal, single spaces
/// between them.
pub const MAX_PHRASE_LEN: usize = 107;

/// A session rejects a file once its count would reach this ceiling.
pub const MAX_FILE_COUNT: usize = 10;

/// A pairing phrase is only looked up when its length is plausible for a
/// phrase the server could have issued.
pub open spec fn phrase_len_ok(len: nat) -> bool {
    MIN_PHRASE_LEN <= len <= MAX_PHRASE_LEN
}

/// Decides whether a candidate phrase has a plausible length.
pub fn check_phrase_len(len: usize) -> (r: bool)
    ensures
        r == phrase_len_ok(len as nat),
{
    MIN_PHRASE_LEN <= len && len <= MAX_PHRASE_LEN
}

} // verus!
