//! The protocol messages.
//!
//! Clients drive a connection with `WsRequest` values and are answered with
//! `WsResponse` values.  The broker itself injects `InternalMessage` values
//! into a connection's own event stream.  Every state transition of the
//! broker returns the messages it wants delivered as `Outgoing` values; the
//! transport layer performs the sends.

use vstd::prelude::*;

verus! {

/// A request a client sends over its connection.
#[derive(PartialEq, Debug)]
pub enum WsRequest {
    Connect { phrase: String },
    AddFile { id: u128, name: String, mime_type: String, size: usize },
    RemoveFile { id: u128 },
}

/// A file advertised inside a session.
#[derive(PartialEq, Debug)]
pub struct FileInfo {
    pub id: u128,
    pub name: String,
    pub mime_type: String,
    pub size: usize,
    /// The member that advertised the file and can serve its bytes.
    pub connection_id: usize,
}

impl Clone for FileInfo {
    fn clone(&self) -> (r: Self)
        ensures
            r == *self,
    {
        FileInfo {
            id: self.id,
            name: self.name.clone(),
            mime_type: self.mime_type.clone(),
            size: self.size,
            connection_id: self.connection_id,
        }
    }
}

/// A response the server sends to one client.
#[derive(PartialEq, Debug)]
pub enum WsResponse {
    Created { phrase: String },
    Connected { connection_id: usize, seed: String, files: Vec<FileInfo> },
    FileAdded(FileInfo),
    FileRemoved { id: u128 },
    FileRequested { id: u128 },
    PeerNotFound,
    SessionNotFound,
    FileCountLimitReached,
    FileAlreadyExists,
}

/// A control message the broker injects into one connection's own event
/// stream.
#[derive(PartialEq, Debug)]
pub enum InternalMessage {
    /// The connection now belongs to the session with this seed.
    SessionCreated(Vec<u8>),
    /// A peer left the session; informational only.
    PeerDisconnected(usize),
}

/// What a transition hands to the transport: one message bound for one
/// connection.
#[derive(PartialEq, Debug)]
pub enum OutboundMessage {
    Internal(InternalMessage),
    External(WsResponse),
}

/// A message together with the connection it must be delivered to.
#[derive(PartialEq, Debug)]
pub struct Outgoing {
    pub to: usize,
    pub msg: OutboundMessage,
}

/// The body of the response of the endpoint that hands out a fresh pairing
/// phrase without opening a connection.
#[derive(PartialEq, Debug)]
pub struct MnemonicResp {
    pub phrase: String,
}

impl MnemonicResp {
    pub fn new(phrase: String) -> (r: Self)
        ensures
            r.phrase == phrase,
    {
        MnemonicResp { phrase }
    }
}

} // verus!
