//! The messages exchanged between server and clients.
use vstd::prelude::*;

verus! {

/// The answer of a server to a client that asks to join.
#[derive(Debug, Clone, Copy, PartialEq, Eq, Structural)]
pub enum JoinReason {
    /// The server accepted the client.
    Accepted,
    /// The client asked for a server of another name.
    WrongName,
}

/// Why a client leaves.
#[derive(Debug, Clone, Copy, PartialEq, Eq, Structural)]
pub enum DisconnectReason {
    /// All downloads are complete.
    Done,
}

/// One entry of a server's file listing.
#[derive(Debug, Clone)]
pub struct FileListingFragment {
    /// The zero-based index of this fragment in the file listing.
    pub idx: u32,
    /// The total number of fragments in the file listing.
    pub total: u32,
    /// The path of the file, relative to the shared directory.
    pub path: String,
    /// The size of the file in bytes.
    pub size: u64,
    /// The SHA-256 hash of the file.
    pub hash: [u8; 32],
    /// The size of the chunks that the file is split into.
    pub chunk_size: u16,
}

impl FileListingFragment {
    /// A field-for-field copy.
    pub fn duplicate(&self) -> (r: Self)
        ensures
            r == *self,
    {
        FileListingFragment {
            idx: self.idx,
            total: self.total,
            path: self.path.clone(),
            size: self.size,
            hash: self.hash,
            chunk_size: self.chunk_size,
        }
    }
}

/// A piece of a file.
#[derive(Debug, Clone)]
pub struct FileChunkData {
    /// The index of the file that this chunk is part of.
    pub idx: u32,
    /// The number of this chunk; the first chunk is 0.
    pub chunk: u64,
    /// The bytes of this chunk.
    pub data: Vec<u8>,
}

/// A message on the wire.
#[derive(Debug, Clone)]
pub enum Message {
    /// Broadcast by a server to announce its presence; `port` is where it
    /// listens for replies.
    Announce { port: u16 },
    /// A client asks to join the server.
    JoinQuery {},
    /// The server's answer to a `JoinQuery`.
    JoinResponse(JoinReason),
    /// A liveness probe; `recvs` counts the packets that the sender received
    /// from this peer since its previous ping.
    Ping { nonce: u64, recvs: u64 },
    /// The answer to a `Ping`, echoing its nonce.
    Pong { nonce: u64 },
    /// One entry of the file listing.
    FileListing(FileListingFragment),
    /// A request to send listing entry `idx` again.
    FileListingRequest { idx: u32 },
    /// A request for chunk `chunk` of file `idx`.
    FileChunkRequest { idx: u32, chunk: u64 },
    /// A piece of a file.
    FileChunk(FileChunkData),
    /// A client leaves.
    Disconnect(DisconnectReason),
}

} // verus!
