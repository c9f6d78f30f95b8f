//! Decisions of the server's transmission engine: the listing and chunk
//! carousels, the replies to requests, and what each inbound message calls for.
use vstd::prelude::*;
use crate::chunk_state::{chunk_count, count_chunks};
use crate::liveness::ping_reply;
use crate::magic::push_all;
use crate::messages::{FileListingFragment, JoinReason, Message};

verus! {

/// Time in microseconds in which the whole listing is broadcast once.
pub const LISTING_PERIOD_US: u64 = 5_000_000;

/// Time in microseconds between two unsolicited chunks.
pub const CHUNK_PERIOD_US: u64 = 100_000;

/// A listing the server can serve: at least one entry, each with chunks of
/// positive size.
pub open spec fn listing_wf(entries: Seq<FileListingFragment>) -> bool {
    &&& entries.len() > 0
    &&& entries.len() <= u32::MAX
    &&& forall|i: int| 0 <= i < entries.len() ==> #[trigger] entries[i].chunk_size > 0
}

/// Whether the server can serve `entries`.
pub fn listing_wf_holds(entries: &Vec<FileListingFragment>) -> (r: bool)
    ensures
        r == listing_wf(entries@),
{
    if entries.len() == 0 || entries.len() > u32::MAX as usize {
        return false;
    }
    let mut i: usize = 0;
    while i < entries.len()
        invariant
            0 <= i <= entries@.len(),
            forall|j: int| 0 <= j < i ==> #[trigger] entries@[j].chunk_size > 0,
        decreases entries@.len() - i,
    {
        if entries[i].chunk_size == 0 {
            assert(!(entries@[i as int].chunk_size > 0));
            return false;
        }
        i = i + 1;
    }
    true
}

/// An index clamped into `[0, len)`.
pub open spec fn clamp(idx: nat, len: nat) -> nat {
    if idx < len {
        idx
    } else {
        (len - 1) as nat
    }
}

/// Number of chunks of listing entry `f`.
pub open spec fn entry_chunks(f: FileListingFragment) -> nat {
    chunk_count(f.size as nat, f.chunk_size as nat)
}

/// The chunk served for a request of chunk `chunk`: the last one when past
/// the end (0 for an empty file).
pub open spec fn clamp_chunk(chunk: nat, count: nat) -> nat {
    if chunk < count {
        chunk
    } else if count == 0 {
        0
    } else {
        (count - 1) as nat
    }
}

/// The bytes of chunk `c` of `file`: empty past the end, short at the end.
pub open spec fn chunk_of(file: Seq<u8>, chunk_size: nat, c: nat) -> Seq<u8> {
    let start = c * chunk_size;
    if start >= file.len() {
        Seq::empty()
    } else if start + chunk_size > file.len() {
        file.subrange(start as int, file.len() as int)
    } else {
        file.subrange(start as int, (start + chunk_size) as int)
    }
}

/// Time in microseconds between two listing fragments.
pub fn listing_interval_us(total: usize) -> (r: u64)
    requires
        total > 0,
    ensures
        r as int == LISTING_PERIOD_US as int / total as int,
{
    LISTING_PERIOD_US / total as u64
}

/// The fragment broadcast for a request of listing entry `idx`: that entry,
/// or the last one when `idx` is out of range.
pub fn listing_reply(entries: &Vec<FileListingFragment>, idx: u32) -> (r: Message)
    requires
        listing_wf(entries@),
    ensures
        r == Message::FileListing(entries@[clamp(idx as nat, entries@.len()) as int]),
{
    let i: usize = if (idx as usize) < entries.len() {
        idx as usize
    } else {
        entries.len() - 1
    };
    Message::FileListing(entries[i].duplicate())
}

/// Where the listing carousel stands: the next entry to broadcast.
#[derive(Debug, Clone, Copy, PartialEq, Eq, Structural)]
pub struct ListingCarousel {
    pub next: usize,
}

impl ListingCarousel {
    /// A carousel that starts with the first entry.
    pub fn new() -> (r: Self)
        ensures
            r.next == 0,
    {
        ListingCarousel { next: 0 }
    }

    /// The fragment to broadcast on this tick; the carousel moves on to the
    /// next entry, round-robin.
    pub fn tick(&mut self, entries: &Vec<FileListingFragment>) -> (r: Message)
        requires
            listing_wf(entries@),
            old(self).next < entries@.len(),
        ensures
            r == Message::FileListing(entries@[old(self).next as int]),
            final(self).next == (old(self).next + 1) % (entries@.len() as int),
    {
        let m = Message::FileListing(entries[self.next].duplicate());
        self.next = (self.next + 1) % entries.len();
        m
    }
}

/// The file and chunk served for a request of chunk `chunk` of file `idx`:
/// each clamped to the last one when out of range.
pub fn chunk_reply_target(entries: &Vec<FileListingFragment>, idx: u32, chunk: u64) -> (r: (
    u32,
    u64,
))
    requires
        listing_wf(entries@),
    ensures
        r.0 == clamp(idx as nat, entries@.len()),
        r.1 == clamp_chunk(chunk as nat, entry_chunks(entries@[r.0 as int])),
{
    let i: usize = if (idx as usize) < entries.len() {
        idx as usize
    } else {
        entries.len() - 1
    };
    let count = count_chunks(entries[i].size, entries[i].chunk_size);
    let c: u64 = if chunk < count {
        chunk
    } else if count == 0 {
        0
    } else {
        count - 1
    };
    (i as u32, c)
}

/// Where the unsolicited chunk carousel stands: the next file and chunk.
#[derive(Debug, Clone, Copy, PartialEq, Eq, Structural)]
pub struct ChunkCarousel {
    pub file: usize,
    pub chunk: u64,
}

impl ChunkCarousel {
    /// A carousel that starts with the first chunk of the first file.
    pub fn new() -> (r: Self)
        ensures
            r.file == 0,
            r.chunk == 0,
    {
        ChunkCarousel { file: 0, chunk: 0 }
    }

    /// Move to the next chunk, in lexicographic order of (file, chunk),
    /// wrapping to the first file after the last chunk of the last file.
    pub fn advance(&mut self, entries: &Vec<FileListingFragment>)
        requires
            listing_wf(entries@),
            old(self).file < entries@.len(),
        ensures
            final(self).file < entries@.len(),
            old(self).chunk + 1 < entry_chunks(entries@[old(self).file as int]) ==> *final(self)
                == (ChunkCarousel { file: old(self).file, chunk: (old(self).chunk + 1) as u64 }),
            old(self).chunk + 1 >= entry_chunks(entries@[old(self).file as int]) ==> *final(self)
                == (ChunkCarousel {
                    file: ((old(self).file + 1) % (entries@.len() as int)) as usize,
                    chunk: 0,
                }),
    {
        let count = count_chunks(entries[self.file].size, entries[self.file].chunk_size);
        if self.chunk < count && self.chunk + 1 < count {
            self.chunk = self.chunk + 1;
        } else {
            self.chunk = 0;
            self.file = (self.file + 1) % entries.len();
        }
    }
}

/// The bytes of chunk `chunk_number` of a file whose contents are `file`.
pub fn chunk_bytes(file: &[u8], chunk_size: u64, chunk_number: u64) -> (r: Vec<u8>)
    ensures
        r@ == chunk_of(file@, chunk_size as nat, chunk_number as nat),
{
    let len = file.len();
    let mut out: Vec<u8> = Vec::new();
    match chunk_number.checked_mul(chunk_size) {
        None => {
            out
        },
        Some(start) => {
            if start >= len as u64 {
                return out;
            }
            let s = start as usize;
            let end: usize = if chunk_size >= (len - s) as u64 {
                len
            } else {
                s + chunk_size as usize
            };
            push_all(&mut out, &file[s..end]);
            assert(out@ =~= chunk_of(file@, chunk_size as nat, chunk_number as nat));
            out
        },
    }
}

/// What the server does about one inbound message.
#[derive(Debug, Clone)]
pub enum ServerAction {
    /// Nothing.
    Ignore,
    /// Send this reply to the sender's address.
    Unicast(Message),
    /// Broadcast `reply` on the priority lane, and account `recvs` packets
    /// as delivered to the sender.
    Pong { reply: Message, recvs: u64 },
    /// Broadcast this message on the rate-limited lane.
    Broadcast(Message),
    /// Read chunk `chunk` of file `idx` and broadcast it on the
    /// rate-limited lane.
    SendChunk { idx: u32, chunk: u64 },
}

/// The server's response to an inbound message: joins are accepted, pings
/// answered, listing and chunk requests served; the rest is ignored.
pub fn server_action(msg: &Message, entries: &Vec<FileListingFragment>) -> (r: ServerAction)
    requires
        listing_wf(entries@),
    ensures
        match *msg {
            Message::JoinQuery {  } => r == ServerAction::Unicast(
                Message::JoinResponse(JoinReason::Accepted),
            ),
            Message::Ping { nonce, recvs } => r == (ServerAction::Pong {
                reply: Message::Pong { nonce },
                recvs,
            }),
            Message::FileListingRequest { idx } => r == ServerAction::Broadcast(
                Message::FileListing(entries@[clamp(idx as nat, entries@.len()) as int]),
            ),
            Message::FileChunkRequest { idx, chunk } => {
                let f = clamp(idx as nat, entries@.len());
                r == (ServerAction::SendChunk {
                    idx: f as u32,
                    chunk: clamp_chunk(chunk as nat, entry_chunks(entries@[f as int])) as u64,
                })
            },
            _ => r is Ignore,
        },
{
    match msg {
        Message::JoinQuery {  } => ServerAction::Unicast(Message::JoinResponse(JoinReason::Accepted)),
        Message::Ping { .. } => match ping_reply(msg) {
            Some((recvs, reply)) => ServerAction::Pong { reply, recvs },
            None => ServerAction::Ignore,
        },
        Message::FileListingRequest { idx } => ServerAction::Broadcast(
            listing_reply(entries, *idx),
        ),
        Message::FileChunkRequest { idx, chunk } => {
            let (f, c) = chunk_reply_target(entries, *idx, *chunk);
            ServerAction::SendChunk { idx: f, chunk: c }
        },
        _ => ServerAction::Ignore,
    }
}

} // verus!
