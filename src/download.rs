//! The client's download of one file: which chunk to request next, where an
//! arriving chunk is written, and when the file is complete.
use vstd::prelude::*;
use crate::chunk_state::{all_set, chunk_count, first_clear, ChunkState};
use crate::listing::usable;
use crate::messages::{FileChunkData, FileListingFragment, Message};
use crate::progress::ProgressEvent;
use crate::schedule::chunk_of;

verus! {

/// Where chunk `c` is written in a file of `size` bytes: `None` when it
/// starts past the end.
pub open spec fn write_offset(size: nat, chunk_size: nat, c: nat) -> Option<nat> {
    if c * chunk_size < size {
        Some(c * chunk_size)
    } else {
        None
    }
}

/// File contents after `data` is written at `offset` (which is inside the
/// file); the file grows when the data runs past its end.
pub open spec fn write_at(content: Seq<u8>, offset: nat, data: Seq<u8>) -> Seq<u8> {
    if offset + data.len() <= content.len() {
        content.subrange(0, offset as int) + data + content.subrange(
            (offset + data.len()) as int,
            content.len() as int,
        )
    } else {
        content.subrange(0, offset as int) + data
    }
}

/// File contents after the chunks `msgs` (chunk number, bytes) are written
/// in order, each at its offset, the ones past the end skipped.
pub open spec fn after_chunks(
    content: Seq<u8>,
    size: nat,
    chunk_size: nat,
    msgs: Seq<(u64, Seq<u8>)>,
) -> Seq<u8>
    decreases msgs.len(),
{
    if msgs.len() == 0 {
        content
    } else {
        let prev = after_chunks(content, size, chunk_size, msgs.drop_last());
        match write_offset(size, chunk_size, msgs.last().0 as nat) {
            Some(off) => write_at(prev, off, msgs.last().1),
            None => prev,
        }
    }
}

/// What the download does when its request timer fires.
#[derive(Debug, Clone)]
pub enum TickAction {
    /// Requests are disabled: nothing.
    Idle,
    /// Send this request to the server and report it.
    Request(Message, ProgressEvent),
    /// Every chunk has arrived: report it and stop.
    Finish(ProgressEvent),
}

/// What the download does with an arriving chunk.
#[derive(Debug, Clone)]
pub struct ChunkOutcome {
    /// The offset at which to write the chunk's bytes, unless it starts past
    /// the end of the file.
    pub write_at: Option<u64>,
    /// The progress report of the arrival.
    pub event: ProgressEvent,
    /// The report that the file is complete, when it is.
    pub finished: Option<ProgressEvent>,
}

/// The download of one file.
#[derive(Debug)]
pub struct DownloadTask {
    idx: u32,
    size: u64,
    chunk_size: u16,
    chunks: ChunkState,
}

impl DownloadTask {
    /// The index of the file.
    pub closed spec fn idx(&self) -> u32 {
        self.idx
    }

    /// The size of the file in bytes.
    pub closed spec fn size(&self) -> u64 {
        self.size
    }

    /// The size of its chunks in bytes.
    pub closed spec fn chunk_size(&self) -> u16 {
        self.chunk_size
    }

    /// Which chunks have arrived.
    pub closed spec fn chunks(&self) -> Seq<bool> {
        self.chunks@
    }

    /// The chunk state is sound and sized for the file.
    pub closed spec fn wf(&self) -> bool {
        &&& self.chunk_size > 0
        &&& self.chunks.wf()
        &&& self.chunks@.len() == chunk_count(self.size as nat, self.chunk_size as nat)
    }

    /// The download of the file of `file`, with the chunks of `chunks`
    /// already there.
    pub fn new(file: &FileListingFragment, chunks: ChunkState) -> (r: Self)
        requires
            usable(*file),
            chunks.wf(),
            chunks@.len() == chunk_count(file.size as nat, file.chunk_size as nat),
        ensures
            r.wf(),
            r.idx() == file.idx,
            r.size() == file.size,
            r.chunk_size() == file.chunk_size,
            r.chunks() == chunks@,
    {
        DownloadTask { idx: file.idx, size: file.size, chunk_size: file.chunk_size, chunks }
    }

    /// The request timer fired. With requests enabled, the first missing
    /// chunk is requested; when none is missing the download finishes.
    pub fn on_tick(&self, requesting: bool) -> (r: TickAction)
        requires
            self.wf(),
        ensures
            !requesting ==> r is Idle,
            requesting ==> match first_clear(self.chunks()) {
                Some(c) => r == TickAction::Request(
                    Message::FileChunkRequest { idx: self.idx(), chunk: c as u64 },
                    ProgressEvent::ChunkRequested(self.idx() as u64, c as u64),
                ),
                None => r == TickAction::Finish(ProgressEvent::FileDone(self.idx() as u64)),
            },
    {
        if !requesting {
            return TickAction::Idle;
        }
        match self.chunks.get_zero() {
            Some(c) => TickAction::Request(
                Message::FileChunkRequest { idx: self.idx, chunk: c },
                ProgressEvent::ChunkRequested(self.idx as u64, c),
            ),
            None => TickAction::Finish(ProgressEvent::FileDone(self.idx as u64)),
        }
    }

    /// A chunk of this file arrived: it is written at its offset (nothing is
    /// written past the end), marked as arrived, and reported; the download
    /// finishes when that completes the file.
    pub fn on_chunk(&mut self, chunk: &FileChunkData) -> (r: ChunkOutcome)
        requires
            old(self).wf(),
        ensures
            final(self).wf(),
            final(self).idx() == old(self).idx(),
            final(self).size() == old(self).size(),
            final(self).chunk_size() == old(self).chunk_size(),
            final(self).chunks() == if (chunk.chunk as nat) < old(self).chunks().len() {
                old(self).chunks().update(chunk.chunk as int, true)
            } else {
                old(self).chunks()
            },
            r.write_at == (match write_offset(
                old(self).size() as nat,
                old(self).chunk_size() as nat,
                chunk.chunk as nat,
            ) {
                Some(o) => Some(o as u64),
                None => None::<u64>,
            }),
            r.event == ProgressEvent::ChunkDownloaded(
                old(self).idx() as u64,
                chunk.chunk,
                chunk.data@.len() as usize,
            ),
            r.finished == if all_set(final(self).chunks()) {
                Some(ProgressEvent::FileDone(old(self).idx() as u64))
            } else {
                None::<ProgressEvent>
            },
    {
        let write_at: Option<u64> = match chunk.chunk.checked_mul(self.chunk_size as u64) {
            Some(off) => if off < self.size {
                Some(off)
            } else {
                None
            },
            None => None,
        };
        if chunk.chunk < self.chunks.len() {
            self.chunks.set(chunk.chunk, true);
        }
        let event = ProgressEvent::ChunkDownloaded(self.idx as u64, chunk.chunk, chunk.data.len());
        let finished = if self.chunks.is_complete() {
            Some(ProgressEvent::FileDone(self.idx as u64))
        } else {
            None
        };
        ChunkOutcome { write_at, event, finished }
    }
}

/// Whether chunk `c` is among `msgs`.
pub open spec fn has_chunk(msgs: Seq<(u64, Seq<u8>)>, c: nat) -> bool {
    exists|i: int| 0 <= i < msgs.len() && #[trigger] msgs[i].0 == c
}

/// Whether every chunk of a file of `size` bytes is among `msgs`.
pub open spec fn covers(msgs: Seq<(u64, Seq<u8>)>, size: nat, chunk_size: nat) -> bool {
    forall|c: nat| c < chunk_count(size, chunk_size) ==> #[trigger] has_chunk(msgs, c)
}

/// Whether each of `msgs` carries the bytes of its chunk of `source`.
pub open spec fn from_source(msgs: Seq<(u64, Seq<u8>)>, source: Seq<u8>, chunk_size: nat) -> bool {
    forall|i: int|
        0 <= i < msgs.len() ==> (#[trigger] msgs[i]).1 == chunk_of(
            source,
            chunk_size,
            msgs[i].0 as nat,
        )
}

proof fn lemma_chunk_bounds(p: int, cs: int, c: int)
    requires
        0 <= p,
        0 < cs,
        c == p / cs,
    ensures
        c * cs <= p < c * cs + cs,
        c >= 0,
{
    vstd::arithmetic::div_mod::lemma_fundamental_div_mod(p, cs);
    assert(0 <= p % cs < cs);
    assert(c * cs == cs * c) by (nonlinear_arith);
    assert(c >= 0) by (nonlinear_arith)
        requires
            0 <= p,
            0 < cs,
            c == p / cs,
    ;
}

proof fn lemma_after_chunks_agree(content: Seq<u8>, source: Seq<u8>, cs: nat, msgs: Seq<(u64, Seq<u8>)>)
    requires
        cs > 0,
        content.len() == source.len(),
        from_source(msgs, source, cs),
    ensures
        after_chunks(content, source.len(), cs, msgs).len() == source.len(),
        forall|p: int, i: int|
            0 <= p < source.len() && 0 <= i < msgs.len() && msgs[i].0 == p / (cs as int) ==> #[trigger] after_chunks(
                content,
                source.len(),
                cs,
                msgs,
            )[p] == source[p] && #[trigger] msgs[i] == msgs[i],
    decreases msgs.len(),
{
    if msgs.len() > 0 {
        let rest = msgs.drop_last();
        assert forall|i: int| 0 <= i < rest.len() implies (#[trigger] rest[i]).1 == chunk_of(
            source,
            cs,
            rest[i].0 as nat,
        ) by {
            assert(rest[i] == msgs[i]);
        }
        lemma_after_chunks_agree(content, source, cs, rest);
        let prev = after_chunks(content, source.len(), cs, rest);
        let out = after_chunks(content, source.len(), cs, msgs);
        let (c, data) = msgs.last();
        let size = source.len();
        assert(data == chunk_of(source, cs, c as nat));
        if c * cs < size {
            let off = (c * cs) as nat;
            let end: int = if off + cs > size { size as int } else { (off + cs) as int };
            assert(data.len() == end - off);
            assert(out == write_at(prev, off, data));
            assert(out.len() == size);
            assert forall|p: int, i: int|
                0 <= p < size && 0 <= i < msgs.len() && msgs[i].0 == p / (cs as int) implies #[trigger] out[p]
                == source[p] && #[trigger] msgs[i] == msgs[i] by {
                if off <= p < end {
                    assert(out[p] == data[p - off]);
                } else {
                    assert(out[p] == prev[p]);
                    if i == msgs.len() - 1 {
                        lemma_chunk_bounds(p, cs as int, c as int);
                    } else {
                        assert(rest[i] == msgs[i]);
                    }
                }
            }
        } else {
            assert forall|p: int, i: int|
                0 <= p < size && 0 <= i < msgs.len() && msgs[i].0 == p / (cs as int) implies #[trigger] out[p]
                == source[p] && #[trigger] msgs[i] == msgs[i] by {
                if i == msgs.len() - 1 {
                    lemma_chunk_bounds(p, cs as int, c as int);
                } else {
                    assert(rest[i] == msgs[i]);
                }
            }
        }
    }
}

/// A file preallocated to the source's size becomes the source once chunk
/// messages that cover every chunk, each carrying its bytes of the source,
/// have been written in any order, duplicates and chunks past the end
/// included.
pub proof fn lemma_download_reconstructs(
    content: Seq<u8>,
    source: Seq<u8>,
    chunk_size: nat,
    msgs: Seq<(u64, Seq<u8>)>,
)
    requires
        chunk_size > 0,
        content.len() == source.len(),
        from_source(msgs, source, chunk_size),
        covers(msgs, source.len(), chunk_size),
    ensures
        after_chunks(content, source.len(), chunk_size, msgs) == source,
{
    lemma_after_chunks_agree(content, source, chunk_size, msgs);
    let out = after_chunks(content, source.len(), chunk_size, msgs);
    let cs = chunk_size as int;
    assert forall|p: int| 0 <= p < source.len() implies out[p] == source[p] by {
        let c = p / cs;
        lemma_chunk_bounds(p, cs, c);
        vstd::arithmetic::div_mod::lemma_div_is_ordered(p, source.len() - 1, cs);
        vstd::arithmetic::div_mod::lemma_div_plus_one(source.len() - 1, cs);
        assert(c < chunk_count(source.len(), chunk_size));
        assert(has_chunk(msgs, c as nat));
        let i = choose|i: int| 0 <= i < msgs.len() && #[trigger] msgs[i].0 == c as nat;
        assert(msgs[i] == msgs[i]);
    }
    assert(out =~= source);
}

} // verus!
