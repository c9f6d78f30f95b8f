//! The client's acquisition of the server's full file listing, and the
//! download state built from it.
use vstd::prelude::*;
use crate::chunk_state::{bitmap_fits, chunk_count, ChunkState};
use crate::messages::{FileListingFragment, Message};

verus! {

/// Requests for the first entry sent before the client gives up.
pub const MAX_LISTING_ATTEMPTS: u32 = 10;

/// Requests for missing entries sent on one tick, at most.
pub const MAX_REQUESTS_PER_TICK: usize = 50;

/// Time between two ticks of the acquisition, in microseconds.
pub const LISTING_TICK_US: u64 = 500_000;

/// The files that the server has, with the download state of each.
#[derive(Debug, Clone)]
pub struct ServerData {
    /// For each file, in the server's order: its listing entry and which of
    /// its chunks have arrived.
    pub files: Vec<(FileListingFragment, ChunkState)>,
}

/// Whether a listing entry can be downloaded: chunks of positive size, and
/// a bitmap that fits in memory.
pub open spec fn usable(f: FileListingFragment) -> bool {
    f.chunk_size > 0 && bitmap_fits(f.size as nat, f.chunk_size as nat)
}

impl ServerData {
    /// Each entry stands at its own index, and each chunk state is sound and
    /// has one flag per chunk of its file.
    pub open spec fn wf(&self) -> bool {
        forall|i: int|
            0 <= i < self.files@.len() ==> {
                &&& (#[trigger] self.files@[i]).0.idx == i
                &&& usable(self.files@[i].0)
                &&& self.files@[i].1.wf()
                &&& self.files@[i].1@.len() == chunk_count(
                    self.files@[i].0.size as nat,
                    self.files@[i].0.chunk_size as nat,
                )
            }
    }
}

/// The indices of the empty slots, in increasing order.
pub open spec fn missing(slots: Seq<Option<FileListingFragment>>) -> Seq<nat>
    decreases slots.len(),
{
    if slots.len() == 0 {
        Seq::empty()
    } else {
        let rest = missing(slots.drop_last());
        if slots.last() is None {
            rest.push((slots.len() - 1) as nat)
        } else {
            rest
        }
    }
}

/// What the client does when the acquisition's timer fires.
#[derive(Debug, Clone)]
pub enum ListingTick {
    /// Send these requests to the server.
    Request(Vec<Message>),
    /// No entry arrived after the allowed attempts: the session is over.
    GiveUp,
}

/// Acquisition of the listing: first the number of entries, then every
/// entry.
#[derive(Debug)]
pub struct ListingAcquisition {
    attempts: u32,
    slots: Option<Vec<Option<FileListingFragment>>>,
}

impl ListingAcquisition {
    /// Requests for the first entry sent so far.
    pub closed spec fn attempts(&self) -> nat {
        self.attempts as nat
    }

    /// The entries received, once the number of entries is known.
    pub closed spec fn slots(&self) -> Option<Seq<Option<FileListingFragment>>> {
        match self.slots {
            Some(v) => Some(v@),
            None => None,
        }
    }

    /// Every entry received stands in its own slot and is usable.
    pub closed spec fn wf(&self) -> bool {
        match self.slots {
            Some(v) => forall|i: int|
                0 <= i < v@.len() ==> (#[trigger] v@[i] matches Some(f) ==> f.idx == i
                    && usable(f)),
            None => true,
        }
    }

    /// An acquisition that knows nothing yet.
    pub fn new() -> (r: Self)
        ensures
            r.wf(),
            r.attempts() == 0,
            r.slots() is None,
    {
        ListingAcquisition { attempts: 0, slots: None }
    }

    /// The timer fired. While the number of entries is unknown, the first
    /// entry is requested, up to `MAX_LISTING_ATTEMPTS` times; after that the
    /// client gives up. Once it is known, the first `MAX_REQUESTS_PER_TICK`
    /// missing entries are requested, in order.
    pub fn on_tick(&mut self) -> (r: ListingTick)
        requires
            old(self).wf(),
        ensures
            final(self).wf(),
            final(self).slots() == old(self).slots(),
            old(self).slots() is None && old(self).attempts() >= MAX_LISTING_ATTEMPTS ==> r is GiveUp,
            old(self).slots() is None && old(self).attempts() < MAX_LISTING_ATTEMPTS ==> {
                &&& final(self).attempts() == old(self).attempts() + 1
                &&& r matches ListingTick::Request(v) && v@ == seq![
                    Message::FileListingRequest { idx: 0 },
                ]
            },
            old(self).slots() matches Some(s) ==> {
                &&& final(self).attempts() == old(self).attempts()
                &&& r matches ListingTick::Request(v) && v@.len() == (if missing(s).len()
                    < MAX_REQUESTS_PER_TICK {
                    missing(s).len()
                } else {
                    MAX_REQUESTS_PER_TICK as nat
                }) && forall|i: int|
                    0 <= i < v@.len() ==> #[trigger] v@[i] == (Message::FileListingRequest {
                        idx: missing(s)[i] as u32,
                    })
            },
    {
        match &self.slots {
            None => {
                if self.attempts >= MAX_LISTING_ATTEMPTS {
                    return ListingTick::GiveUp;
                }
                self.attempts = self.attempts + 1;
                let mut v: Vec<Message> = Vec::new();
                v.push(Message::FileListingRequest { idx: 0 });
                assert(v@ =~= seq![Message::FileListingRequest { idx: 0 }]);
                ListingTick::Request(v)
            },
            Some(slots) => ListingTick::Request(requests_for_missing(slots)),
        }
    }

    /// A listing entry arrived. The first one tells how many entries there
    /// are. An entry is kept in its slot when its index is in range and it is
    /// usable; anything else is ignored.
    pub fn on_fragment(&mut self, f: &FileListingFragment)
        requires
            old(self).wf(),
        ensures
            final(self).wf(),
            final(self).attempts() == old(self).attempts(),
            old(self).slots() is None ==> final(self).slots() == Some(
                if f.idx < f.total && usable(*f) {
                    Seq::new(f.total as nat, |i: int| None::<FileListingFragment>).update(
                        f.idx as int,
                        Some(*f),
                    )
                } else {
                    Seq::new(f.total as nat, |i: int| None::<FileListingFragment>)
                },
            ),
            old(self).slots() matches Some(s) ==> final(self).slots() == Some(
                if f.idx < s.len() && usable(*f) {
                    s.update(f.idx as int, Some(*f))
                } else {
                    s
                },
            ),
    {
        if self.slots.is_none() {
            let mut v: Vec<Option<FileListingFragment>> = Vec::new();
            let mut i: u32 = 0;
            while i < f.total
                invariant
                    0 <= i <= f.total,
                    v@ == Seq::new(i as nat, |k: int| None::<FileListingFragment>),
                decreases f.total - i,
            {
                v.push(None);
                assert(v@ =~= Seq::new((i + 1) as nat, |k: int| None::<FileListingFragment>));
                i = i + 1;
            }
            self.slots = Some(v);
            assert(self.slots() == Some(Seq::new(f.total as nat, |i: int| None::<FileListingFragment>)));
        }
        let usable_entry = f.chunk_size > 0 && fits_in_memory(f.size, f.chunk_size);
        let ghost before = self.slots()->Some_0;
        match &mut self.slots {
            Some(v) => {
                if (f.idx as usize) < v.len() && usable_entry {
                    v.set(f.idx as usize, Some(f.duplicate()));
                }
            },
            None => {},
        }
    }

    /// Whether every entry has arrived.
    pub fn is_complete(&self) -> (r: bool)
        ensures
            r == (self.slots() matches Some(s) && missing(s).len() == 0),
    {
        match &self.slots {
            None => false,
            Some(slots) => {
                let mut i: usize = 0;
                while i < slots.len()
                    invariant
                        self.slots() == Some(slots@),
                        0 <= i <= slots@.len(),
                        missing(slots@.subrange(0, i as int)).len() == 0,
                    decreases slots@.len() - i,
                {
                    proof {
                        lemma_missing_step(slots@, i as int);
                    }
                    if slots[i].is_none() {
                        proof {
                            lemma_missing_mono(slots@, i + 1);
                            assert(missing(slots@.subrange(0, i + 1)).len() == 1);
                        }
                        return false;
                    }
                    i = i + 1;
                }
                assert(slots@.subrange(0, i as int) =~= slots@);
                true
            },
        }
    }

    /// The download state for the full listing: every entry with no chunk
    /// received.
    pub fn into_server_data(self) -> (r: ServerData)
        requires
            self.wf(),
            self.slots() matches Some(s) && missing(s).len() == 0,
        ensures
            r.wf(),
            r.files@.len() == self.slots()->Some_0.len(),
            forall|i: int|
                0 <= i < r.files@.len() ==> {
                    &&& Some((#[trigger] r.files@[i]).0) == self.slots()->Some_0[i]
                    &&& r.files@[i].1@ == Seq::new(r.files@[i].1@.len(), |k: int| false)
                },
    {
        let slots = match self.slots {
            Some(v) => v,
            None => Vec::new(),
        };
        let ghost s = slots@;
        let mut files: Vec<(FileListingFragment, ChunkState)> = Vec::new();
        let mut i: usize = 0;
        while i < slots.len()
            invariant
                s == slots@,
                missing(s).len() == 0,
                forall|k: int| 0 <= k < s.len() ==> (#[trigger] s[k] matches Some(f) ==> f.idx == k && usable(f)),
                0 <= i <= s.len(),
                files@.len() == i,
                forall|k: int|
                    0 <= k < i ==> {
                        &&& Some((#[trigger] files@[k]).0) == s[k]
                        &&& files@[k].0.idx == k
                        &&& usable(files@[k].0)
                        &&& files@[k].1.wf()
                        &&& files@[k].1@.len() == chunk_count(
                            files@[k].0.size as nat,
                            files@[k].0.chunk_size as nat,
                        )
                        &&& files@[k].1@ == Seq::new(files@[k].1@.len(), |t: int| false)
                    },
            decreases s.len() - i,
        {
            proof {
                lemma_no_missing_all_some(s, i as int);
            }
            match &slots[i] {
                Some(f) => {
                    let cs = ChunkState::from_file_size(f.size, f.chunk_size);
                    files.push((f.duplicate(), cs));
                },
                None => {},
            }
            i = i + 1;
        }
        ServerData { files }
    }
}

fn fits_in_memory(size: u64, chunk_size: u16) -> (r: bool)
    requires
        chunk_size > 0,
    ensures
        r == bitmap_fits(size as nat, chunk_size as nat),
{
    let n = crate::chunk_state::count_chunks(size, chunk_size);
    let words: u64 = n / 64 + if n % 64 == 0 { 0 } else { 1 };
    words <= usize::MAX as u64
}

fn requests_for_missing(slots: &Vec<Option<FileListingFragment>>) -> (r: Vec<Message>)
    ensures
        r@.len() == (if missing(slots@).len() < MAX_REQUESTS_PER_TICK {
            missing(slots@).len()
        } else {
            MAX_REQUESTS_PER_TICK as nat
        }),
        forall|i: int|
            0 <= i < r@.len() ==> #[trigger] r@[i] == (Message::FileListingRequest {
                idx: missing(slots@)[i] as u32,
            }),
{
    let mut out: Vec<Message> = Vec::new();
    let mut i: usize = 0;
    while i < slots.len() && out.len() < MAX_REQUESTS_PER_TICK
        invariant
            0 <= i <= slots@.len(),
            out@.len() == missing(slots@.subrange(0, i as int)).len(),
            out@.len() <= MAX_REQUESTS_PER_TICK,
            forall|k: int|
                0 <= k < out@.len() ==> #[trigger] out@[k] == (Message::FileListingRequest {
                    idx: missing(slots@.subrange(0, i as int))[k] as u32,
                }),
        decreases slots@.len() - i,
    {
        proof {
            lemma_missing_step(slots@, i as int);
        }
        if slots[i].is_none() {
            out.push(Message::FileListingRequest { idx: i as u32 });
        }
        i = i + 1;
    }
    proof {
        lemma_missing_mono(slots@, i as int);
        if i == slots@.len() {
            assert(slots@.subrange(0, i as int) =~= slots@);
        }
    }
    out
}

proof fn lemma_missing_step(s: Seq<Option<FileListingFragment>>, i: int)
    requires
        0 <= i < s.len(),
    ensures
        missing(s.subrange(0, i + 1)) == if s[i] is None {
            missing(s.subrange(0, i)).push(i as nat)
        } else {
            missing(s.subrange(0, i))
        },
{
    assert(s.subrange(0, i + 1).drop_last() =~= s.subrange(0, i));
}

/// The missing indices of a prefix start the missing indices of the whole.
proof fn lemma_missing_mono(s: Seq<Option<FileListingFragment>>, i: int)
    requires
        0 <= i <= s.len(),
    ensures
        missing(s.subrange(0, i)).len() <= missing(s).len(),
        forall|k: int|
            0 <= k < missing(s.subrange(0, i)).len() ==> #[trigger] missing(s.subrange(0, i))[k]
                == missing(s)[k],
    decreases s.len() - i,
{
    if i < s.len() {
        lemma_missing_mono(s, i + 1);
        lemma_missing_step(s, i);
        assert forall|k: int| 0 <= k < missing(s.subrange(0, i)).len() implies #[trigger] missing(
            s.subrange(0, i),
        )[k] == missing(s)[k] by {
            assert(missing(s.subrange(0, i))[k] == missing(s.subrange(0, i + 1))[k]);
        }
    } else {
        assert(s.subrange(0, i) =~= s);
    }
}

proof fn lemma_no_missing_all_some(s: Seq<Option<FileListingFragment>>, i: int)
    requires
        missing(s).len() == 0,
        0 <= i < s.len(),
    ensures
        s[i] is Some,
    decreases s.len(),
{
    if i < s.len() - 1 {
        lemma_no_missing_all_some(s.drop_last(), i);
    }
}

} // verus!
