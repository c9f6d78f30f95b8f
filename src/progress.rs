//! What the client's progress display shows: one bar per file, made of one
//! glyph per group of chunks, and the recent download rate.
use vstd::prelude::*;
use vstd::string::StringExecFns;

verus! {

/// Chunks per group of a progress bar; one glyph stands for each group.
pub const SUPERBLOCK: usize = 62;

/// The download rate is averaged over this many seconds.
pub const AVERAGE_RATE_OVER_SECS: u64 = 5;

/// File names are cut to this many characters.
pub const MAX_FILE_NAME_LEN: usize = 20;

/// Something that happened to a download.
#[derive(Debug, Clone, Copy, PartialEq, Eq, Structural)]
pub enum ProgressEvent {
    /// A chunk arrived: file index, chunk index, bytes.
    ChunkDownloaded(u64, u64, usize),
    /// A chunk was requested: file index, chunk index.
    ChunkRequested(u64, u64),
    /// A file is complete: file index.
    FileDone(u64),
}

/// How a glyph is shown.
#[derive(Debug, Clone, Copy, PartialEq, Eq, Structural)]
pub enum GlyphStyle {
    /// No chunk of the group has arrived.
    NotStarted,
    /// Some chunks of the group have arrived.
    InProgress,
    /// The whole group has arrived.
    Complete,
}

/// The glyph for `n` completed chunks of an unfinished group: 0-9, a-z,
/// then A-Z.
pub open spec fn step_glyph(n: nat) -> char {
    if n < 10 {
        ('0' as nat + n) as char
    } else if n < 36 {
        ('a' as nat + (n - 10)) as char
    } else {
        ('A' as nat + (n - 36)) as char
    }
}

/// The glyph of a group of `len` chunks of which `done` have arrived.
pub open spec fn glyph_of(done: nat, len: nat) -> (char, GlyphStyle) {
    if done >= len {
        ('X', GlyphStyle::Complete)
    } else if done == 0 {
        (step_glyph(0), GlyphStyle::NotStarted)
    } else {
        (step_glyph(done), GlyphStyle::InProgress)
    }
}

/// Number of groups of a file of `n` chunks.
pub open spec fn group_count(n: nat) -> nat {
    (n + SUPERBLOCK - 1) as nat / SUPERBLOCK as nat
}

/// Length of group `g` of a file of `n` chunks: full but for the last.
pub open spec fn group_len(n: nat, g: nat) -> nat {
    if g + 1 < group_count(n) || n % SUPERBLOCK as nat == 0 {
        SUPERBLOCK as nat
    } else {
        n % SUPERBLOCK as nat
    }
}

/// The glyph of a group with `done` of its `len` chunks arrived.
pub fn glyph(done: usize, len: usize) -> (r: (char, GlyphStyle))
    requires
        len <= SUPERBLOCK,
    ensures
        r == glyph_of(done as nat, len as nat),
{
    if done >= len {
        ('X', GlyphStyle::Complete)
    } else {
        let d = done as u32;
        let c: char = if d < 10 {
            char_from(0x30 + d)
        } else if d < 36 {
            char_from(0x61 + d - 10)
        } else {
            char_from(0x41 + d - 36)
        };
        if done == 0 {
            (c, GlyphStyle::NotStarted)
        } else {
            (c, GlyphStyle::InProgress)
        }
    }
}

/// The count of arrived chunks in each group of each file, and which files
/// are complete.
#[derive(Debug, Clone)]
pub struct ProgressState {
    chunk_counts: Vec<u64>,
    groups: Vec<Vec<usize>>,
    done: Vec<bool>,
}

impl ProgressState {
    /// The number of chunks of each file.
    pub closed spec fn chunk_counts(&self) -> Seq<u64> {
        self.chunk_counts@
    }

    /// For each file, the number of arrived chunks of each group.
    pub closed spec fn groups(&self) -> Seq<Seq<usize>> {
        Seq::new(self.groups@.len(), |f: int| self.groups@[f]@)
    }

    /// Which files are complete.
    pub closed spec fn done(&self) -> Seq<bool> {
        self.done@
    }

    /// One entry per file everywhere, and one count per group.
    pub closed spec fn wf(&self) -> bool {
        &&& self.groups@.len() == self.chunk_counts@.len()
        &&& self.done@.len() == self.chunk_counts@.len()
        &&& forall|f: int|
            0 <= f < self.chunk_counts@.len() ==> (#[trigger] self.groups@[f])@.len()
                == group_count(self.chunk_counts@[f] as nat)
    }

    /// Nothing arrived yet, for files of the given numbers of chunks.
    pub fn new(chunk_counts: Vec<u64>) -> (r: Self)
        requires
            forall|f: int|
                0 <= f < chunk_counts@.len() ==> group_count(#[trigger] chunk_counts@[f] as nat)
                    <= usize::MAX,
        ensures
            r.wf(),
            r.chunk_counts() == chunk_counts@,
            forall|f: int|
                0 <= f < chunk_counts@.len() ==> #[trigger] r.groups()[f] == Seq::new(
                    group_count(chunk_counts@[f] as nat),
                    |g: int| 0usize,
                ),
            r.done() == Seq::new(chunk_counts@.len(), |f: int| false),
    {
        let mut groups: Vec<Vec<usize>> = Vec::new();
        let mut done: Vec<bool> = Vec::new();
        let mut f: usize = 0;
        while f < chunk_counts.len()
            invariant
                0 <= f <= chunk_counts@.len(),
                forall|k: int|
                    0 <= k < chunk_counts@.len() ==> group_count(#[trigger] chunk_counts@[k] as nat)
                        <= usize::MAX,
                groups@.len() == f,
                done@ == Seq::new(f as nat, |k: int| false),
                forall|k: int|
                    0 <= k < f ==> (#[trigger] groups@[k])@ == Seq::new(
                        group_count(chunk_counts@[k] as nat),
                        |g: int| 0usize,
                    ),
            decreases chunk_counts@.len() - f,
        {
            let n = chunk_counts[f];
            let g: u64 = n / 62 + if n % 62 == 0 { 0 } else { 1 };
            assert(g == group_count(n as nat));
            let row: Vec<usize> = vec![0usize; g as usize];
            assert(row@ =~= Seq::new(group_count(n as nat), |t: int| 0usize));
            groups.push(row);
            done.push(false);
            assert(done@ =~= Seq::new((f + 1) as nat, |k: int| false));
            f = f + 1;
        }
        let r = ProgressState { chunk_counts, groups, done };
        r
    }

    /// Take in an event; returns whether every file is complete. Events for
    /// files or chunks out of range change nothing.
    pub fn apply(&mut self, ev: &ProgressEvent) -> (all_done: bool)
        requires
            old(self).wf(),
        ensures
            final(self).wf(),
            final(self).chunk_counts() == old(self).chunk_counts(),
            all_done == forall|f: int| 0 <= f < final(self).done().len() ==> #[trigger] final(self).done()[f],
            match *ev {
                ProgressEvent::ChunkDownloaded(f, c, _) => {
                    &&& final(self).done() == old(self).done()
                    &&& if f < old(self).groups().len() && c / 62 < old(self).groups()[f as int].len() {
                        let row = old(self).groups()[f as int];
                        let g = (c / 62) as int;
                        final(self).groups() == old(self).groups().update(
                            f as int,
                            row.update(g, if row[g] < usize::MAX { (row[g] + 1) as usize } else { row[g] }),
                        )
                    } else {
                        final(self).groups() == old(self).groups()
                    }
                },
                ProgressEvent::ChunkRequested(_, _) => *final(self) == *old(self),
                ProgressEvent::FileDone(f) => {
                    &&& final(self).groups() == old(self).groups()
                    &&& final(self).done() == if f < old(self).done().len() {
                        old(self).done().update(f as int, true)
                    } else {
                        old(self).done()
                    }
                },
            },
    {
        match ev {
            ProgressEvent::ChunkDownloaded(f, c, _) => {
                let fi = *f;
                let g = *c / 62;
                if fi < self.groups.len() as u64 && g < self.groups[fi as usize].len() as u64 {
                    let fu = fi as usize;
                    let gu = g as usize;
                    let mut row: Vec<usize> = Vec::new();
                    self.groups.set_and_swap(fu, &mut row);
                    let v = row[gu];
                    if v < usize::MAX {
                        row.set(gu, v + 1);
                    }
                    let ghost new_row = row@;
                    assert(new_row == old(self).groups()[f as int].update(
                        g as int,
                        if v < usize::MAX { (v + 1) as usize } else { v },
                    ));
                    self.groups.set_and_swap(fu, &mut row);
                    proof {
                        assert(self.groups@[fu as int]@ == new_row);
                        assert(self.groups() =~= old(self).groups().update(
                            f as int,
                            old(self).groups()[f as int].update(
                                g as int,
                                if v < usize::MAX { (v + 1) as usize } else { v },
                            ),
                        ));
                    }
                }
            },
            ProgressEvent::ChunkRequested(_, _) => {},
            ProgressEvent::FileDone(f) => {
                if *f < self.done.len() as u64 {
                    self.done.set(*f as usize, true);
                }
            },
        }
        self.all_done()
    }

    fn all_done(&self) -> (r: bool)
        ensures
            r == forall|f: int| 0 <= f < self.done().len() ==> #[trigger] self.done()[f],
    {
        let mut i: usize = 0;
        while i < self.done.len()
            invariant
                0 <= i <= self.done@.len(),
                forall|f: int| 0 <= f < i ==> #[trigger] self.done@[f],
            decreases self.done@.len() - i,
        {
            if !self.done[i] {
                assert(!self.done()[i as int]);
                return false;
            }
            i = i + 1;
        }
        true
    }

    /// The glyphs of the bar of file `f`, one per group.
    pub fn bar(&self, f: usize) -> (r: Vec<(char, GlyphStyle)>)
        requires
            self.wf(),
            f < self.chunk_counts().len(),
        ensures
            r@.len() == self.groups()[f as int].len(),
            forall|g: int|
                0 <= g < r@.len() ==> #[trigger] r@[g] == glyph_of(
                    self.groups()[f as int][g] as nat,
                    group_len(self.chunk_counts()[f as int] as nat, g as nat),
                ),
    {
        let n = self.chunk_counts[f];
        let row = &self.groups[f];
        let mut out: Vec<(char, GlyphStyle)> = Vec::new();
        let mut g: usize = 0;
        while g < row.len()
            invariant
                row@.len() == group_count(n as nat),
                n == self.chunk_counts@[f as int],
                row == self.groups@[f as int],
                0 <= g <= row@.len(),
                out@.len() == g,
                forall|k: int|
                    0 <= k < g ==> #[trigger] out@[k] == glyph_of(
                        row@[k] as nat,
                        group_len(n as nat, k as nat),
                    ),
            decreases row@.len() - g,
        {
            let len: usize = if g + 1 < row.len() || n % 62 == 0 {
                SUPERBLOCK
            } else {
                (n % 62) as usize
            };
            out.push(glyph(row[g], len));
            g = g + 1;
        }
        out
    }
}

/// The text that the bytesize crate gives for a number of bytes.
pub uninterp spec fn byte_size_text(n: u64) -> Seq<char>;

/// Relies on bytesize::ByteSize's Display: a human-readable size, the same
/// text for the same number of bytes.
#[verifier::external_body]
fn human_size(n: u64) -> (r: String)
    ensures
        r@ == byte_size_text(n),
{
    bytesize::ByteSize::b(n).to_string()
}

/// The samples that remain when those older than the averaging period, at
/// the front, are dropped.
pub open spec fn fresh(samples: Seq<(u64, usize)>, now: u64) -> Seq<(u64, usize)>
    decreases samples.len(),
{
    if samples.len() > 0 && now as int - samples[0].0 as int > AVERAGE_RATE_OVER_SECS * 1_000_000 {
        fresh(samples.drop_first(), now)
    } else {
        samples
    }
}

/// The sum of the byte counts of the samples.
pub open spec fn total_bytes(samples: Seq<(u64, usize)>) -> nat
    decreases samples.len(),
{
    if samples.len() == 0 {
        0
    } else {
        total_bytes(samples.drop_last()) + samples.last().1 as nat
    }
}

/// Bytes downloaded recently, with the time of each arrival in microseconds.
#[derive(Debug, Clone)]
pub struct RateWindow {
    samples: Vec<(u64, usize)>,
}

impl RateWindow {
    /// The arrivals recorded, oldest first.
    pub closed spec fn samples(&self) -> Seq<(u64, usize)> {
        self.samples@
    }

    /// No arrival recorded.
    pub fn new() -> (r: Self)
        ensures
            r.samples() == Seq::<(u64, usize)>::empty(),
    {
        RateWindow { samples: Vec::new() }
    }

    /// Record `bytes` arriving at `now_us`.
    pub fn record(&mut self, now_us: u64, bytes: usize)
        ensures
            final(self).samples() == old(self).samples().push((now_us, bytes)),
    {
        self.samples.push((now_us, bytes));
    }

    /// The download rate at `now_us`, in bytes per second: `None` when nothing
    /// was ever recorded (the download is stalled), else the bytes of the
    /// arrivals of the last five seconds divided by five. Older arrivals are
    /// forgotten.
    pub fn rate(&mut self, now_us: u64) -> (r: Option<u64>)
        ensures
            old(self).samples().len() == 0 ==> r is None && final(self).samples() == old(self).samples(),
            old(self).samples().len() > 0 ==> {
                &&& final(self).samples() == fresh(old(self).samples(), now_us)
                &&& r == Some(
                    if total_bytes(fresh(old(self).samples(), now_us)) / 5 > u64::MAX {
                        u64::MAX
                    } else {
                        (total_bytes(fresh(old(self).samples(), now_us)) / 5) as u64
                    },
                )
            },
    {
        if self.samples.len() == 0 {
            return None;
        }
        let mut start: usize = 0;
        assert(self.samples@.subrange(0, self.samples@.len() as int) =~= self.samples@);
        while start < self.samples.len() && (now_us as i128) - (self.samples[start].0 as i128) > 5_000_000
            invariant
                0 <= start <= self.samples@.len(),
                fresh(self.samples@, now_us) == fresh(self.samples@.subrange(start as int, self.samples@.len() as int), now_us),
            decreases self.samples@.len() - start,
        {
            proof {
                let rest = self.samples@.subrange(start as int, self.samples@.len() as int);
                assert(rest.drop_first() =~= self.samples@.subrange(start + 1, self.samples@.len() as int));
            }
            start = start + 1;
        }
        proof {
            let rest = self.samples@.subrange(start as int, self.samples@.len() as int);
            assert(fresh(rest, now_us) == rest);
        }
        let mut kept: Vec<(u64, usize)> = Vec::new();
        let mut sum: u128 = 0;
        let mut i: usize = start;
        while i < self.samples.len()
            invariant
                start <= i <= self.samples@.len(),
                kept@ == self.samples@.subrange(start as int, i as int),
                sum == total_bytes(kept@),
                sum <= (i - start) * 0xffff_ffff_ffff_ffffu128,
            decreases self.samples@.len() - i,
        {
            kept.push(self.samples[i]);
            sum = sum + self.samples[i].1 as u128;
            assert(kept@.drop_last() =~= self.samples@.subrange(start as int, i as int));
            assert(kept@ =~= self.samples@.subrange(start as int, i + 1));
            i = i + 1;
        }
        proof {
            assert(self.samples@.subrange(start as int, start as int) =~= Seq::<(u64, usize)>::empty());
        }
        let avg = sum / 5;
        let r: u64 = if avg > u64::MAX as u128 {
            u64::MAX
        } else {
            avg as u64
        };
        self.samples = kept;
        Some(r)
    }
}

/// The header line of the progress display for a rate given by
/// `RateWindow::rate`.
pub fn rate_text(rate: Option<u64>) -> (r: String)
    ensures
        rate is None ==> r@ == "...stalled..."@,
        rate matches Some(n) ==> r@ == byte_size_text(n) + " / s"@,
{
    match rate {
        None => "...stalled...".to_owned(),
        Some(n) => {
            let mut text = human_size(n);
            text.append(" / s");
            text
        },
    }
}

fn char_from(code: u32) -> (c: char)
    requires
        code < 128,
    ensures
        c == code as char,
{
    (code as u8) as char
}

} // verus!
