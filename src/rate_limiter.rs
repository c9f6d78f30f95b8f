//! The adaptive rate limit of the server's rate-limited lane: a one-second
//! accounting window, and a rate that follows the delivery ratios that
//! clients report in their pings (additive increase, multiplicative decrease).
use vstd::prelude::*;

verus! {

/// Length of the accounting window, in microseconds.
pub const WINDOW_US: u64 = 1_000_000;

/// Increase of the rate after a good report, in packets per second.
pub const RATE_STEP: usize = 5;

/// A peer is dropped once this many seconds' worth of packets went out
/// since its last ping.
pub const EVICT_AFTER_SECS: u128 = 100;

/// The rate after a peer reports `recvs` packets received out of `sent`
/// sent: `floor(0.9 * r)` (not under `min`) when under half arrived, else
/// `r + 5` (not over `max`).
pub open spec fn adjusted_rate(r: nat, min: nat, max: nat, recvs: nat, sent: nat) -> nat {
    if 2 * recvs < sent {
        let lowered = (r * 9) / 10;
        if lowered < min {
            min
        } else {
            lowered
        }
    } else {
        let raised = r + 5;
        if raised > max {
            max
        } else {
            raised
        }
    }
}

/// The end of the window that starts at `start`, saturated at `u64::MAX`.
pub open spec fn window_end(start: u64) -> nat {
    if start + WINDOW_US > u64::MAX {
        u64::MAX as nat
    } else {
        (start + WINDOW_US) as nat
    }
}

/// The peers after one more packet went out: each counter grows by one
/// (saturating), and peers whose counter passes `100 * rate` are dropped.
pub open spec fn bumped(peers: Seq<(Seq<char>, u64)>, rate: nat) -> Seq<(Seq<char>, u64)>
    decreases peers.len(),
{
    if peers.len() == 0 {
        Seq::empty()
    } else {
        let rest = bumped(peers.drop_last(), rate);
        let (name, count) = peers.last();
        let c = if count < u64::MAX {
            (count + 1) as u64
        } else {
            count
        };
        if c > EVICT_AFTER_SECS * rate {
            rest
        } else {
            rest.push((name, c))
        }
    }
}

/// Whether `i` is the first position of peer `name`.
pub open spec fn first_pos(peers: Seq<(Seq<char>, u64)>, name: Seq<char>, i: int) -> bool {
    &&& 0 <= i < peers.len()
    &&& peers[i].0 == name
    &&& forall|j: int| 0 <= j < i ==> peers[j].0 != name
}

/// The state of the rate limiter.
#[derive(Debug)]
pub struct RateLimiter {
    min: usize,
    max: usize,
    rate: usize,
    window_start: u64,
    in_window: usize,
    peers: Vec<(String, u64)>,
}

impl RateLimiter {
    /// The lowest rate, in packets per second.
    pub closed spec fn min_rate(&self) -> nat {
        self.min as nat
    }

    /// The highest rate, in packets per second.
    pub closed spec fn max_rate(&self) -> nat {
        self.max as nat
    }

    /// The current rate, in packets per second.
    pub closed spec fn rate(&self) -> nat {
        self.rate as nat
    }

    /// When the current accounting window started, in microseconds.
    pub closed spec fn window_start(&self) -> u64 {
        self.window_start
    }

    /// Packets admitted in the current window.
    pub closed spec fn in_window(&self) -> nat {
        self.in_window as nat
    }

    /// Each known peer with the packets sent since its last ping.
    pub closed spec fn peers(&self) -> Seq<(Seq<char>, u64)> {
        Seq::new(self.peers@.len(), |i: int| (self.peers@[i].0@, self.peers@[i].1))
    }

    /// The rate stays within its bounds.
    pub closed spec fn wf(&self) -> bool {
        self.min <= self.rate <= self.max
    }

    /// A limiter between `min` and `max` packets per second, starting at
    /// `min`, with its first window starting at `now_us`.
    pub fn new(min: usize, max: usize, now_us: u64) -> (r: Self)
        requires
            min <= max,
        ensures
            r.wf(),
            r.min_rate() == min,
            r.max_rate() == max,
            r.rate() == min,
            r.window_start() == now_us,
            r.in_window() == 0,
            r.peers() == Seq::<(Seq<char>, u64)>::empty(),
    {
        let r = RateLimiter {
            min,
            max,
            rate: min,
            window_start: now_us,
            in_window: 0,
            peers: Vec::new(),
        };
        assert(r.peers() =~= Seq::<(Seq<char>, u64)>::empty());
        r
    }

    /// The current rate, in packets per second.
    pub fn current_rate(&self) -> (r: usize)
        ensures
            r == self.rate(),
    {
        self.rate
    }

    fn find_peer(&self, name: &String) -> (r: Option<usize>)
        ensures
            match r {
                Some(i) => first_pos(self.peers(), name@, i as int),
                None => forall|j: int| 0 <= j < self.peers().len() ==> self.peers()[j].0 != name@,
            },
    {
        let mut i: usize = 0;
        while i < self.peers.len()
            invariant
                0 <= i <= self.peers@.len(),
                forall|j: int| 0 <= j < i ==> self.peers()[j].0 != name@,
            decreases self.peers@.len() - i,
        {
            if self.peers[i].0 == *name {
                return Some(i);
            }
            i = i + 1;
        }
        None
    }

    /// Take in a ping of `peer` that reports `recvs` packets received since
    /// its previous one. A new peer is recorded; for a known one the rate is
    /// adjusted to the ratio of `recvs` to the packets sent meanwhile. Either
    /// way the peer's counter starts again from zero.
    pub fn on_ping(&mut self, peer: &String, recvs: u64)
        requires
            old(self).wf(),
        ensures
            final(self).wf(),
            final(self).min_rate() == old(self).min_rate(),
            final(self).max_rate() == old(self).max_rate(),
            final(self).window_start() == old(self).window_start(),
            final(self).in_window() == old(self).in_window(),
            (forall|j: int| 0 <= j < old(self).peers().len() ==> old(self).peers()[j].0 != peer@)
                ==> {
                &&& final(self).peers() == old(self).peers().push((peer@, 0u64))
                &&& final(self).rate() == old(self).rate()
            },
            forall|i: int|
                #![trigger old(self).peers()[i]]
                first_pos(old(self).peers(), peer@, i) ==> {
                    &&& final(self).peers() == old(self).peers().update(i, (peer@, 0u64))
                    &&& final(self).rate() == adjusted_rate(
                        old(self).rate(),
                        old(self).min_rate(),
                        old(self).max_rate(),
                        recvs as nat,
                        old(self).peers()[i].1 as nat,
                    )
                },
    {
        match self.find_peer(peer) {
            None => {
                self.peers.push((peer.clone(), 0));
                assert(self.peers() =~= old(self).peers().push((peer@, 0u64)));
            },
            Some(i) => {
                let sent = self.peers[i].1;
                let r = self.rate;
                let new_rate: usize = if (recvs as u128) * 2 < sent as u128 {
                    let lowered = ((r as u128) * 9 / 10) as usize;
                    if lowered < self.min {
                        self.min
                    } else {
                        lowered
                    }
                } else {
                    if r >= self.max || self.max - r <= RATE_STEP {
                        self.max
                    } else {
                        r + RATE_STEP
                    }
                };
                self.rate = new_rate;
                self.peers.set(i, (peer.clone(), 0));
                assert(self.peers() =~= old(self).peers().update(i as int, (peer@, 0u64)));
                assert forall|k: int| #![trigger old(self).peers()[k]] first_pos(old(self).peers(), peer@, k) implies k == i by {
                    if k < i {
                        assert(old(self).peers()[k].0 != peer@);
                    }
                    if i < k {
                        assert(old(self).peers()[i as int].0 != peer@);
                    }
                }
            },
        }
    }

    /// Account for one packet on the rate-limited lane at time `now_us`.
    /// Returns how long, in microseconds, the caller waits before sending it:
    /// zero while the window has room, else until the window ends, when the
    /// packet opens the next window. Every peer's counter grows by one, and
    /// peers silent for too long are dropped.
    pub fn on_packet(&mut self, now_us: u64) -> (wait_us: u64)
        requires
            old(self).wf(),
        ensures
            final(self).wf(),
            final(self).min_rate() == old(self).min_rate(),
            final(self).max_rate() == old(self).max_rate(),
            final(self).rate() == old(self).rate(),
            final(self).peers() == bumped(old(self).peers(), old(self).rate()),
            now_us > window_end(old(self).window_start()) ==> {
                &&& wait_us == 0
                &&& final(self).window_start() == now_us
                &&& final(self).in_window() == 1
            },
            now_us <= window_end(old(self).window_start()) && old(self).in_window() >= old(
                self,
            ).rate() ==> {
                &&& wait_us == window_end(old(self).window_start()) - now_us
                &&& final(self).window_start() == window_end(old(self).window_start())
                &&& final(self).in_window() == 1
            },
            now_us <= window_end(old(self).window_start()) && old(self).in_window() < old(
                self,
            ).rate() ==> {
                &&& wait_us == 0
                &&& final(self).window_start() == old(self).window_start()
                &&& final(self).in_window() == old(self).in_window() + 1
            },
    {
        let end: u64 = if self.window_start > u64::MAX - WINDOW_US {
            u64::MAX
        } else {
            self.window_start + WINDOW_US
        };
        let wait: u64 = if now_us > end {
            self.window_start = now_us;
            self.in_window = 1;
            0
        } else if self.in_window >= self.rate {
            self.window_start = end;
            self.in_window = 1;
            end - now_us
        } else {
            self.in_window = self.in_window + 1;
            0
        };
        self.bump_peers();
        wait
    }

    fn bump_peers(&mut self)
        ensures
            final(self).min == old(self).min,
            final(self).max == old(self).max,
            final(self).rate == old(self).rate,
            final(self).window_start == old(self).window_start,
            final(self).in_window == old(self).in_window,
            final(self).peers() == bumped(old(self).peers(), old(self).rate as nat),
    {
        let threshold: u128 = (self.rate as u128) * EVICT_AFTER_SECS;
        let mut kept: Vec<(String, u64)> = Vec::new();
        let mut i: usize = 0;
        let ghost old_peers = self.peers();
        while i < self.peers.len()
            invariant
                0 <= i <= self.peers@.len(),
                old_peers == self.peers(),
                threshold == self.rate as nat * EVICT_AFTER_SECS,
                Seq::new(kept@.len(), |k: int| (kept@[k].0@, kept@[k].1)) == bumped(
                    old_peers.subrange(0, i as int),
                    self.rate as nat,
                ),
            decreases self.peers@.len() - i,
        {
            let count = self.peers[i].1;
            let c: u64 = if count < u64::MAX {
                count + 1
            } else {
                count
            };
            let ghost before = Seq::new(kept@.len(), |k: int| (kept@[k].0@, kept@[k].1));
            assert(old_peers.subrange(0, i + 1).drop_last() =~= old_peers.subrange(0, i as int));
            if c as u128 <= threshold {
                kept.push((self.peers[i].0.clone(), c));
                assert(Seq::new(kept@.len(), |k: int| (kept@[k].0@, kept@[k].1)) =~= before.push(
                    (old_peers[i as int].0, c),
                ));
            }
            i = i + 1;
        }
        assert(old_peers.subrange(0, i as int) =~= old_peers);
        self.peers = kept;
    }
}

} // verus!
