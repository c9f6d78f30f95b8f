//! The client's side of liveness: counting received packets, sending pings
//! and giving up after too many unanswered ones.
use vstd::prelude::*;
use crate::messages::Message;

verus! {

/// The number of unanswered pings after which a client gives up.
pub const MISSED_PINGS_LIMIT: u32 = 10;

/// The answer to a ping: the count of packets it reports, and the pong
/// that echoes its nonce. Other messages get none.
pub fn ping_reply(msg: &Message) -> (r: Option<(u64, Message)>)
    ensures
        r == (match *msg {
            Message::Ping { nonce, recvs } => Some((recvs, Message::Pong { nonce })),
            _ => None,
        }),
{
    match msg {
        Message::Ping { nonce, recvs } => Some((*recvs, Message::Pong { nonce: *nonce })),
        _ => None,
    }
}

/// What the client does when its ping timer fires.
#[derive(Debug, Clone)]
pub enum PingStep {
    /// Send this ping to the server.
    Send(Message),
    /// Too many pings went unanswered: the session is over.
    GiveUp,
}

/// Pings sent and answered, and packets received since the last ping.
#[derive(Debug, Clone, Copy, PartialEq, Eq, Structural)]
pub struct PingTracker {
    /// Pings sent since the last pong.
    pub missed: u32,
    /// Pings that may go unanswered before the client gives up.
    pub threshold: u32,
    /// Packets received since the last ping.
    pub received: u64,
}

impl PingTracker {
    /// A tracker that gives up after more than `threshold` unanswered pings.
    pub fn new(threshold: u32) -> (r: Self)
        ensures
            r == (PingTracker { missed: 0, threshold, received: 0 }),
    {
        PingTracker { missed: 0, threshold, received: 0 }
    }

    /// Count one received packet.
    pub fn on_packet(&mut self)
        ensures
            final(self).missed == old(self).missed,
            final(self).threshold == old(self).threshold,
            final(self).received == if old(self).received < u64::MAX {
                old(self).received + 1
            } else {
                old(self).received as int
            },
    {
        if self.received < u64::MAX {
            self.received = self.received + 1;
        }
    }

    /// A pong arrived: no ping is outstanding any more.
    pub fn on_pong(&mut self)
        ensures
            *final(self) == (PingTracker { missed: 0, ..*old(self) }),
    {
        self.missed = 0;
    }

    /// The ping timer fired. One more ping is outstanding; past the threshold
    /// the client gives up, else it sends a ping with `nonce` that reports the
    /// packets received since the previous one, and counts afresh.
    pub fn on_tick(&mut self, nonce: u64) -> (r: PingStep)
        ensures
            old(self).missed >= old(self).threshold ==> r is GiveUp,
            old(self).missed < old(self).threshold ==> {
                &&& r == PingStep::Send(Message::Ping { nonce, recvs: old(self).received })
                &&& *final(self) == (PingTracker {
                    missed: (old(self).missed + 1) as u32,
                    threshold: old(self).threshold,
                    received: 0,
                })
            },
    {
        if self.missed >= self.threshold {
            return PingStep::GiveUp;
        }
        self.missed = self.missed + 1;
        let recvs = self.received;
        self.received = 0;
        PingStep::Send(Message::Ping { nonce, recvs })
    }
}

} // verus!
