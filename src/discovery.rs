//! Finding a server and joining it.
use vstd::prelude::*;
use crate::messages::{JoinReason, Message};

verus! {

/// A UDP endpoint: an IPv6 address (IPv4 ones mapped) and a port.
#[derive(Debug, Clone, Copy, PartialEq, Eq, Structural)]
pub struct Endpoint {
    pub ip: u128,
    pub port: u16,
}

/// What the client does after a message arrived during discovery.
#[derive(Debug, Clone, Copy, PartialEq, Eq, Structural)]
pub enum DiscoveryStep {
    /// Keep waiting.
    Wait,
    /// Send a `JoinQuery` to this endpoint.
    SendJoinQuery(Endpoint),
    /// The server at this endpoint accepted the client.
    Joined(Endpoint),
}

/// Discovery of a server: waiting for an announcement, then for the
/// answer to the join query sent to the announcer.
#[derive(Debug, Clone, Copy, PartialEq, Eq, Structural)]
pub struct Discovery {
    /// Where the join query went, while its answer is awaited.
    pub expecting: Option<Endpoint>,
}

/// Whether a message from a peer called `name` concerns a client that looks
/// for the server called `wanted`, if any.
pub open spec fn name_matches(name: Seq<char>, wanted: Option<Seq<char>>) -> bool {
    match wanted {
        Some(w) => name == w,
        None => true,
    }
}

impl Discovery {
    /// Discovery that waits for an announcement.
    pub fn new() -> (r: Self)
        ensures
            r.expecting is None,
    {
        Discovery { expecting: None }
    }

    /// Take in `msg`, received from address `from_ip` and sent by the peer
    /// called `from_name`. Messages of peers other than `server_name` (when
    /// given) are ignored. The first announcement answered is followed by a
    /// join query to the announcer at its announced port; an acceptance from
    /// that address ends discovery, any other answer starts it over.
    pub fn on_message(
        &mut self,
        from_ip: u128,
        from_name: &String,
        msg: &Message,
        server_name: Option<&String>,
    ) -> (r: DiscoveryStep)
        ensures
            !name_matches(
                from_name@,
                match server_name {
                    Some(s) => Some(s@),
                    None => None,
                },
            ) ==> r == DiscoveryStep::Wait && *final(self) == *old(self),
            name_matches(
                from_name@,
                match server_name {
                    Some(s) => Some(s@),
                    None => None,
                },
            ) ==> match (*msg, old(self).expecting) {
                (Message::Announce { port }, None) => {
                    let e = Endpoint { ip: from_ip, port };
                    r == DiscoveryStep::SendJoinQuery(e) && final(self).expecting == Some(e)
                },
                (Message::JoinResponse(reason), Some(e)) => if e.ip == from_ip {
                    if reason == JoinReason::Accepted {
                        r == DiscoveryStep::Joined(e) && *final(self) == *old(self)
                    } else {
                        r == DiscoveryStep::Wait && final(self).expecting is None
                    }
                } else {
                    r == DiscoveryStep::Wait && *final(self) == *old(self)
                },
                _ => r == DiscoveryStep::Wait && *final(self) == *old(self),
            },
    {
        let wanted = match server_name {
            Some(s) => *from_name == *s,
            None => true,
        };
        if !wanted {
            return DiscoveryStep::Wait;
        }
        match msg {
            Message::Announce { port } => {
                match self.expecting {
                    None => {
                        let e = Endpoint { ip: from_ip, port: *port };
                        self.expecting = Some(e);
                        DiscoveryStep::SendJoinQuery(e)
                    },
                    Some(_) => DiscoveryStep::Wait,
                }
            },
            Message::JoinResponse(reason) => {
                match self.expecting {
                    Some(e) => {
                        if e.ip == from_ip {
                            match reason {
                                JoinReason::Accepted => DiscoveryStep::Joined(e),
                                _ => {
                                    self.expecting = None;
                                    DiscoveryStep::Wait
                                },
                            }
                        } else {
                            DiscoveryStep::Wait
                        }
                    },
                    None => DiscoveryStep::Wait,
                }
            },
            _ => DiscoveryStep::Wait,
        }
    }
}

} // verus!
