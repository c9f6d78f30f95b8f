//! A one-to-many file distribution protocol over UDP broadcast: packet
//! framing, the message schema, and the decision logic of the server's
//! transmission engine and of the client's reconstruction engine.
use vstd::prelude::*;

pub mod chunk_state;
pub mod discovery;
pub mod download;
pub mod hashlist;
pub mod listener;
pub mod listing;
pub mod liveness;
pub mod magic;
pub mod messages;
pub mod pipeline;
pub mod progress;
pub mod rate_limiter;
pub mod schedule;

