//! A peer-to-peer message board: each peer keeps a log of messages, marks
//! some of them public, and answers listing requests from other peers over a
//! shared gossip topic with its public messages.

pub mod message;
pub mod store;
pub mod protocol;
pub mod json;
pub mod codec;
pub mod event_loop;
pub mod command;
