//! A decentralized, leaderful chat-room protocol.
//!
//! A set of processes ("peers") organize around a single elected admin that
//! sequences and fans out messages to the rest; on admin failure the remaining
//! peers deterministically elect a successor from an ordered membership list
//! (the hierarchy) and reconnect.
//!
//! This crate holds the protocol core: the data model ([`peer::Peer`],
//! [`hierarchy::Hierarchy`], [`room::Room`], [`message::Message`]), the wire
//! codec, and the role state machine ([`state::StateManager`]) with its
//! failover algorithm. The transport and the terminal front end are external
//! collaborators: they feed [`event::Event`]s in and perform the
//! [`event::Action`]s that come back out.

pub mod codec;
pub mod event;
pub mod hierarchy;
pub mod input;
pub mod laws;
pub mod message;
pub mod peer;
pub mod room;
pub mod room_name;
pub mod state;
