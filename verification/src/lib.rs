//! Mail between the machines of a household: what a node keeps, what it
//! decides, and what it says to its owner and to its peers.

pub mod discovery;
pub mod encoding;
pub mod freshness;
pub mod ids;
pub mod local;
pub mod message;
pub mod openapi;
pub mod outbox;
pub mod peer;
pub mod peerbook;
pub mod presence;
pub mod problem;
pub mod promises;
pub mod service;
pub mod sorting;
pub mod store;
pub mod table;
pub mod text;
pub mod time;
pub mod web;
