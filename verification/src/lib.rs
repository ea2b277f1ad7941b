//! A degree-bounded peer-to-peer chat overlay: membership handshake, flood
//! broadcast with duplicate suppression, and the command codec of the chat room.

pub mod chance;
pub mod command;
pub mod dedup;
pub mod display;
pub mod flood;
pub mod identity;
pub mod json;
pub mod laws;
pub mod message;
pub mod model;
pub mod network;
pub mod node;
pub mod peers;
pub mod roster;
pub mod text;
pub mod wire;
