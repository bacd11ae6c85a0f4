//! Peers: who they are, how they are reached and what they exchange.
pub mod events;
pub mod messaging;
pub mod network;
pub mod node;
