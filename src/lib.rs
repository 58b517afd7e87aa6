//! A line-oriented chat relay: a decoder for client lines, a registry of
//! connected clients, and the per-session decisions that turn decoded
//! commands and relayed messages into replies and deliveries.

pub mod protocol;
pub mod registry;
pub mod session;
