//! A rendezvous relay: a host behind NAT and a remote client both dial it, and
//! it joins them by a short code. From then on it is a byte pipe.
//!
//! The library decides; it does no I/O. A connection's first line is read
//! ([`line`]), and its peer is let in or refused ([`handshake`]). Events and
//! actions then lead the connection ([`rendezvous`]), and likewise the relay as
//! a whole ([`server`]). The live figures are kept in [`stats`].
pub mod account;
pub mod cli;
pub mod clock;
pub mod config;
pub mod handshake;
pub mod line;
pub mod panel;
pub mod rendezvous;
pub mod server;
pub mod settings;
pub mod stats;
pub mod table;
pub mod text;
pub mod update;
