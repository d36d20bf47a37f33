//! An IRC bouncer's core: the message codec, connection records and the
//! dispatcher that routes lines between upstream servers and local clients.
pub mod text;
pub mod message;
pub mod connection;
pub mod config;
pub mod client;
pub mod server;
pub mod bouncer;
