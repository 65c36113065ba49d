//! The application blockchain interface: messages, transports and clients.
pub mod client;
pub mod error;
pub mod genesis;
pub mod messages;
pub mod requests;
pub mod select;
pub mod socket;
pub mod transport;
