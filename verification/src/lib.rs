//! Core of the ZeroNet peer-to-peer wire protocol: peer addresses, wire
//! messages and the bookkeeping of a multiplexed request/response connection.

pub mod address;
pub mod async_connection;
pub mod base32;
pub mod digits;
pub mod error;
pub mod message;
pub mod net;
pub mod requestable;
pub mod search;
pub mod state;
pub mod state_laws;
pub mod text;
pub mod zero_connection;
