//! Wire protocol and reliability layer that link two game controllers to a
//! remote device over a lossy datagram transport.

pub mod bytes;
pub mod controller;
pub mod message;
pub mod datagram;
pub mod tracker;
pub mod reorder;
pub mod reorder_laws;
pub mod text;
pub mod log_messages;
pub mod sender;
pub mod receiver;
