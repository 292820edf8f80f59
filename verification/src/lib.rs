//! A debugger stub for firmware targets: the protocol engine that sits between
//! a byte-oriented transport and a small target-capability interface.
//!
//! The crate performs no I/O. A driver owns the transport and the target; it
//! feeds received bytes and target results to a [`session::Session`] and carries
//! out what the session asks for in return.

pub mod breakpoints;
pub mod codec;
pub mod command;
pub mod hex;
pub mod laws;
pub mod packet;
pub mod reply;
pub mod session;
pub mod target;
pub mod transport;
