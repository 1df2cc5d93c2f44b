//! An interactive client core for line-oriented query/response text protocols
//! (the SCPI instrument-control family).
//!
//! The library verifies the engine of such a client: deciding which commands
//! expect a reply, normalizing a command line for the wire, exchanging a
//! command against a connection for an optional single-line response,
//! watching the connection for a silent peer disconnect, and driving the
//! session state machine. The connection itself is modelled as a pair of
//! text streams; the surrounding program supplies the real socket, the
//! prompt and the terminal.

pub mod classify;
pub mod exchange;
pub mod monitor;
pub mod session;
pub mod transport;
