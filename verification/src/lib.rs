//! DNS over QUIC (DoQ, RFC 9250): message framing, the per-stream transport
//! protocol, and the server driver built on it.
//!
//! - [`wire`]: error codes and the 2-octet length prefix framing.
//! - [`transport`]: the part of a QUIC connection that DoQ reads and acts on.
//! - [`connection`]: the synchronous, IO-less transport protocol object.
//! - [`driver`], [`responder`] and [`waiting`]: the server driver, and what it
//!   and its consumer tell each other.
//! - [`model`] and [`driver_model`]: what the connection and the driver are and
//!   do, as mathematical values; [`laws`] says what follows.
//! - [`outside`]: what is taken for granted of other crates.

pub mod connection;
pub mod driver;
pub mod driver_model;
pub mod laws;
pub mod model;
pub mod outside;
pub mod responder;
pub mod text;
pub mod transport;
pub mod waiting;
pub mod wire;

pub use connection::{Connection, Error, Event};
pub use driver::{DoqController, DoqServerDriver, DriverError};
pub use responder::{DoqCommand, DoqEvent, DoqResponder, StreamClosed};
pub use transport::{Transport, TransportError};
pub use wire::{
    is_replayable_opcode, read_dns_message, write_dns_message, DnsWireError, DoqError, DOQ_ALPN,
    DOQ_PORT, MAX_DOQ_MESSAGE_LEN,
};
