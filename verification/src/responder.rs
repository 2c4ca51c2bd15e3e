//! What a server driver and its consumer tell each other.
//!
//! ```text
//!   client bidi stream -> DoqServerDriver --DoqEvent::Query{responder}--> app
//!                              ^                                           |
//!                              +-------------- DoqResponder ---------------+
//! ```
//!
//! Each [`DoqEvent::Query`] carries a dedicated [`DoqResponder`] bound to that
//! query's stream; the consumer replies through it and never handles a raw
//! stream id. DoQ maps exactly one query to a client-initiated bidirectional
//! stream (RFC 9250, Section 4.2), but a single query may receive one or more
//! responses (zone transfers, RFC 9250, Section 5.7).

use bytes::Bytes;
use tokio::sync::mpsc;
use vstd::prelude::*;

use crate::outside::{bytes_contents, responder_capacity, responder_channel};
use crate::wire::DoqError;

verus! {

/// A response action queued on a [`DoqResponder`] for its paired
/// [`DoqServerDriver`](crate::driver::DoqServerDriver) to apply to the query's
/// stream.
#[derive(Debug)]
pub enum ResponderMessage {
    /// Send one framed DNS response message; `fin` closes the stream after it.
    Response {
        /// The raw DNS response message (no length prefix).
        data: Bytes,
        /// Whether this is the last response for the transaction.
        fin: bool,
    },
    /// Abandon the transaction with `RESET_STREAM` carrying this DoQ error.
    Reset {
        /// The DoQ error code to signal.
        error: DoqError,
    },
}

/// What a [`ResponderMessage`] asks for.
pub enum ResponderMessageView {
    Response { data: Seq<u8>, fin: bool },
    Reset { error: DoqError },
}

impl View for ResponderMessage {
    type V = ResponderMessageView;

    open spec fn view(&self) -> ResponderMessageView {
        match *self {
            ResponderMessage::Response { data, fin } => ResponderMessageView::Response {
                data: bytes_contents(data),
                fin,
            },
            ResponderMessage::Reset { error } => ResponderMessageView::Reset { error },
        }
    }
}

/// Error of [`DoqResponder`] operations when the transaction is no longer
/// live.
///
/// The peer cancelled the stream (`STOP_SENDING` / `RESET_STREAM`) or the
/// connection closed, so the driver dropped the receiving end of the
/// responder's channel. This is a normal race, not a bug: the consumer should
/// stop working on the query.
#[derive(Debug, Clone, Copy, PartialEq, Eq)]
pub struct StreamClosed;

impl StreamClosed {
    /// The words that describe the error.
    pub open spec fn words(self) -> Seq<char> {
        "DoQ transaction stream is closed"@
    }

    /// Describes the error in words.
    pub fn text(&self) -> (text: String)
        ensures
            text@ == self.words(),
    {
        "DoQ transaction stream is closed".to_owned()
    }
}

/// The consumer's handle for answering a single [`DoqEvent::Query`].
///
/// A `DoqResponder` is created fresh per query and is structurally bound to
/// that query's stream, so a consumer cannot misdeliver a response to the
/// wrong stream. Responses flow to the
/// [`DoqServerDriver`](crate::driver::DoqServerDriver) over a bounded channel,
/// which provides automatic per-query backpressure.
#[derive(Debug)]
pub struct DoqResponder {
    /// The sending end of the query's channel.
    pub tx: mpsc::Sender<ResponderMessage>,
}

impl DoqResponder {
    /// Wraps the sending end of a per-query channel. The driver owns the
    /// paired receiver and chooses the channel's bound.
    pub fn new(tx: mpsc::Sender<ResponderMessage>) -> (r: Self)
        ensures
            r.tx == tx,
    {
        DoqResponder { tx }
    }

    /// Says what a message handed to the channel came to: a transaction that
    /// is no longer live has no receiver left, and the message is dropped.
    pub fn delivered(sent: Result<(), mpsc::error::SendError<ResponderMessage>>) -> (r: Result<
        (),
        StreamClosed,
    >)
        ensures
            r is Ok <==> sent is Ok,
    {
        match sent {
            Ok(()) => Ok(()),
            Err(_) => Err(StreamClosed),
        }
    }
}

/// An event emitted by a [`DoqServerDriver`](crate::driver::DoqServerDriver) to
/// its paired [`DoqController`](crate::driver::DoqController).
#[derive(Debug)]
#[non_exhaustive]
pub enum DoqEvent {
    /// A complete DNS query was received on a client-initiated bidirectional
    /// stream. The consumer answers through the attached `responder`, one or
    /// more times.
    Query {
        /// The raw DNS message bytes, with the 2-octet length prefix already
        /// stripped. Not parsed or validated: DNS content is the consumer's
        /// responsibility, not the transport's.
        data: Bytes,
        /// Whether the query was received in 0-RTT (early data).
        ///
        /// Per RFC 9250, Section 4.5, a non-replayable transaction received in
        /// 0-RTT MUST NOT be processed immediately. The driver does not parse
        /// opcodes itself; it surfaces this flag so the consumer can enforce
        /// the replay rules (see
        /// [`is_replayable_opcode`](crate::wire::is_replayable_opcode)).
        is_0rtt: bool,
        /// The per-query handle used to send the response(s); bound to this
        /// query's stream.
        responder: DoqResponder,
    },
    /// The QUIC handshake has been confirmed (the connection is no longer only
    /// in early data).
    ///
    /// Per RFC 9250, Section 4.5, a consumer that deferred non-replayable
    /// 0-RTT queries (rather than rejecting them outright) can use this event
    /// as the signal to process its queue.
    HandshakeConfirmed,
    /// The QUIC connection has closed. No further events will be emitted and
    /// commands sent after this are ignored.
    ConnectionClosed,
}

/// What a [`DoqEvent`] says. Of a responder it says to which channel its
/// messages go, and how many that channel holds.
pub enum DoqEventView {
    Query { data: Seq<u8>, is_0rtt: bool, channel: int, capacity: nat },
    HandshakeConfirmed,
    ConnectionClosed,
}

impl View for DoqEvent {
    type V = DoqEventView;

    open spec fn view(&self) -> DoqEventView {
        match *self {
            DoqEvent::Query { data, is_0rtt, responder } => DoqEventView::Query {
                data: bytes_contents(data),
                is_0rtt,
                channel: responder_channel(responder.tx),
                capacity: responder_capacity(responder.tx),
            },
            DoqEvent::HandshakeConfirmed => DoqEventView::HandshakeConfirmed,
            DoqEvent::ConnectionClosed => DoqEventView::ConnectionClosed,
        }
    }
}

/// A command sent from a [`DoqController`](crate::driver::DoqController) to its
/// paired [`DoqServerDriver`](crate::driver::DoqServerDriver).
///
/// Per-query operations (sending responses, resetting a single transaction,
/// observing peer cancellation) are **not** here; they live on the per-query
/// [`DoqResponder`]. `DoqCommand` carries connection-level operations only.
#[derive(Debug)]
#[non_exhaustive]
pub enum DoqCommand {
    /// Close the whole connection with a DoQ error code and reason.
    ///
    /// Used for fatal protocol violations (RFC 9250, Section 4.3.3) and for
    /// normal shutdown ([`DoqError::NoError`]).
    CloseConnection {
        /// The DoQ error code (wire-encoded via [`DoqError::to_wire`]).
        error: DoqError,
        /// A human-readable reason phrase sent in the `CONNECTION_CLOSE` frame.
        reason: Vec<u8>,
    },
}

/// What a [`DoqCommand`] asks for.
pub enum DoqCommandView {
    CloseConnection { error: DoqError, reason: Seq<u8> },
}

impl View for DoqCommand {
    type V = DoqCommandView;

    open spec fn view(&self) -> DoqCommandView {
        match *self {
            DoqCommand::CloseConnection { error, reason } => DoqCommandView::CloseConnection {
                error,
                reason: reason@,
            },
        }
    }
}

} // verus!
