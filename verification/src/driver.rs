//! A driver that speaks the DoQ transport in the server role, and the handle
//! through which its consumer controls it.
//!
//! All per-stream framing, reassembly, and the protocol-error matrix live in
//! [`Connection`]; the driver only pumps events out to the paired
//! [`DoqController`] and drains per-query
//! [`DoqResponder`](crate::responder::DoqResponder) channels back into the
//! connection.

use std::collections::HashMap;

use futures_util::stream::FuturesUnordered;
use tokio::sync::mpsc;
use vstd::prelude::*;

use crate::connection::{Connection, Error, Event, PROTOCOL_ERROR_REASON};
use crate::driver_model::{commanded, DriverView, QueryView, ReadyView, Step, WakeupView};
use crate::laws::attending::{
    held_by, reading_forgets_no_query, waking_up_forgets_no_query, writing_rounds_forget_no_query,
};
use crate::laws::driving::{
    answering_keeps_consistency, brought_in_hand, cancelling_keeps_consistency,
    flushing_keeps_consistency, reading_keeps_consistency, waking_up_keeps_consistency,
    writing_rounds_keep_consistency,
};
use crate::laws::progress::polling_comes_to_an_end;
use crate::laws::stopping::{closed_for_consumer, stopped_query_is_closed};
use crate::laws::validity::polling_keeps_validity;
use crate::model::{protocol_error_reason, ConnectionView};
use crate::outside::{
    bytes_as_slice, bytes_from_vec, close_futures, closing_futures, command_channel,
    command_source, event_capacity, event_channel, event_source, found_no_command, found_nothing,
    new_command_channel, new_event_channel, new_responder_channel, next_ready, no_futures,
    offer_outcomes, offered_events, push_future, received_messages, receiver_channel,
    receiver_closed, resolved_futures, send_command, sent_commands, taken_commands,
    try_receive_command, try_send_event, waiting_futures, Offer,
};
use crate::responder::{
    DoqCommand, DoqCommandView, DoqEvent, DoqEventView, DoqResponder, ResponderMessage,
    ResponderMessageView,
};
use crate::transport::{Transport, TransportError};
use crate::waiting::{inbox, ResponderReady, WaitForResponder};
use crate::wire::DoqError;

verus! {

broadcast use vstd::std_specs::hash::group_hash_axioms;

/// How many messages a query's channel holds: 16 * 64KB = 1MB of max buffered
/// response data.
pub const RESPONDER_CAPACITY: usize = 16;

/// How many messages the channel of a query holds: at least 1, and no more than
/// a channel can.
#[derive(Debug, Clone, Copy, PartialEq, Eq)]
pub struct ResponderCapacity {
    messages: usize,
}

impl View for ResponderCapacity {
    type V = nat;

    closed spec fn view(&self) -> nat {
        self.messages as nat
    }
}

impl ResponderCapacity {
    #[verifier::type_invariant]
    spec fn within_bounds(self) -> bool {
        0 < self.messages <= usize::MAX / 8
    }

    /// Room for that many messages, if a channel can have it.
    pub fn new(messages: usize) -> (r: Option<Self>)
        ensures
            match r {
                Some(capacity) => capacity@ == messages && 0 < messages <= usize::MAX / 8,
                None => messages == 0 || messages > usize::MAX / 8,
            },
    {
        if 0 < messages && messages <= usize::MAX / 8 {
            Some(ResponderCapacity { messages })
        } else {
            None
        }
    }

    /// The usual room, for [`RESPONDER_CAPACITY`] messages.
    pub fn usual() -> (r: Self)
        ensures
            r@ == RESPONDER_CAPACITY,
    {
        ResponderCapacity { messages: RESPONDER_CAPACITY }
    }

    /// The number of messages.
    pub fn get(self) -> (messages: usize)
        ensures
            messages == self@,
            0 < messages <= usize::MAX / 8,
    {
        proof {
            use_type_invariant(self);
        }
        self.messages
    }
}

/// Extra room in the event channel for [`DoqEvent::HandshakeConfirmed`], which
/// can be pending in the channel at the same time as a full burst of
/// [`DoqEvent::Query`] events. See [`DoqServerDriver::new`] for the rest of the
/// sizing rationale.
pub const EVENT_CAPACITY_MARGIN: u64 = 1;

/// An error that ends the connection of a driver.
#[derive(Debug, Clone, Copy, PartialEq, Eq)]
pub enum DriverError {
    /// The QUIC connection is not established yet.
    NotEstablished,
    /// The consumer does not take the events off its channel fast enough.
    EventChannelFull,
    /// An error of the DoQ connection.
    Doq(Error),
}

impl DriverError {
    /// The words that describe the error.
    pub open spec fn words(self) -> Seq<char> {
        match self {
            DriverError::NotEstablished =>
                "DoqServerDriver's transport connection has not been established yet"@,
            DriverError::EventChannelFull => "DoQ event channel is full; consumer too slow"@,
            DriverError::Doq(e) => e.words(),
        }
    }

    /// Describes the error in words.
    pub fn text(&self) -> (text: String)
        ensures
            text@ == self.words(),
    {
        match *self {
            DriverError::NotEstablished =>
                "DoqServerDriver's transport connection has not been established yet".to_owned(),
            DriverError::EventChannelFull =>
                "DoQ event channel is full; consumer too slow".to_owned(),
            DriverError::Doq(e) => e.text(),
        }
    }
}

/// Per-query tracking, keyed by stream id in [`DoqServerDriver::streams`]: the
/// sole source of truth for whether a query is still live.
#[derive(Debug)]
pub struct QueryState {
    /// `Some`: the receiver is parked here. It's not currently awaited by
    /// anything; it's looked up by stream id when its stream is reported
    /// writable.
    ///
    /// `None`: the receiver is checked out. Either it's inside a
    /// [`WaitForResponder`] living in [`DoqServerDriver::waiting`], awaiting
    /// the consumer's next message, or it's momentarily held on the stack
    /// while a write is in progress for it.
    pub rx: Option<mpsc::Receiver<ResponderMessage>>,
    /// Whether the response last written (or about to be written, once
    /// pulled) for this stream carries `fin = true`. Only meaningful while
    /// `rx` is `Some`, i.e. while parked until the connection's buffered
    /// remainder drains.
    pub pending_fin: bool,
}

impl View for QueryState {
    type V = QueryView;

    open spec fn view(&self) -> QueryView {
        QueryView {
            parked: match self.rx {
                Some(rx) => Some(inbox(rx)),
                None => None,
            },
            pending_fin: self.pending_fin,
        }
    }
}

/// The contents of a table of queries.
pub open spec fn query_views(m: Map<u64, QueryState>) -> Map<u64, QueryView> {
    m.map_values(|q: QueryState| q@)
}

/// A thin pump over [`Connection`], speaking the DoQ transport in the server
/// role.
#[derive(Debug)]
pub struct DoqServerDriver {
    /// The underlying DoQ transport connection. Initialized in
    /// [`DoqServerDriver::on_conn_established`].
    pub conn: Option<Connection>,
    /// Sends [`DoqEvent`]s to the paired [`DoqController`]. Bounded (see
    /// [`DoqServerDriver::new`]) so a stalled consumer can't pin unbounded
    /// memory.
    pub event_sender: mpsc::Sender<DoqEvent>,
    /// The bound of each query's responder channel.
    pub responder_capacity: ResponderCapacity,
    /// Receives [`DoqCommand`]s from the paired [`DoqController`].
    pub cmd_recv: mpsc::UnboundedReceiver<DoqCommand>,
    /// Sole source of truth for live query streams; see [`QueryState`].
    pub streams: HashMap<u64, QueryState>,
    /// Futures awaiting the next message on a query's responder channel. Only
    /// ever holds an entry for a stream whose `streams[id].rx` is currently
    /// `None` because it was checked out into this set.
    pub waiting: FuturesUnordered<WaitForResponder>,
    /// Set once [`DoqEvent::HandshakeConfirmed`] has been sent, on the first
    /// [`DoqServerDriver::process_writes`] call.
    pub handshake_confirmed: bool,
    /// Tracks whether the event receiver has been dropped, so that the
    /// connection is closed for it once.
    pub event_receiver_dropped: bool,
}

impl View for DoqServerDriver {
    type V = DriverView;

    open spec fn view(&self) -> DriverView {
        DriverView {
            conn: match self.conn {
                Some(c) => Some(c@),
                None => None,
            },
            event_channel: event_channel(self.event_sender),
            event_capacity: event_capacity(self.event_sender),
            offered: offered_events(self.event_sender),
            outcomes: offer_outcomes(self.event_sender),
            command_source: command_source(self.cmd_recv),
            commands: taken_commands(self.cmd_recv),
            responder_capacity: self.responder_capacity@,
            queries: query_views(self.streams@),
            waiting: waiting_futures(self.waiting),
            closing: closing_futures(self.waiting),
            resolved: resolved_futures(self.waiting),
            handshake_confirmed: self.handshake_confirmed,
            event_receiver_dropped: self.event_receiver_dropped,
        }
    }
}

/// The consumer-side handle paired with a [`DoqServerDriver`].
///
/// Receives [`DoqEvent`]s from the driver and sends connection-level
/// [`DoqCommand`]s to it. Per-query operations (sending responses, resetting a
/// transaction, observing peer cancellation) go through the
/// [`DoqResponder`](crate::responder::DoqResponder) attached to each
/// [`DoqEvent::Query`] instead.
#[derive(Debug)]
pub struct DoqController {
    /// Sends [`DoqCommand`]s to the paired [`DoqServerDriver`].
    pub cmd_sender: mpsc::UnboundedSender<DoqCommand>,
    /// Receives [`DoqEvent`]s from the paired [`DoqServerDriver`]. Can be
    /// extracted and used independently of the [`DoqController`].
    pub event_recv: Option<mpsc::Receiver<DoqEvent>>,
}

/// What ends a wait of a [`DoqServerDriver`].
#[derive(Debug)]
pub enum Wakeup {
    /// A consumer said something about its query, or will say nothing more.
    Ready(ResponderReady),
    /// The controller has sent a command.
    Command(DoqCommand),
    /// The consumer has dropped the event receiver.
    EventReceiverGone,
}

impl View for Wakeup {
    type V = WakeupView;

    open spec fn view(&self) -> WakeupView {
        match *self {
            Wakeup::Ready(ready) => WakeupView::Ready(ready@),
            Wakeup::Command(cmd) => WakeupView::Command(cmd@),
            Wakeup::EventReceiverGone => WakeupView::EventReceiverGone,
        }
    }
}

proof fn lemma_query_replaced(m: Map<u64, QueryState>, stream_id: u64, q: QueryState)
    ensures
        query_views(m.insert(stream_id, q)) == query_views(m).insert(stream_id, q@),
        query_views(m.remove(stream_id).insert(stream_id, q)) == query_views(m).insert(
            stream_id,
            q@,
        ),
        query_views(m.remove(stream_id)) == query_views(m).remove(stream_id),
{
    assert(query_views(m.insert(stream_id, q)) =~= query_views(m).insert(stream_id, q@));
    assert(query_views(m.remove(stream_id).insert(stream_id, q)) =~= query_views(m).insert(
        stream_id,
        q@,
    ));
    assert(query_views(m.remove(stream_id)) =~= query_views(m).remove(stream_id));
}

impl DoqServerDriver {
    /// Builds a new [`DoqServerDriver`] and its paired [`DoqController`].
    ///
    /// `initial_max_streams_bidi` must be the same value configured on the
    /// QUIC connection. It sizes the bounded [`DoqEvent`] channel: a
    /// [`DoqEvent::Query`] is emitted once per stream, exactly when that
    /// stream's query is fully received, and a stream-limit slot is only
    /// credited back once the stream is fully complete in both directions,
    /// i.e. once the driver has fully sent its response. So the number of
    /// streams that have produced a `Query` event but not yet finished
    /// responding can never exceed `initial_max_streams_bidi`, and sizing the
    /// channel to that (plus [`EVENT_CAPACITY_MARGIN`] for
    /// `HandshakeConfirmed`) means it only ever fills up because the consumer
    /// has stopped draining it, not because of a legitimate concurrent-query
    /// burst. RFC 9250, Section 5.5.1 recommends clients send all their queries
    /// concurrently.
    /// <https://datatracker.ietf.org/doc/html/rfc9250#section-5.5.1>
    pub fn new(initial_max_streams_bidi: u64) -> (r: (Self, DoqController))
        requires
            initial_max_streams_bidi < usize::MAX / 8,
        ensures
            r.0@ == (DriverView {
                conn: None,
                event_channel: event_channel(r.0.event_sender),
                event_capacity: (initial_max_streams_bidi + EVENT_CAPACITY_MARGIN) as nat,
                offered: Seq::empty(),
                outcomes: Seq::empty(),
                command_source: command_channel(r.1.cmd_sender),
                commands: Seq::empty(),
                responder_capacity: RESPONDER_CAPACITY as nat,
                queries: Map::empty(),
                waiting: vstd::multiset::Multiset::empty(),
                closing: vstd::multiset::Multiset::empty(),
                resolved: Seq::empty(),
                handshake_confirmed: false,
                event_receiver_dropped: false,
            }),
            r.0@.consistent(),
            r.0@.attended(),
            r.1.event_recv matches Some(rx) && event_source(rx) == r.0@.event_channel,
            sent_commands(r.1.cmd_sender) == Seq::<DoqCommandView>::empty(),
    {
        Self::with_responder_capacity(initial_max_streams_bidi, ResponderCapacity::usual())
    }

    /// Builds a new [`DoqServerDriver`] as [`new`](Self::new) does, with another
    /// bound for the channels of the queries. A bound of 1 makes every response
    /// wait for the one before it, which brings the paths of backpressure out.
    pub fn with_responder_capacity(
        initial_max_streams_bidi: u64,
        responder_capacity: ResponderCapacity,
    ) -> (r: (Self, DoqController))
        requires
            initial_max_streams_bidi < usize::MAX / 8,
        ensures
            r.0@ == (DriverView {
                conn: None,
                event_channel: event_channel(r.0.event_sender),
                event_capacity: (initial_max_streams_bidi + EVENT_CAPACITY_MARGIN) as nat,
                offered: Seq::empty(),
                outcomes: Seq::empty(),
                command_source: command_channel(r.1.cmd_sender),
                commands: Seq::empty(),
                responder_capacity: responder_capacity@,
                queries: Map::empty(),
                waiting: vstd::multiset::Multiset::empty(),
                closing: vstd::multiset::Multiset::empty(),
                resolved: Seq::empty(),
                handshake_confirmed: false,
                event_receiver_dropped: false,
            }),
            r.0@.consistent(),
            r.0@.attended(),
            r.1.event_recv matches Some(rx) && event_source(rx) == r.0@.event_channel,
            sent_commands(r.1.cmd_sender) == Seq::<DoqCommandView>::empty(),
    {
        let event_capacity: usize = initial_max_streams_bidi.saturating_add(
            EVENT_CAPACITY_MARGIN,
        ) as usize;
        let (event_sender, event_recv) = new_event_channel(event_capacity);
        let (cmd_sender, cmd_recv) = new_command_channel();
        let driver = DoqServerDriver {
            conn: None,
            event_sender,
            responder_capacity,
            cmd_recv,
            streams: HashMap::new(),
            waiting: no_futures(),
            handshake_confirmed: false,
            event_receiver_dropped: false,
        };
        assert(driver@.queries =~= Map::empty());
        (driver, DoqController { cmd_sender, event_recv: Some(event_recv) })
    }

    /// Returns the underlying transport connection.
    ///
    /// Returns an error if called before
    /// [`on_conn_established`](Self::on_conn_established).
    pub fn conn_mut(&mut self) -> (r: Result<&mut Connection, DriverError>)
        ensures
            match r {
                Ok(c) => {
                    &&& old(self).conn == Some(*c)
                    &&& *final(self) == (DoqServerDriver {
                        conn: Some(*final(c)),
                        ..*old(self)
                    })
                },
                Err(e) => {
                    &&& old(self).conn is None
                    &&& e == DriverError::NotEstablished
                    &&& *final(self) == *old(self)
                },
            },
    {
        match &mut self.conn {
            Some(c) => Ok(c),
            None => Err(DriverError::NotEstablished),
        }
    }

    /// Checks `rx` out into a fresh [`WaitForResponder`] in `self.waiting`, to
    /// await the consumer's next message on it.
    ///
    /// Ensures `stream_id` has a `streams` entry marked as checked out
    /// (`rx: None`), creating one if this is the query's first message.
    pub fn check_out_into_waiting(
        &mut self,
        stream_id: u64,
        rx: mpsc::Receiver<ResponderMessage>,
    )
        ensures
            final(self)@ == old(self)@.check_out(stream_id, inbox(rx)),
    {
        let state = QueryState { rx: None, pending_fin: false };
        proof {
            lemma_query_replaced(self.streams@, stream_id, state);
        }
        self.streams.insert(stream_id, state);
        push_future(&mut self.waiting, WaitForResponder::new(stream_id, rx));
    }

    /// Builds the event that brings a query to the consumer, and the receiving
    /// end of the channel that the consumer answers on.
    pub fn query_event(data: Vec<u8>, is_0rtt: bool, capacity: ResponderCapacity) -> (r: (
        DoqEvent,
        mpsc::Receiver<ResponderMessage>,
    ))
        ensures
            r.0@ == (DoqEventView::Query {
                data: data@,
                is_0rtt,
                channel: receiver_channel(r.1),
                capacity: capacity@,
            }),
            !receiver_closed(r.1),
            received_messages(r.1) == Seq::<ResponderMessageView>::empty(),
    {
        let (tx, rx) = new_responder_channel(capacity.get());
        let event = DoqEvent::Query {
            data: bytes_from_vec(data),
            is_0rtt,
            responder: DoqResponder::new(tx),
        };
        (event, rx)
    }

    /// Goes on after a query was offered to the consumer, `rx` being the
    /// receiving end of the channel that the consumer answers on.
    pub fn query_offered(
        &mut self,
        stream_id: u64,
        rx: mpsc::Receiver<ResponderMessage>,
        offer: Offer,
    ) -> (r: Result<(), DriverError>)
        ensures
            (final(self)@, r) == old(self)@.query_offered(stream_id, inbox(rx), offer),
    {
        match offer {
            Offer::Accepted => {
                self.check_out_into_waiting(stream_id, rx);
                Ok(())
            },
            // The consumer isn't draining events fast enough. Rather than grow
            // this channel without bound, fail the connection so a stalled
            // consumer can't pin unbounded memory.
            Offer::Full => Err(DriverError::EventChannelFull),
            // A dropped event receiver closes the connection elsewhere, in
            // `event_receiver_gone`; this is just the send that lost the race.
            Offer::Closed => Ok(()),
        }
    }

    /// Processes a single [`Event`] returned by [`Connection::poll`].
    pub fn process_read_event(&mut self, stream_id: u64, event: Event) -> (r: Result<
        (),
        DriverError,
    >)
        requires
            event is Query || event is Reset,
        ensures
            exists|channel: int, offer: Offer|
                #![trigger old(self)@.read_event(stream_id, event@, channel, offer)]
                (final(self)@, r) == old(self)@.read_event(stream_id, event@, channel, offer),
    {
        let ghost said = event@;
        match event {
            Event::Query { data, is_0rtt } => {
                let (query, rx) = Self::query_event(data, is_0rtt, self.responder_capacity);
                let offer = try_send_event(&mut self.event_sender, query);
                assert(self@ =~= old(self)@.and_offer(query@, offer));
                let r = self.query_offered(stream_id, rx, offer);
                assert((self@, r) == old(self)@.read_event(
                    stream_id,
                    said,
                    receiver_channel(rx),
                    offer,
                ));
                r
            },
            // Handle peer RESET_STREAM as required by RFC 9250, Section 4.3.1.
            // <https://datatracker.ietf.org/doc/html/rfc9250#section-4.3.1>
            //
            // Two cases:
            // 1. The client gave up before finishing the query. There never was
            //    a responder for this stream, so there's nothing to clean up.
            // 2. The client finished the query (so there is a responder), but
            //    then still sent RESET_STREAM. This is legal even after STREAM
            //    FIN.
            //
            // `cancel_responder` handles both.
            _ => {
                self.cancel_responder(stream_id);
                let r = Ok(());
                assert((self@, r) == old(self)@.read_event(stream_id, said, 0, Offer::Closed));
                r
            },
        }
    }

    /// Stops tracking `stream_id`'s query, if any, so the consumer learns that
    /// its responder is closed.
    ///
    /// Used for peer cancellation ([`Event::Reset`]) per RFC 9250, Section
    /// 4.3.1. A `StreamStopped` write error is handled in
    /// [`handle_write_error`](Self::handle_write_error) instead, since that
    /// path already owns the receiver.
    /// <https://datatracker.ietf.org/doc/html/rfc9250#section-4.3.1>
    pub fn cancel_responder(&mut self, stream_id: u64)
        ensures
            final(self)@ == old(self)@.cancel_responder(stream_id),
    {
        let parked = match self.streams.get(&stream_id) {
            None => {
                return;
            },
            Some(state) => state.rx.is_some(),
        };
        if parked {
            // Parked: the receiver is owned outright here. Removing (and
            // dropping) it closes the channel.
            proof {
                lemma_query_replaced(self.streams@, stream_id, self.streams@[stream_id]);
            }
            self.streams.remove(&stream_id);
            return;
        }
        // Checked out into `waiting`: the receiver isn't owned right now, so
        // the `streams` entry can't be removed without orphaning the in-flight
        // `WaitForResponder`. Close the channel instead. `responder_ready`
        // without a message removes the entry once any already-buffered message
        // drains and the channel reports closed.
        close_futures(&mut self.waiting, stream_id);
    }

    /// Resets `stream_id` with `error` per RFC 9250, Section 4.3.2, stopping
    /// the driver from sending any more of the response.
    /// <https://datatracker.ietf.org/doc/html/rfc9250#section-4.3.2>
    ///
    /// Two errors are treated as benign no-ops rather than fatal:
    /// `UnknownStream` is a stale race with the peer, and `InvalidStreamState`
    /// means the QUIC layer already collected the stream.
    pub fn reset_stream(&mut self, qconn: &mut Transport, stream_id: u64, error: DoqError) -> (r:
        Result<(), DriverError>)
        ensures
            (Step { driver: final(self)@, quic: final(qconn)@, result: r }) == old(
                self,
            )@.reset_stream(old(qconn)@, stream_id, error),
    {
        let reset = match self.conn_mut() {
            Ok(conn) => conn.reset_stream(qconn, stream_id, error.to_wire()),
            Err(e) => {
                return Err(e);
            },
        };
        match reset {
            Ok(()) => Ok(()),
            Err(Error::UnknownStream) => Ok(()),
            Err(Error::TransportError(TransportError::InvalidStreamState(_))) => Ok(()),
            Err(err) => Err(DriverError::Doq(err)),
        }
    }

    /// Handles the next message pulled from a query's
    /// [`DoqResponder`](crate::responder::DoqResponder) channel, or its
    /// closure.
    pub fn responder_ready(&mut self, qconn: &mut Transport, ready: ResponderReady) -> (r: Result<
        (),
        DriverError,
    >)
        requires
            old(self)@.can_answer(old(qconn)@, ready@),
        ensures
            (Step { driver: final(self)@, quic: final(qconn)@, result: r }) == old(
                self,
            )@.responder_ready(old(qconn)@, ready@),
    {
        let ResponderReady { stream_id, rx, message } = ready;
        proof {
            lemma_query_replaced(self.streams@, stream_id, self.streams@[stream_id]);
        }
        match message {
            // The consumer dropped its `DoqResponder` without a final message.
            // Drop the tracking too and abandon the transaction rather than
            // leaving the QUIC stream open indefinitely: it would never reach
            // FIN, so its stream credit would never be replenished.
            None => {
                self.streams.remove(&stream_id);
                self.reset_stream(qconn, stream_id, DoqError::InternalError)
            },
            Some(ResponderMessage::Response { data, fin }) => self.send_response(
                qconn,
                stream_id,
                rx,
                bytes_as_slice(&data),
                fin,
            ),
            Some(ResponderMessage::Reset { error }) => {
                self.streams.remove(&stream_id);
                self.reset_stream(qconn, stream_id, error)
            },
        }
    }

    /// Frames and writes one response message via
    /// [`Connection::send_response`], then routes the result to
    /// [`update_stream_state`](Self::update_stream_state) or
    /// [`handle_write_error`](Self::handle_write_error).
    pub fn send_response(
        &mut self,
        qconn: &mut Transport,
        stream_id: u64,
        rx: mpsc::Receiver<ResponderMessage>,
        data: &[u8],
        fin: bool,
    ) -> (r: Result<(), DriverError>)
        requires
            old(self)@.can_send(old(qconn)@, stream_id, data@, fin),
        ensures
            (Step { driver: final(self)@, quic: final(qconn)@, result: r }) == old(
                self,
            )@.send_response(old(qconn)@, stream_id, inbox(rx), data@, fin),
    {
        let sent = match self.conn_mut() {
            Ok(conn) => conn.send_response(qconn, stream_id, data, fin),
            Err(e) => {
                return Err(e);
            },
        };
        assert(self@ =~= old(self)@.with_conn(self.conn->0@));
        match sent {
            Ok(()) => self.update_stream_state(stream_id, rx, fin),
            Err(err) => self.handle_write_error(qconn, stream_id, err),
        }
    }

    /// Drains a stream's buffered response remainder via
    /// [`Connection::flush_response`], then routes the result the same way
    /// [`send_response`](Self::send_response) does.
    pub fn flush_stream(
        &mut self,
        qconn: &mut Transport,
        stream_id: u64,
        rx: mpsc::Receiver<ResponderMessage>,
        fin: bool,
    ) -> (r: Result<(), DriverError>)
        requires
            old(self)@.can_flush(old(qconn)@, stream_id),
        ensures
            (Step { driver: final(self)@, quic: final(qconn)@, result: r }) == old(
                self,
            )@.flush_stream(old(qconn)@, stream_id, inbox(rx), fin),
    {
        let flushed = match self.conn_mut() {
            Ok(conn) => conn.flush_response(qconn, stream_id),
            Err(e) => {
                return Err(e);
            },
        };
        assert(self@ =~= old(self)@.with_conn(self.conn->0@));
        match flushed {
            Ok(()) => self.update_stream_state(stream_id, rx, fin),
            Err(err) => self.handle_write_error(qconn, stream_id, err),
        }
    }

    /// After a successful write, decides whether to park the receiver until the
    /// buffered remainder drains, pull the next response, or stop tracking the
    /// stream entirely once `fin` is fully delivered.
    ///
    /// Where bytes wait, the `streams` entry for `stream_id` still exists here:
    /// nothing removes it while the receiver is checked out for processing.
    pub fn update_stream_state(
        &mut self,
        stream_id: u64,
        rx: mpsc::Receiver<ResponderMessage>,
        fin: bool,
    ) -> (r: Result<(), DriverError>)
        requires
            old(self)@.can_park(stream_id),
        ensures
            match old(self)@.conn {
                Some(_) => r == Ok::<(), DriverError>(()) && final(self)@ == old(self)@.written(
                    stream_id,
                    inbox(rx),
                    fin,
                ),
                None => r == Err::<(), _>(DriverError::NotEstablished) && final(self)@ == old(
                    self,
                )@,
            },
    {
        let pending = match self.conn_mut() {
            Ok(conn) => conn.response_pending(stream_id),
            Err(e) => {
                return Err(e);
            },
        };
        if pending {
            let state = QueryState { rx: Some(rx), pending_fin: fin };
            proof {
                lemma_query_replaced(self.streams@, stream_id, state);
            }
            self.streams.insert(stream_id, state);
        } else if fin {
            // The whole response, including FIN, was written. Dropping `rx`
            // closes the responder for the consumer.
            proof {
                lemma_query_replaced(self.streams@, stream_id, self.streams@[stream_id]);
            }
            self.streams.remove(&stream_id);
        } else {
            // Fully drained, but more responses may follow (zone transfer).
            // Keep polling this query's channel for the next one.
            self.check_out_into_waiting(stream_id, rx);
        }
        Ok(())
    }

    /// Handles an error from a write attempt on `stream_id`, whose receiver has
    /// been dropped.
    ///
    /// The arms but the last are per-stream: peer-triggered or benign local
    /// races, not treated as connection-fatal.
    pub fn handle_write_error(
        &mut self,
        qconn: &mut Transport,
        stream_id: u64,
        error: Error,
    ) -> (r: Result<(), DriverError>)
        ensures
            (Step { driver: final(self)@, quic: final(qconn)@, result: r }) == old(
                self,
            )@.write_failed(old(qconn)@, stream_id, error),
    {
        proof {
            lemma_query_replaced(self.streams@, stream_id, self.streams@[stream_id]);
        }
        match error {
            // A stale race: the stream already completed or was cancelled.
            Error::UnknownStream => {
                self.streams.remove(&stream_id);
                Ok(())
            },
            // Stop sending when requested by the peer.
            // See RFC 9250, Section 4.3.1.
            // <https://datatracker.ietf.org/doc/html/rfc9250#section-4.3.1>
            // Per-stream, not fatal.
            Error::TransportError(TransportError::StreamStopped(_)) => {
                self.streams.remove(&stream_id);
                Ok(())
            },
            // Benign local race: the QUIC layer already collected the stream.
            Error::TransportError(TransportError::InvalidStreamState(_)) => {
                self.streams.remove(&stream_id);
                Ok(())
            },
            // The message is too large to frame. Not peer-triggered: abandon
            // just this one transaction.
            Error::MessageTooLarge => {
                self.streams.remove(&stream_id);
                self.reset_stream(qconn, stream_id, DoqError::InternalError)
            },
            err => Err(DriverError::Doq(err)),
        }
    }

    /// Executes a [`DoqCommand`] received from the [`DoqController`].
    pub fn handle_command(&mut self, qconn: &mut Transport, cmd: DoqCommand) -> (r: Result<
        (),
        DriverError,
    >)
        ensures
            r == Ok::<(), DriverError>(()),
            *final(self) == *old(self),
            final(qconn)@ == commanded(old(qconn)@, cmd@),
    {
        match cmd {
            DoqCommand::CloseConnection { error, reason } => {
                let _ = qconn.close(true, error.to_wire(), reason.as_slice());
                Ok(())
            },
        }
    }

    /// Sets the driver up for the QUIC connection.
    pub fn on_conn_established(&mut self, qconn: &Transport) -> (r: Result<(), DriverError>)
        ensures
            r == Ok::<(), DriverError>(()),
            final(self)@ == old(self)@.with_conn(ConnectionView::new(qconn@.is_server)),
    {
        match Connection::with_transport(qconn) {
            Ok(conn) => {
                self.conn = Some(conn);
                Ok(())
            },
            Err(e) => Err(DriverError::Doq(e)),
        }
    }

    /// Returns whether the driver has a connection to act on.
    pub fn should_act(&self) -> (r: bool)
        ensures
            r <==> self@.conn is Some,
    {
        self.conn.is_some()
    }

    /// Polls the underlying [`Connection`] for events, translating each into
    /// the corresponding [`DoqEvent`] via
    /// [`process_read_event`](Self::process_read_event).
    pub fn process_reads(&mut self, qconn: &mut Transport) -> (r: Result<(), DriverError>)
        requires
            old(self)@.conn matches Some(c) ==> c.is_server && c.valid(),
        ensures
            exists|offers: Seq<(int, Offer)>|
                (#[trigger] old(self)@.process_reads(old(qconn)@, offers)) == (Step {
                    driver: final(self)@,
                    quic: final(qconn)@,
                    result: r,
                }),
            final(self)@.conn matches Some(c) ==> c.is_server && c.valid(),
            old(self)@.consistent() && old(self)@.settled(old(qconn)@)
                ==> final(self)@.consistent() && final(self)@.settled(final(qconn)@),
            old(self)@.attended() ==> final(self)@.attended(),
    {
        proof {
            let (d, q) = (self@, qconn@);
            assert forall|offers: Seq<(int, Offer)>| d.consistent() && d.settled(q) implies (
            #[trigger] d.process_reads(q, offers)).driver.consistent() && d.process_reads(
                q,
                offers,
            ).driver.settled(d.process_reads(q, offers).quic) by {
                reading_keeps_consistency(d, q, offers);
            }
            assert forall|offers: Seq<(int, Offer)>| d.attended() implies (
            #[trigger] d.process_reads(q, offers)).driver.attended() by {
                reading_forgets_no_query(d, q, offers);
            }
        }
        let ghost first = self@;
        let ghost first_quic = qconn@;
        let ghost mut used: Seq<(int, Offer)> = Seq::empty();
        assert forall|rest: Seq<(int, Offer)>|
            #[trigger] (used + rest) == rest by {
            assert(used + rest =~= rest);
        }
        loop
            invariant
                first == old(self)@,
                first_quic == old(qconn)@,
                forall|offers: Seq<(int, Offer)>|
                    first.consistent() && first.settled(first_quic) ==> (
                    #[trigger] first.process_reads(first_quic, offers)).driver.consistent()
                        && first.process_reads(first_quic, offers).driver.settled(
                        first.process_reads(first_quic, offers).quic,
                    ),
                forall|offers: Seq<(int, Offer)>|
                    first.attended() ==> (#[trigger] first.process_reads(
                        first_quic,
                        offers,
                    )).driver.attended(),
                self@.conn matches Some(c) ==> c.is_server && c.valid(),
                forall|rest: Seq<(int, Offer)>|
                    first.process_reads(first_quic, #[trigger] (used + rest))
                        == self@.process_reads(qconn@, rest),
            decreases
                    qconn@.readable.len(),
                    (match self@.conn {
                        Some(c) => c.pending.len(),
                        None => 0,
                    }),
        {
            let ghost before = self@;
            let ghost quic = qconn@;
            let ghost none = Seq::<(int, Offer)>::empty();
            assert(first.process_reads(first_quic, used + none) == before.process_reads(
                quic,
                none,
            ));
            let polled = match self.conn_mut() {
                Ok(conn) => conn.poll(qconn),
                Err(e) => {
                    return Err(e);
                },
            };
            let ghost o = before.conn->0.poll(quic);
            proof {
                polling_keeps_validity(before.conn->0, quic);
            }
            assert(self@ =~= before.with_conn(o.doq));
            match polled {
                Ok((stream_id, event)) => {
                    proof {
                        polling_comes_to_an_end(before.conn->0, quic);
                    }
                    let ghost said = event@;
                    let handled = self.process_read_event(stream_id, event);
                    let ghost (channel, offer) = choose|channel: int, offer: Offer|
                        #![trigger before.with_conn(o.doq).read_event(stream_id, said, channel, offer)]
                        (self@, handled) == before.with_conn(o.doq).read_event(
                            stream_id,
                            said,
                            channel,
                            offer,
                        );
                    proof {
                        let one = seq![(channel, offer)];
                        assert(one[0] == (channel, offer));
                        assert(used + one == used.push((channel, offer)));
                        assert(first.process_reads(first_quic, used + one)
                            == before.process_reads(quic, one));
                        assert forall|rest: Seq<(int, Offer)>|
                            handled is Ok implies first.process_reads(
                            first_quic,
                            #[trigger] (used.push((channel, offer)) + rest),
                        ) == self@.process_reads(qconn@, rest) by {
                            let more = one + rest;
                            assert(used.push((channel, offer)) + rest == used + more);
                            assert(more[0] == (channel, offer));
                            assert(more.drop_first() == rest);
                        }
                        used = used.push((channel, offer));
                    }
                    match handled {
                        Ok(()) => {},
                        Err(e) => {
                            return Err(e);
                        },
                    }
                },
                Err(Error::Done) => {
                    return Ok(());
                },
                // Close the connection for these violations.
                // See RFC 9250, Section 4.3.3.
                // <https://datatracker.ietf.org/doc/html/rfc9250#section-4.3.3>
                // Covers a unidirectional or server-initiated stream, a
                // truncated FIN, or a second query framed on the same stream.
                Err(Error::ProtocolError) => {
                    let _ = qconn.close(
                        true,
                        DoqError::ProtocolError.to_wire(),
                        PROTOCOL_ERROR_REASON.as_slice(),
                    );
                    assert(PROTOCOL_ERROR_REASON@ =~= protocol_error_reason());
                    return Ok(());
                },
                // Any other error is connection-fatal, per RFC 9000, Section
                // 11: transport-level errors are connection-scoped, and only
                // application-level errors can be isolated to one stream.
                Err(err) => {
                    return Err(DriverError::Doq(err));
                },
            }
        }
    }

    /// Emits [`DoqEvent::HandshakeConfirmed`] on the first call: call this only
    /// once the handshake is confirmed. Drains buffered response remainders on
    /// every stream reported writable, then optimistically pulls any responder
    /// messages that are already available.
    pub fn process_writes(&mut self, qconn: &mut Transport) -> (r: Result<(), DriverError>)
        requires
            old(self)@.consistent(),
        ensures
            exists|told: Offer, readies: Seq<ReadyView>|
                (#[trigger] old(self)@.process_writes(old(qconn)@, told, readies)) == (Step {
                    driver: final(self)@,
                    quic: final(qconn)@,
                    result: r,
                }) && old(self)@.answered_in_turn(old(qconn)@, told, readies) && (r is Ok
                    ==> found_nothing(final(self).waiting) || readies.len() == u64::MAX),
            final(self)@.consistent(),
            old(self)@.settled(old(qconn)@) && old(qconn)@.is_server ==> final(self)@.settled(
                final(qconn)@,
            ),
            old(self)@.attended() && r is Ok ==> final(self)@.attended(),
            r is Ok ==> forall|id: u64| #[trigger]
                old(qconn)@.is_stopped(id) && old(qconn)@.writable.contains(id)
                    ==> closed_for_consumer(final(self)@, id),
    {
        proof {
            let (d, q) = (self@, qconn@);
            assert forall|told: Offer, readies: Seq<ReadyView>|
                d.attended() && (#[trigger] d.process_writes(q, told, readies)).result
                    is Ok implies d.process_writes(q, told, readies).driver.attended() by {
                writing_rounds_forget_no_query(d, q, told, readies);
            }
            assert forall|told: Offer, readies: Seq<ReadyView>, id: u64|
                #![trigger d.process_writes(q, told, readies), q.is_stopped(id)]
                d.answered_in_turn(q, told, readies) && q.is_stopped(id) && q.writable.contains(id)
                    && d.process_writes(q, told, readies).result is Ok implies closed_for_consumer(
                d.process_writes(q, told, readies).driver,
                id,
            ) by {
                stopped_query_is_closed(d, q, told, readies, id);
            }
            assert forall|told: Offer, readies: Seq<ReadyView>|
                d.answered_in_turn(q, told, readies) && d.settled(q) && q.is_server implies (
            #[trigger] d.process_writes(q, told, readies)).driver.settled(
                d.process_writes(q, told, readies).quic,
            ) by {
                writing_rounds_keep_consistency(d, q, told, readies);
            }
        }
        let ghost mut told = Offer::Closed;
        if !self.handshake_confirmed {
            self.handshake_confirmed = true;
            let outcome = try_send_event(&mut self.event_sender, DoqEvent::HandshakeConfirmed);
            proof {
                told = outcome;
            }
        }
        assert(self@ =~= old(self)@.confirm_handshake(told));
        let ghost quic = qconn@;
        match self.flush_writable(qconn) {
            Ok(()) => {},
            Err(e) => {
                assert(old(self)@.process_writes(quic, told, Seq::empty()) == (Step {
                    driver: self@,
                    quic: qconn@,
                    result: Err(e),
                }));
                return Err(e);
            },
        }
        let ghost flushed = self@;
        let ghost flushed_quic = qconn@;
        let r = self.pull_ready(qconn);
        proof {
            let readies = choose|readies: Seq<ReadyView>|
                (#[trigger] flushed.process_ready(flushed_quic, readies)) == (Step {
                    driver: self@,
                    quic: qconn@,
                    result: r,
                }) && flushed.were_waiting(flushed_quic, readies) && (r is Ok
                    ==> found_nothing(self.waiting) || readies.len() == u64::MAX);
            assert(old(self)@.process_writes(quic, told, readies) == (Step {
                driver: self@,
                quic: qconn@,
                result: r,
            }));
        }
        r
    }

    /// Drains the buffered response remainders of every stream reported
    /// writable. A stream that the peer has stopped is reported too: its
    /// responder is closed, so that the consumer learns of it before it sends
    /// anything more (RFC 9250, Section 4.3.1).
    /// <https://datatracker.ietf.org/doc/html/rfc9250#section-4.3.1>
    pub fn flush_writable(&mut self, qconn: &mut Transport) -> (r: Result<(), DriverError>)
        requires
            old(self)@.consistent(),
        ensures
            (Step { driver: final(self)@, quic: final(qconn)@, result: r }) == old(
                self,
            )@.flush_writable(old(qconn)@),
            final(self)@.consistent(),
    {
        let ghost first = self@;
        let ghost first_quic = qconn@;
        loop
            invariant
                first == old(self)@,
                first_quic == old(qconn)@,
                self@.consistent(),
                first.flush_writable(first_quic) == self@.flush_writable(qconn@),
            decreases qconn@.writable.len(),
        {
            let ghost before = self@;
            let ghost quic = qconn@;
            let stream_id = match qconn.stream_writable_next() {
                Some(stream_id) => stream_id,
                None => {
                    return Ok(());
                },
            };
            if let Err(TransportError::StreamStopped(_)) = qconn.stream_capacity(stream_id) {
                proof {
                    cancelling_keeps_consistency(before, stream_id);
                }
                self.cancel_responder(stream_id);
                continue ;
            }
            let ghost table = self.streams@;
            let state = match self.streams.remove(&stream_id) {
                Some(state) => state,
                None => {
                    assert(self.streams@ =~= table);
                    continue ;
                },
            };
            let QueryState { rx, pending_fin } = state;
            let ghost taken = QueryState { rx: None, pending_fin };
            proof {
                lemma_query_replaced(table, stream_id, taken);
                assert(table.remove(stream_id).insert(stream_id, table[stream_id]) =~= table);
            }
            self.streams.insert(stream_id, QueryState { rx: None, pending_fin });
            let rx = match rx {
                Some(rx) => rx,
                None => {
                    assert(self.streams@ =~= table);
                    continue ;
                },
            };
            proof {
                flushing_keeps_consistency(before, qconn@, stream_id);
            }
            match self.flush_stream(qconn, stream_id, rx, pending_fin) {
                Ok(()) => {},
                Err(e) => {
                    return Err(e);
                },
            }
        }
    }

    /// Pulls the responder messages that are already available, and handles
    /// each. At most `u64::MAX` of them are pulled in one call.
    pub fn pull_ready(&mut self, qconn: &mut Transport) -> (r: Result<(), DriverError>)
        requires
            old(self)@.consistent(),
        ensures
            exists|readies: Seq<ReadyView>|
                (#[trigger] old(self)@.process_ready(old(qconn)@, readies)) == (Step {
                    driver: final(self)@,
                    quic: final(qconn)@,
                    result: r,
                }) && old(self)@.were_waiting(old(qconn)@, readies) && (r is Ok
                    ==> found_nothing(final(self).waiting) || readies.len() == u64::MAX),
            final(self)@.consistent(),
    {
        let ghost first = self@;
        let ghost first_quic = qconn@;
        let ghost none = Seq::<ReadyView>::empty();
        let ghost mut used: Seq<ReadyView> = none;
        assert forall|rest: Seq<ReadyView>| #[trigger] (used + rest) == rest by {
            assert(used + rest =~= rest);
        }
        let mut budget: u64 = u64::MAX;
        while budget > 0
            invariant
                first == old(self)@,
                first_quic == old(qconn)@,
                none == Seq::<ReadyView>::empty(),
                used.len() + budget == u64::MAX,
                self@.consistent(),
                forall|rest: Seq<ReadyView>|
                    first.process_ready(first_quic, #[trigger] (used + rest))
                        == self@.process_ready(qconn@, rest),
                forall|rest: Seq<ReadyView>|
                    self@.were_waiting(qconn@, rest) ==> first.were_waiting(
                        first_quic,
                        #[trigger] (used + rest),
                    ),
            decreases budget,
        {
            let ghost before = self@;
            let ghost quic = qconn@;
            let ready = match next_ready(&mut self.waiting) {
                Some(Some(ready)) => ready,
                _ => {
                    assert(self@ =~= before);
                    assert(first.process_ready(first_quic, used + none) == self@.process_ready(
                        qconn@,
                        none,
                    ));
                    return Ok(());
                },
            };
            let ghost said = ready@;
            proof {
                assert(self@ =~= before.take_back(said));
                answering_keeps_consistency(before, quic, said);
            }
            let handled = self.responder_ready(qconn, ready);
            proof {
                let one = seq![said];
                assert(one[0] == said);
                assert(used + one == used.push(said));
                assert(one.drop_first() == none);
                assert(first.process_ready(first_quic, used + one) == before.process_ready(
                    quic,
                    one,
                ));
                assert(before.were_waiting(quic, one)) by {
                    reveal_with_fuel(DriverView::were_waiting, 2);
                }
                assert forall|rest: Seq<ReadyView>| handled is Ok implies first.process_ready(
                    first_quic,
                    #[trigger] (used.push(said) + rest),
                ) == self@.process_ready(qconn@, rest) by {
                    let more = one + rest;
                    assert(used.push(said) + rest == used + more);
                    assert(more[0] == said);
                    assert(more.drop_first() == rest);
                }
                assert forall|rest: Seq<ReadyView>|
                    handled is Ok && self@.were_waiting(qconn@, rest) implies first.were_waiting(
                    first_quic,
                    #[trigger] (used.push(said) + rest),
                ) by {
                    let more = one + rest;
                    assert(used.push(said) + rest == used + more);
                    assert(more[0] == said);
                    assert(more.drop_first() == rest);
                    assert(before.were_waiting(quic, more));
                }
                used = used.push(said);
            }
            match handled {
                Ok(()) => {},
                Err(e) => {
                    return Err(e);
                },
            }
            budget = budget - 1;
        }
        assert(first.process_ready(first_quic, used + none) == self@.process_ready(qconn@, none));
        Ok(())
    }

    /// Tells the consumer that the connection has closed.
    pub fn on_conn_close(&mut self)
        ensures
            exists|told: Offer|
                final(self)@ == #[trigger] old(self)@.and_offer(
                    DoqEventView::ConnectionClosed,
                    told,
                ),
    {
        let told = try_send_event(&mut self.event_sender, DoqEvent::ConnectionClosed);
        assert(self@ =~= old(self)@.and_offer(DoqEventView::ConnectionClosed, told));
    }

    /// Closes the connection because the consumer has dropped the event
    /// receiver. This is done once; the connection has no idle tracking that
    /// would make a conditional close meaningful, so it is unconditional.
    pub fn event_receiver_gone(&mut self, qconn: &mut Transport)
        ensures
            (Step { driver: final(self)@, quic: final(qconn)@, result: Ok(()) })
                == old(self)@.event_receiver_gone(old(qconn)@),
    {
        if !self.event_receiver_dropped {
            self.event_receiver_dropped = true;
            let reason: Vec<u8> = Vec::new();
            let _ = qconn.close(true, DoqError::NoError.to_wire(), reason.as_slice());
        }
    }

    /// Goes on after a wait for the next responder message, connection-level
    /// command, or controller-drop signal.
    ///
    /// Makes sure the controller isn't starved: where the wait ended for
    /// something else, a command that has come as well is executed too.
    pub fn after_wait(&mut self, qconn: &mut Transport, wakeup: Wakeup) -> (r: Result<
        (),
        DriverError,
    >)
        requires
            wakeup matches Wakeup::Ready(ready) ==> old(self)@.can_answer(old(qconn)@, ready@),
        ensures
            exists|command: Option<DoqCommandView>|
                (#[trigger] old(self)@.after_wait(old(qconn)@, wakeup@, command)) == (Step {
                    driver: final(self)@,
                    quic: final(qconn)@,
                    result: r,
                }) && (r is Ok && command is None ==> found_no_command(final(self).cmd_recv)),
            old(self)@.consistent() && brought_in_hand(old(self)@, wakeup@)
                ==> final(self)@.consistent(),
            old(self)@.consistent() && brought_in_hand(old(self)@, wakeup@) && old(self)@.settled(
                old(qconn)@,
            ) && old(qconn)@.is_server ==> final(self)@.settled(final(qconn)@),
            old(self)@.attended_but(held_by(wakeup@)) && r is Ok ==> final(self)@.attended(),
    {
        proof {
            let (d, q) = (self@, qconn@);
            assert forall|command: Option<DoqCommandView>|
                d.consistent() && brought_in_hand(d, wakeup@) implies {
                let step = #[trigger] d.after_wait(q, wakeup@, command);
                &&& step.driver.consistent()
                &&& d.settled(q) && q.is_server ==> step.driver.settled(step.quic)
            } by {
                waking_up_keeps_consistency(d, q, wakeup@, command);
            }
            assert forall|command: Option<DoqCommandView>|
                d.attended_but(held_by(wakeup@)) && (#[trigger] d.after_wait(
                    q,
                    wakeup@,
                    command,
                )).result is Ok implies d.after_wait(q, wakeup@, command).driver.attended() by {
                waking_up_forgets_no_query(d, q, wakeup@, command);
            }
        }
        let ghost ended = wakeup@;
        let handled = match wakeup {
            Wakeup::Ready(ready) => self.responder_ready(qconn, ready),
            Wakeup::Command(cmd) => self.handle_command(qconn, cmd),
            Wakeup::EventReceiverGone => {
                self.event_receiver_gone(qconn);
                Ok(())
            },
        };
        assert((Step { driver: self@, quic: qconn@, result: handled }) == old(self)@.wake(
            old(qconn)@,
            ended,
        ));
        assert(old(self)@.after_wait(old(qconn)@, ended, None) == old(self)@.wake(
            old(qconn)@,
            ended,
        ));
        if handled.is_ok() {
            let ghost before = self@;
            if let Some(cmd) = try_receive_command(&mut self.cmd_recv) {
                assert(self@ =~= (DriverView {
                    commands: before.commands.push(cmd@),
                    ..before
                }));
                let _ = self.handle_command(qconn, cmd);
                assert(old(self)@.after_wait(old(qconn)@, ended, Some(cmd@)) == (Step {
                    driver: self@,
                    quic: qconn@,
                    result: handled,
                }));
            } else {
                assert(self@ =~= before);
            }
        }
        handled
    }
}

impl DoqController {
    /// Gets a mutable reference to the [`DoqEvent`] receiver for the paired
    /// [`DoqServerDriver`], or `None` if it has already been taken via
    /// [`take_event_receiver`](Self::take_event_receiver).
    pub fn event_receiver_mut(&mut self) -> (r: Option<&mut mpsc::Receiver<DoqEvent>>)
        ensures
            match r {
                Some(rx) => {
                    &&& old(self).event_recv == Some(*rx)
                    &&& *final(self) == (DoqController {
                        event_recv: Some(*final(rx)),
                        ..*old(self)
                    })
                },
                None => old(self).event_recv is None && *final(self) == *old(self),
            },
    {
        self.event_recv.as_mut()
    }

    /// Takes the [`DoqEvent`] receiver for the paired [`DoqServerDriver`], or
    /// `None` if it has already been taken.
    pub fn take_event_receiver(&mut self) -> (r: Option<mpsc::Receiver<DoqEvent>>)
        ensures
            r == old(self).event_recv,
            *final(self) == (DoqController { event_recv: None, ..*old(self) }),
    {
        self.event_recv.take()
    }

    /// Closes the whole connection. See [`DoqCommand::CloseConnection`].
    pub fn close_connection(&mut self, error: DoqError, reason: Vec<u8>)
        ensures
            sent_commands(final(self).cmd_sender) == sent_commands(old(self).cmd_sender).push(
                DoqCommandView::CloseConnection { error, reason: reason@ },
            ),
            command_channel(final(self).cmd_sender) == command_channel(old(self).cmd_sender),
            final(self).event_recv == old(self).event_recv,
    {
        let _ = send_command(
            &mut self.cmd_sender,
            DoqCommand::CloseConnection { error, reason },
        );
    }
}

} // verus!
