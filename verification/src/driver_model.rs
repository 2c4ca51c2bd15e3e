//! What a server driver holds and what each of its steps makes of it, as
//! mathematical values.
//!
//! What the consumer does at its ends of the channels is not the driver's to
//! decide. Where a step rests on it, the step takes it as an argument.

use vstd::multiset::Multiset;
use vstd::prelude::*;

use crate::connection::Error;
use crate::driver::DriverError;
use crate::laws::progress::polling_comes_to_an_end;
use crate::model::{protocol_error_reason, ConnectionView, EventView};
use crate::outside::{of_others, of_stream, Offer};
use crate::responder::{DoqCommandView, DoqEventView, ResponderMessageView};
use crate::transport::{TransportError, TransportView};
use crate::waiting::Inbox;
use crate::wire::{DoqError, MAX_DOQ_MESSAGE_LEN};

verus! {

/// What a [`QueryState`](crate::driver::QueryState) holds.
pub struct QueryView {
    pub parked: Option<Inbox>,
    pub pending_fin: bool,
}

/// What a [`DoqServerDriver`](crate::driver::DoqServerDriver) holds.
#[verifier::ext_equal]
pub struct DriverView {
    pub conn: Option<ConnectionView>,
    /// The channel of the events, its room, what was offered to it, and what
    /// came of each offer.
    pub event_channel: int,
    pub event_capacity: nat,
    pub offered: Seq<DoqEventView>,
    pub outcomes: Seq<Offer>,
    /// The channel of the commands, and those that were taken off it.
    pub command_source: int,
    pub commands: Seq<DoqCommandView>,
    /// How many messages the channel of a query holds.
    pub responder_capacity: nat,
    /// The queries that are not answered yet.
    pub queries: Map<u64, QueryView>,
    /// The streams, with the channels, for which the consumer is waited for,
    /// and those of them whose channel was closed.
    pub waiting: Multiset<(u64, int)>,
    pub closing: Multiset<(u64, int)>,
    /// What the waits that are over have ended with.
    pub resolved: Seq<ReadyView>,
    pub handshake_confirmed: bool,
    pub event_receiver_dropped: bool,
}

/// Both ends of a step: what the driver and the QUIC connection are
/// afterwards, and what is returned.
#[verifier::ext_equal]
pub struct Step {
    pub driver: DriverView,
    pub quic: TransportView,
    pub result: Result<(), DriverError>,
}

/// What has become of waiting for the consumer of a query: the stream, the
/// receiving end of its channel, and the message, or `None` where the channel
/// is closed and empty.
pub struct ReadyView {
    pub stream_id: u64,
    pub inbox: Inbox,
    pub message: Option<ResponderMessageView>,
}

impl DriverView {
    /// The same with the state of the DoQ connection replaced.
    pub open spec fn with_conn(self, conn: ConnectionView) -> Self {
        DriverView { conn: Some(conn), ..self }
    }

    /// The same with an event offered to the consumer, with that outcome.
    pub open spec fn and_offer(self, event: DoqEventView, outcome: Offer) -> Self {
        DriverView {
            offered: self.offered.push(event),
            outcomes: self.outcomes.push(outcome),
            ..self
        }
    }

    /// The same with one query no longer tracked.
    pub open spec fn without_query(self, stream_id: u64) -> Self {
        DriverView { queries: self.queries.remove(stream_id), ..self }
    }

    /// A query's receiver set to wait for the consumer.
    pub open spec fn check_out(self, stream_id: u64, inbox: Inbox) -> Self {
        let future = (stream_id, inbox.channel);
        DriverView {
            queries: self.queries.insert(
                stream_id,
                QueryView { parked: None, pending_fin: false },
            ),
            waiting: self.waiting.insert(future),
            closing: if inbox.closed {
                self.closing.insert(future)
            } else {
                self.closing
            },
            ..self
        }
    }

    /// A query's receiver taken back, because its wait is over.
    pub open spec fn take_back(self, ready: ReadyView) -> Self {
        let future = (ready.stream_id, ready.inbox.channel);
        DriverView {
            resolved: self.resolved.push(ready),
            waiting: self.waiting.remove(future),
            closing: if ready.inbox.closed {
                self.closing.remove(future)
            } else {
                self.closing
            },
            ..self
        }
    }

    /// A query that was offered to the consumer, with a new channel to answer
    /// on: accepted, it is waited for; refused for want of room, it ends the
    /// connection; where the consumer is gone, so is the query.
    pub open spec fn query_offered(self, stream_id: u64, inbox: Inbox, offer: Offer) -> (
        DriverView,
        Result<(), DriverError>,
    ) {
        match offer {
            Offer::Accepted => (self.check_out(stream_id, inbox), Ok(())),
            Offer::Full => (self, Err(DriverError::EventChannelFull)),
            Offer::Closed => (self, Ok(())),
        }
    }

    /// A query that the peer gave up: a parked receiver is dropped, and one
    /// that is waited on is closed.
    pub open spec fn cancel_responder(self, stream_id: u64) -> Self {
        if !self.queries.contains_key(stream_id) {
            self
        } else if self.queries[stream_id].parked is Some {
            self.without_query(stream_id)
        } else {
            DriverView {
                closing: self.closing.filter(of_others(stream_id)).add(
                    self.waiting.filter(of_stream(stream_id)),
                ),
                ..self
            }
        }
    }

    /// An event of a server's connection, with the channel and the outcome of
    /// the offer where it is a query.
    pub open spec fn read_event(
        self,
        stream_id: u64,
        event: EventView,
        channel: int,
        offer: Offer,
    ) -> (DriverView, Result<(), DriverError>) {
        match event {
            EventView::Query { data, is_0rtt } => self.and_offer(
                DoqEventView::Query { data, is_0rtt, channel, capacity: self.responder_capacity },
                offer,
            ).query_offered(stream_id, Inbox { channel, closed: false }, offer),
            _ => (self.cancel_responder(stream_id), Ok(())),
        }
    }

    /// All that the connection has to report, event by event, with the channel
    /// and the outcome of the offer for each of them.
    pub open spec fn process_reads(self, quic: TransportView, offers: Seq<(int, Offer)>) -> Step
        decreases
            quic.readable.len(),
            (match self.conn {
                Some(c) => c.pending.len(),
                None => 0,
            }),
        via Self::reading_comes_to_an_end
    {
        match self.conn {
            None => Step { driver: self, quic, result: Err(DriverError::NotEstablished) },
            Some(c) => {
                let o = c.poll(quic);
                let driver = self.with_conn(o.doq);
                match o.result {
                    Ok((stream_id, event)) => {
                        let (next, r) = driver.read_event(
                            stream_id,
                            event,
                            offers[0].0,
                            offers[0].1,
                        );
                        match r {
                            Ok(()) => next.process_reads(o.quic, offers.drop_first()),
                            Err(e) => Step { driver: next, quic: o.quic, result: Err(e) },
                        }
                    },
                    Err(Error::Done) => Step { driver, quic: o.quic, result: Ok(()) },
                    Err(Error::ProtocolError) => Step {
                        driver,
                        quic: o.quic.close(
                            true,
                            DoqError::ProtocolError.code(),
                            protocol_error_reason(),
                        ).0,
                        result: Ok(()),
                    },
                    Err(e) => Step { driver, quic: o.quic, result: Err(DriverError::Doq(e)) },
                }
            },
        }
    }

    #[via_fn]
    proof fn reading_comes_to_an_end(self, quic: TransportView, offers: Seq<(int, Offer)>) {
        if let Some(c) = self.conn {
            if c.poll(quic).result is Ok {
                polling_comes_to_an_end(c, quic);
            }
        }
    }

    /// A stream reset; that it is gone already is fine.
    pub open spec fn reset_stream(self, quic: TransportView, stream_id: u64, error: DoqError) -> Step {
        match self.conn {
            None => Step { driver: self, quic, result: Err(DriverError::NotEstablished) },
            Some(c) => {
                let o = c.reset_stream(quic, stream_id, error.code());
                Step {
                    driver: self.with_conn(o.doq),
                    quic: o.quic,
                    result: match o.result {
                        Ok(()) => Ok(()),
                        Err(Error::UnknownStream) => Ok(()),
                        Err(Error::TransportError(TransportError::InvalidStreamState(_))) => Ok(()),
                        Err(e) => Err(DriverError::Doq(e)),
                    },
                }
            },
        }
    }

    /// After a write: bytes that wait park the receiver; a final response that
    /// is all written ends the query; else the consumer is waited for.
    pub open spec fn written(self, stream_id: u64, inbox: Inbox, fin: bool) -> Self {
        if self.conn->0.has_unsent(stream_id) {
            DriverView {
                queries: self.queries.insert(
                    stream_id,
                    QueryView { parked: Some(inbox), pending_fin: fin },
                ),
                ..self
            }
        } else if fin {
            self.without_query(stream_id)
        } else {
            self.check_out(stream_id, inbox)
        }
    }

    /// After a write that failed: what concerns the one stream ends its query,
    /// anything else ends the connection. A message that is too large is not
    /// the peer's fault, and the stream is reset.
    pub open spec fn write_failed(self, quic: TransportView, stream_id: u64, error: Error) -> Step {
        match error {
            Error::UnknownStream => Step {
                driver: self.without_query(stream_id),
                quic,
                result: Ok(()),
            },
            Error::TransportError(TransportError::StreamStopped(_)) => Step {
                driver: self.without_query(stream_id),
                quic,
                result: Ok(()),
            },
            Error::TransportError(TransportError::InvalidStreamState(_)) => Step {
                driver: self.without_query(stream_id),
                quic,
                result: Ok(()),
            },
            Error::MessageTooLarge => self.without_query(stream_id).reset_stream(
                quic,
                stream_id,
                DoqError::InternalError,
            ),
            e => Step { driver: self, quic, result: Err(DriverError::Doq(e)) },
        }
    }

    /// Whether the query is tracked if bytes of its stream wait: its receiver
    /// can then be parked.
    pub open spec fn can_park(self, stream_id: u64) -> bool {
        self.conn matches Some(c) ==> c.has_unsent(stream_id) ==> self.queries.contains_key(
            stream_id,
        )
    }

    /// Whether the query is tracked if bytes of its stream wait behind a
    /// response.
    pub open spec fn can_send(
        self,
        quic: TransportView,
        stream_id: u64,
        data: Seq<u8>,
        fin: bool,
    ) -> bool {
        self.conn matches Some(c) ==> {
            let o = c.send_response(quic, stream_id, data, fin);
            o.result is Ok ==> self.with_conn(o.doq).can_park(stream_id)
        }
    }

    /// Whether the query is tracked if bytes of its stream wait behind a flush.
    pub open spec fn can_flush(self, quic: TransportView, stream_id: u64) -> bool {
        self.conn matches Some(c) ==> {
            let o = c.flush_response(quic, stream_id);
            o.result is Ok ==> self.with_conn(o.doq).can_park(stream_id)
        }
    }

    /// Whether the query is tracked if bytes of its stream wait behind what a
    /// consumer said.
    pub open spec fn can_answer(self, quic: TransportView, ready: ReadyView) -> bool {
        ready.message matches Some(ResponderMessageView::Response { data, fin })
            ==> self.can_send(quic, ready.stream_id, data, fin)
    }

    /// One response written.
    pub open spec fn send_response(
        self,
        quic: TransportView,
        stream_id: u64,
        inbox: Inbox,
        data: Seq<u8>,
        fin: bool,
    ) -> Step {
        match self.conn {
            None => Step { driver: self, quic, result: Err(DriverError::NotEstablished) },
            Some(c) => {
                let o = c.send_response(quic, stream_id, data, fin);
                let driver = self.with_conn(o.doq);
                match o.result {
                    Ok(()) => Step {
                        driver: driver.written(stream_id, inbox, fin),
                        quic: o.quic,
                        result: Ok(()),
                    },
                    Err(e) => driver.write_failed(o.quic, stream_id, e),
                }
            },
        }
    }

    /// What waits of a response written.
    pub open spec fn flush_stream(
        self,
        quic: TransportView,
        stream_id: u64,
        inbox: Inbox,
        fin: bool,
    ) -> Step {
        match self.conn {
            None => Step { driver: self, quic, result: Err(DriverError::NotEstablished) },
            Some(c) => {
                let o = c.flush_response(quic, stream_id);
                let driver = self.with_conn(o.doq);
                match o.result {
                    Ok(()) => Step {
                        driver: driver.written(stream_id, inbox, fin),
                        quic: o.quic,
                        result: Ok(()),
                    },
                    Err(e) => driver.write_failed(o.quic, stream_id, e),
                }
            },
        }
    }

    /// What the consumer said about a query, or that it will say nothing more,
    /// which abandons the query.
    pub open spec fn responder_ready(self, quic: TransportView, ready: ReadyView) -> Step {
        match ready.message {
            None => self.without_query(ready.stream_id).reset_stream(
                quic,
                ready.stream_id,
                DoqError::InternalError,
            ),
            Some(ResponderMessageView::Response { data, fin }) => self.send_response(
                quic,
                ready.stream_id,
                ready.inbox,
                data,
                fin,
            ),
            Some(ResponderMessageView::Reset { error }) => self.without_query(
                ready.stream_id,
            ).reset_stream(quic, ready.stream_id, error),
        }
    }

    /// The handshake confirmed: the consumer is told the first time, with that
    /// outcome.
    pub open spec fn confirm_handshake(self, told: Offer) -> Self {
        if self.handshake_confirmed {
            self
        } else {
            DriverView { handshake_confirmed: true, ..self }.and_offer(
                DoqEventView::HandshakeConfirmed,
                told,
            )
        }
    }

    /// The parked responses of all streams that have become writable written
    /// as far as they go, in that order of the streams. The responder of a
    /// stream that the peer has stopped is closed.
    pub open spec fn flush_writable(self, quic: TransportView) -> Step
        decreases quic.writable.len(),
        via Self::flushing_comes_to_an_end
    {
        if quic.writable.len() == 0 {
            Step { driver: self, quic, result: Ok(()) }
        } else {
            let stream_id = quic.writable[0];
            let rest = TransportView { writable: quic.writable.drop_first(), ..quic };
            if self.queries.contains_key(stream_id) && rest.is_stopped(stream_id) {
                self.cancel_responder(stream_id).flush_writable(rest)
            } else if self.queries.contains_key(stream_id)
                && self.queries[stream_id].parked is Some {
                let query = self.queries[stream_id];
                let taken = DriverView {
                    queries: self.queries.insert(stream_id, QueryView { parked: None, ..query }),
                    ..self
                };
                let step = taken.flush_stream(rest, stream_id, query.parked->0, query.pending_fin);
                if step.result is Err {
                    step
                } else {
                    step.driver.flush_writable(step.quic)
                }
            } else {
                self.flush_writable(rest)
            }
        }
    }

    #[via_fn]
    proof fn flushing_comes_to_an_end(self, quic: TransportView) {
    }

    /// What some consumers said, one after the other, up to the first error.
    pub open spec fn process_ready(self, quic: TransportView, readies: Seq<ReadyView>) -> Step
        decreases readies.len(),
    {
        if readies.len() == 0 {
            Step { driver: self, quic, result: Ok(()) }
        } else {
            let ready = readies[0];
            let step = self.take_back(ready).responder_ready(quic, ready);
            if step.result is Err {
                step
            } else {
                step.driver.process_ready(step.quic, readies.drop_first())
            }
        }
    }

    /// Whether a receiver is one of those that are waited on.
    pub open spec fn waits_for(self, stream_id: u64, inbox: Inbox) -> bool {
        let future = (stream_id, inbox.channel);
        &&& self.waiting.contains(future)
        &&& inbox.closed ==> self.closing.contains(future)
        &&& !inbox.closed ==> self.closing.count(future) < self.waiting.count(future)
    }

    /// Whether each of some waits was one of those going on when it ended, and
    /// none is left behind an error.
    pub open spec fn were_waiting(self, quic: TransportView, readies: Seq<ReadyView>) -> bool
        decreases readies.len(),
    {
        readies.len() > 0 ==> {
            let ready = readies[0];
            let step = self.take_back(ready).responder_ready(quic, ready);
            &&& self.waits_for(ready.stream_id, ready.inbox)
            &&& if step.result is Ok {
                step.driver.were_waiting(step.quic, readies.drop_first())
            } else {
                readies.len() == 1
            }
        }
    }

    /// A round of writing, with what came of telling the consumer that the
    /// handshake is confirmed, and what the consumers said in it.
    pub open spec fn process_writes(
        self,
        quic: TransportView,
        told: Offer,
        readies: Seq<ReadyView>,
    ) -> Step {
        let flushed = self.confirm_handshake(told).flush_writable(quic);
        if flushed.result is Err {
            flushed
        } else {
            flushed.driver.process_ready(flushed.quic, readies)
        }
    }

    /// Whether what the consumers said in a round of writing was waited for.
    pub open spec fn answered_in_turn(
        self,
        quic: TransportView,
        told: Offer,
        readies: Seq<ReadyView>,
    ) -> bool {
        let flushed = self.confirm_handshake(told).flush_writable(quic);
        if flushed.result is Err {
            readies.len() == 0
        } else {
            flushed.driver.were_waiting(flushed.quic, readies)
        }
    }
}

impl DriverView {
    /// Whether the QUIC layer agrees with the driver about the streams that
    /// the peer has ended: those whose end was noted, and those of the queries
    /// that are tracked. No other query can come on such a stream.
    pub open spec fn settled(self, quic: TransportView) -> bool {
        &&& self.conn matches Some(c) ==> c.ends_agree(quic)
        &&& forall|id: u64| #[trigger]
            self.queries.contains_key(id) ==> {
                &&& quic.recv_ended(id)
                &&& self.conn matches Some(c) ==> c.streams.contains_key(id)
                    ==> c.streams[id].event_triggered
            }
    }

    /// Whether what waits to be written is bounded: at most one framed message
    /// for each stream, and only for a query that was surfaced; and no consumer
    /// is waited for on account of a stream of which something waits.
    pub open spec fn bounded(self) -> bool {
        self.conn matches Some(c) ==> {
            &&& forall|id: u64| #[trigger]
                c.streams.contains_key(id) ==> {
                    &&& c.streams[id].send_buf.len() <= MAX_DOQ_MESSAGE_LEN
                    &&& c.streams[id].send_buf.len() > 0 ==> c.streams[id].event_triggered
                }
            &&& forall|id: u64, channel: int| #[trigger]
                self.waiting.contains((id, channel)) ==> !c.has_unsent(id)
        }
    }

    /// Whether the consumer of a stream's query is waited for.
    pub open spec fn is_waited_for(self, stream_id: u64) -> bool {
        exists|channel: int| #[trigger] self.waiting.contains((stream_id, channel))
    }

    /// Whether every query whose receiver is not parked is waited for, but for
    /// the one whose receiver is in the hands of a step, if any.
    pub open spec fn attended_but(self, held: Option<u64>) -> bool {
        forall|id: u64| #[trigger]
            self.queries.contains_key(id) && self.queries[id].parked is None && held != Some(id)
                ==> self.is_waited_for(id)
    }

    /// Whether every query is either parked or waited for: none is forgotten.
    pub open spec fn attended(self) -> bool {
        self.attended_but(None)
    }

    /// What holds of a driver between its steps: its connection is one of a
    /// server, and is valid; a stream is waited for at most once, and only
    /// while its query is tracked and its receiver not parked; and only
    /// channels that are waited on were closed.
    pub open spec fn consistent(self) -> bool {
        &&& self.conn matches Some(c) ==> c.is_server && c.valid()
        &&& forall|id: u64, channel: int| #[trigger]
            self.waiting.contains((id, channel)) ==> {
                &&& self.queries.contains_key(id)
                &&& self.queries[id].parked is None
                &&& self.waiting.count((id, channel)) == 1
            }
        &&& forall|id: u64, a: int, b: int|
            #![trigger self.waiting.contains((id, a)), self.waiting.contains((id, b))]
            self.waiting.contains((id, a)) && self.waiting.contains((id, b)) ==> a == b
        &&& forall|id: u64, channel: int| #[trigger]
            self.closing.count((id, channel)) <= self.waiting.count((id, channel))
    }
}

/// What ends a wait: a consumer that said something about its query, a command,
/// or that the consumer has dropped the event receiver.
pub enum WakeupView {
    Ready(ReadyView),
    Command(DoqCommandView),
    EventReceiverGone,
}

impl DriverView {
    /// The consumer has dropped the event receiver: the connection is closed
    /// for that, once.
    pub open spec fn event_receiver_gone(self, quic: TransportView) -> Step {
        Step {
            driver: DriverView { event_receiver_dropped: true, ..self },
            quic: if self.event_receiver_dropped {
                quic
            } else {
                quic.close(true, DoqError::NoError.code(), Seq::empty()).0
            },
            result: Ok(()),
        }
    }

    /// What ended a wait dealt with.
    pub open spec fn wake(self, quic: TransportView, wakeup: WakeupView) -> Step {
        match wakeup {
            WakeupView::Ready(ready) => self.responder_ready(quic, ready),
            WakeupView::Command(command) => Step {
                driver: self,
                quic: commanded(quic, command),
                result: Ok(()),
            },
            WakeupView::EventReceiverGone => self.event_receiver_gone(quic),
        }
    }

    /// What ended a wait dealt with, and behind it, unless that failed, a
    /// command that had come as well.
    pub open spec fn after_wait(
        self,
        quic: TransportView,
        wakeup: WakeupView,
        command: Option<DoqCommandView>,
    ) -> Step {
        let step = self.wake(quic, wakeup);
        match command {
            Some(command) if step.result is Ok => Step {
                driver: DriverView {
                    commands: step.driver.commands.push(command),
                    ..step.driver
                },
                quic: commanded(step.quic, command),
                ..step
            },
            _ => step,
        }
    }
}

/// The QUIC connection after a command.
pub open spec fn commanded(quic: TransportView, command: DoqCommandView) -> TransportView {
    match command {
        DoqCommandView::CloseConnection { error, reason } => quic.close(
            true,
            error.code(),
            reason,
        ).0,
    }
}

} // verus!
