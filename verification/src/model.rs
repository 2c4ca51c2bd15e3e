//! What a DoQ connection holds and what each operation makes of it, as
//! mathematical values.
//!
//! A [`ConnectionView`] together with a [`TransportView`] determines the
//! outcome of every operation of [`Connection`](crate::connection::Connection).

use vstd::prelude::*;

use crate::connection::Error;
use crate::transport::{bidi_id, local_id, Shutdown, TransportError, TransportView};
use crate::wire::{front, DoqError, Front, MAX_DNS_MESSAGE_LEN, MAX_DOQ_MESSAGE_LEN};

verus! {

/// What an [`Event`](crate::connection::Event) says.
pub enum EventView {
    Query { data: Seq<u8>, is_0rtt: bool },
    Response { data: Seq<u8> },
    Finished,
    Reset(u64),
}

/// What a [`StreamState`](crate::connection::StreamState) holds.
#[verifier::ext_equal]
pub struct StreamView {
    pub recv_buf: Seq<u8>,
    pub fin_received: bool,
    pub is_0rtt: bool,
    pub is_local: bool,
    pub event_triggered: bool,
    pub send_buf: Seq<u8>,
    pub send_fin: bool,
}

/// What a [`Connection`](crate::connection::Connection) holds.
#[verifier::ext_equal]
pub struct ConnectionView {
    pub is_server: bool,
    pub next_query_stream_id: u64,
    pub streams: Map<u64, StreamView>,
    pub pending: Seq<(u64, EventView)>,
}

/// Both ends of an operation: what the DoQ connection and the QUIC connection
/// are afterwards, and what is returned.
#[verifier::ext_equal]
pub struct Outcome<T> {
    pub doq: ConnectionView,
    pub quic: TransportView,
    pub result: Result<T, Error>,
}

/// The error that stands for one of the QUIC layer.
pub open spec fn from_transport(e: TransportError) -> Error {
    match e {
        TransportError::Done => Error::Done,
        e => Error::TransportError(e),
    }
}

/// The outcome of shutting a stream down: that it has ended already is fine.
pub open spec fn shutdown_result(r: Result<(), TransportError>) -> Result<(), Error> {
    match r {
        Ok(()) => Ok(()),
        Err(TransportError::Done) => Ok(()),
        Err(e) => Err(from_transport(e)),
    }
}

/// The reason that the peer is given for a protocol error: `DoQ protocol
/// error`, in ASCII.
pub open spec fn protocol_error_reason() -> Seq<u8> {
    seq![
        0x44u8, 0x6f, 0x51, 0x20, 0x70, 0x72, 0x6f, 0x74, 0x6f, 0x63, 0x6f, 0x6c, 0x20, 0x65, 0x72,
        0x72, 0x6f, 0x72,
    ]
}

/// The whole messages at the front of some received bytes.
pub open spec fn messages(buf: Seq<u8>) -> Seq<Seq<u8>>
    decreases buf.len(),
{
    match front(buf) {
        Front::Message { data, consumed } => seq![data] + messages(buf.skip(consumed as int)),
        _ => Seq::empty(),
    }
}

/// The bytes behind those messages.
pub open spec fn remainder(buf: Seq<u8>) -> Seq<u8>
    decreases buf.len(),
{
    match front(buf) {
        Front::Message { data, consumed } => remainder(buf.skip(consumed as int)),
        _ => buf,
    }
}

/// One response event for each message.
pub open spec fn responses(messages: Seq<Seq<u8>>) -> Seq<EventView> {
    messages.map_values(|data: Seq<u8>| EventView::Response { data })
}

/// Events as events of a stream.
pub open spec fn on_stream(stream_id: u64, events: Seq<EventView>) -> Seq<(u64, EventView)> {
    events.map_values(|event: EventView| (stream_id, event))
}

/// Holds of the events of every stream but `stream_id`.
pub open spec fn of_other_stream(stream_id: u64) -> spec_fn((u64, EventView)) -> bool {
    |e: (u64, EventView)| e.0 != stream_id
}

/// How many bytes one read takes from the QUIC layer at most.
pub const READ_CHUNK: usize = 4096;

/// How many of `available` bytes have been read, a chunk at a time, when the
/// `held` ones and they first exceed what a query can take.
pub open spec fn read_until_excess(held: nat, available: nat) -> nat {
    let missing = if held > MAX_DOQ_MESSAGE_LEN {
        1
    } else {
        MAX_DOQ_MESSAGE_LEN + 1 - held
    };
    let chunks = (missing + READ_CHUNK - 1) / READ_CHUNK as int;
    if available <= chunks * READ_CHUNK {
        available
    } else {
        (chunks * READ_CHUNK) as nat
    }
}

impl StreamView {
    /// A stream on which nothing has happened yet.
    pub open spec fn fresh(is_0rtt: bool) -> Self {
        StreamView {
            recv_buf: Seq::empty(),
            fin_received: false,
            is_0rtt,
            is_local: false,
            event_triggered: false,
            send_buf: Seq::empty(),
            send_fin: false,
        }
    }

    /// A stream that was opened to send one framed query.
    pub open spec fn query(data: Seq<u8>) -> Self {
        StreamView {
            is_local: true,
            send_buf: crate::wire::frame(data),
            send_fin: true,
            ..StreamView::fresh(false)
        }
    }

    /// The same, with more bytes received.
    pub open spec fn received(self, data: Seq<u8>, fin: bool) -> Self {
        StreamView {
            recv_buf: self.recv_buf + data,
            fin_received: self.fin_received || fin,
            ..self
        }
    }

    /// The same, with the first `n` bytes to send gone.
    pub open spec fn sent(self, n: nat) -> Self {
        StreamView { send_buf: self.send_buf.skip(n as int), ..self }
    }
}

/// Whether a connection of that role surfaces such an event.
pub open spec fn event_of_role(is_server: bool, event: EventView) -> bool {
    match event {
        EventView::Query { .. } => is_server,
        EventView::Response { .. } => !is_server,
        EventView::Finished => !is_server,
        EventView::Reset(_) => true,
    }
}

impl ConnectionView {
    /// The same before anything has happened.
    pub open spec fn new(is_server: bool) -> Self {
        ConnectionView {
            is_server,
            next_query_stream_id: 0,
            streams: Map::empty(),
            pending: Seq::empty(),
        }
    }

    /// What holds of every stream that is tracked: the client opened it and it
    /// is bidirectional; a server holds at most one framed message for it, and
    /// did not open it; a query stream of a client has had its id, and its
    /// query is the last that is sent on it.
    pub open spec fn valid_stream(self, stream_id: u64) -> bool {
        let s = self.streams[stream_id];
        &&& stream_id % 4 == 0
        &&& self.is_server ==> !s.is_local && s.recv_buf.len() <= MAX_DOQ_MESSAGE_LEN
        &&& s.is_local ==> s.send_fin && stream_id <= self.next_query_stream_id
    }

    /// What holds of a connection at all times.
    pub open spec fn valid(self) -> bool {
        &&& self.next_query_stream_id % 4 == 0
        &&& forall|id: u64| #[trigger]
            self.streams.contains_key(id) ==> self.valid_stream(id)
        &&& forall|i: int|
            0 <= i < self.pending.len() ==> event_of_role(
                self.is_server,
                (#[trigger] self.pending[i]).1,
            )
        &&& self.is_server ==> self.pending.len() == 0
    }

    /// Whether the receiving side of every stream whose end was noted is at its
    /// end on the QUIC layer.
    pub open spec fn ends_agree(self, quic: TransportView) -> bool {
        forall|id: u64| #[trigger]
            self.streams.contains_key(id) && self.streams[id].fin_received ==> quic.recv_ended(id)
    }

    /// The same with the state of one stream replaced.
    pub open spec fn with_stream(self, stream_id: u64, stream: StreamView) -> Self {
        ConnectionView { streams: self.streams.insert(stream_id, stream), ..self }
    }

    /// The same with one stream no longer tracked.
    pub open spec fn without_stream(self, stream_id: u64) -> Self {
        ConnectionView { streams: self.streams.remove(stream_id), ..self }
    }

    /// Whether the stream is a query stream that the connection opened.
    pub open spec fn is_query_stream(self, stream_id: u64) -> bool {
        self.streams.contains_key(stream_id) && self.streams[stream_id].is_local
    }

    /// Whether bytes of the stream wait for the QUIC layer to take them.
    pub open spec fn has_unsent(self, stream_id: u64) -> bool {
        self.streams.contains_key(stream_id) && self.streams[stream_id].send_buf.len() > 0
    }

    /// The connection closed with `DOQ_PROTOCOL_ERROR`.
    pub open spec fn fail<T>(self, quic: TransportView) -> Outcome<T> {
        let (quic, r) = quic.close(true, DoqError::ProtocolError.code(), protocol_error_reason());
        Outcome {
            doq: self,
            quic,
            result: match r {
                Ok(()) => Err(Error::ProtocolError),
                Err(e) => Err(from_transport(e)),
            },
        }
    }

    /// A look at the sending side of a query stream: a peer that has stopped it
    /// breaks the protocol.
    pub open spec fn probe(self, quic: TransportView, stream_id: u64) -> Outcome<()> {
        match quic.capacity(stream_id) {
            Ok(_) => Outcome { doq: self, quic, result: Ok(()) },
            Err(TransportError::StreamStopped(_)) => self.fail(quic),
            Err(e) => Outcome { doq: self, quic, result: Err(from_transport(e)) },
        }
    }

    pub open spec fn flush_query(self, quic: TransportView, stream_id: u64) -> Outcome<()> {
        let s = self.streams[stream_id];
        let probe = self.probe(quic, stream_id);
        let (sent, r) = quic.send(stream_id, s.send_buf, true);
        if self.is_server {
            Outcome { doq: self, quic, result: Err(Error::ClientOnly) }
        } else if !self.is_query_stream(stream_id) {
            Outcome { doq: self, quic, result: Err(Error::UnknownStream) }
        } else if probe.result is Err {
            probe
        } else if s.send_buf.len() == 0 {
            Outcome { doq: self, quic, result: Ok(()) }
        } else {
            match r {
                Ok(n) => Outcome {
                    doq: self.with_stream(stream_id, s.sent(n as nat)),
                    quic: sent,
                    result: Ok(()),
                },
                Err(TransportError::Done) => Outcome { doq: self, quic: sent, result: Ok(()) },
                Err(TransportError::StreamStopped(_)) => self.fail(sent),
                Err(e) => Outcome { doq: self, quic: sent, result: Err(from_transport(e)) },
            }
        }
    }

    pub open spec fn send_query(self, quic: TransportView, data: Seq<u8>) -> Outcome<u64> {
        let id = self.next_query_stream_id;
        let registered = self.with_stream(id, StreamView::query(data));
        let (opened, r) = quic.send(id, Seq::empty(), false);
        let flushed = registered.flush_query(opened, id);
        if self.is_server {
            Outcome { doq: self, quic, result: Err(Error::ClientOnly) }
        } else if data.len() > MAX_DNS_MESSAGE_LEN {
            Outcome { doq: self, quic, result: Err(Error::MessageTooLarge) }
        } else {
            match r {
                Err(TransportError::StreamStopped(_)) => self.without_stream(id).fail(opened),
                Err(e) => Outcome {
                    doq: self.without_stream(id),
                    quic: opened,
                    result: Err(from_transport(e)),
                },
                Ok(_) => match flushed.result {
                    Err(e) => Outcome {
                        doq: flushed.doq.without_stream(id),
                        quic: flushed.quic,
                        result: Err(e),
                    },
                    Ok(()) => if id + 4 > u64::MAX {
                        Outcome {
                            doq: flushed.doq,
                            quic: flushed.quic,
                            result: Err(Error::StreamIdExhausted),
                        }
                    } else {
                        Outcome {
                            doq: ConnectionView {
                                next_query_stream_id: (id + 4) as u64,
                                ..flushed.doq
                            },
                            quic: flushed.quic,
                            result: Ok(id),
                        }
                    },
                },
            }
        }
    }

    pub open spec fn cancel_query(self, quic: TransportView, stream_id: u64, error: u64) -> Outcome<
        (),
    > {
        let (stopped, r) = quic.shut_down(stream_id, Shutdown::Read, error);
        let (reset, r2) = stopped.shut_down(stream_id, Shutdown::Write, error);
        let dropped = ConnectionView {
            pending: self.pending.filter(of_other_stream(stream_id)),
            ..self.without_stream(stream_id)
        };
        if self.is_server {
            Outcome { doq: self, quic, result: Err(Error::ClientOnly) }
        } else if !self.is_query_stream(stream_id) {
            Outcome { doq: self, quic, result: Err(Error::UnknownStream) }
        } else if shutdown_result(r) is Err || self.streams[stream_id].send_buf.len() == 0 {
            Outcome { doq: dropped, quic: stopped, result: shutdown_result(r) }
        } else {
            Outcome { doq: dropped, quic: reset, result: shutdown_result(r2) }
        }
    }

    pub open spec fn flush_response(self, quic: TransportView, stream_id: u64) -> Outcome<()> {
        let s = self.streams[stream_id];
        let (sent, r) = quic.send(stream_id, s.send_buf, s.send_fin);
        if !self.streams.contains_key(stream_id) {
            Outcome { doq: self, quic, result: Err(Error::UnknownStream) }
        } else if s.send_buf.len() == 0 && !s.send_fin {
            Outcome { doq: self, quic, result: Ok(()) }
        } else {
            match r {
                Ok(n) => Outcome {
                    doq: if n == s.send_buf.len() && s.send_fin {
                        self.without_stream(stream_id)
                    } else {
                        self.with_stream(stream_id, s.sent(n as nat))
                    },
                    quic: sent,
                    result: Ok(()),
                },
                Err(TransportError::Done) => Outcome { doq: self, quic: sent, result: Ok(()) },
                Err(e) => Outcome { doq: self, quic: sent, result: Err(from_transport(e)) },
            }
        }
    }

    pub open spec fn send_response(
        self,
        quic: TransportView,
        stream_id: u64,
        data: Seq<u8>,
        fin: bool,
    ) -> Outcome<()> {
        let s = self.streams[stream_id];
        let queued = StreamView {
            send_buf: s.send_buf + crate::wire::frame(data),
            send_fin: fin,
            ..s
        };
        if !self.streams.contains_key(stream_id) || s.send_fin {
            Outcome { doq: self, quic, result: Err(Error::UnknownStream) }
        } else if data.len() > MAX_DNS_MESSAGE_LEN {
            Outcome { doq: self, quic, result: Err(Error::MessageTooLarge) }
        } else {
            self.with_stream(stream_id, queued).flush_response(quic, stream_id)
        }
    }

    pub open spec fn reset_stream(self, quic: TransportView, stream_id: u64, error: u64) -> Outcome<
        (),
    > {
        let (reset, r) = quic.shut_down(stream_id, Shutdown::Write, error);
        if !self.streams.contains_key(stream_id) {
            Outcome { doq: self, quic, result: Err(Error::UnknownStream) }
        } else {
            Outcome {
                doq: self.without_stream(stream_id),
                quic: reset,
                result: shutdown_result(r),
            }
        }
    }

    /// The state of a stream, which is a fresh one where the stream is new.
    pub open spec fn stream_or_fresh(self, stream_id: u64, is_0rtt: bool) -> StreamView {
        if self.streams.contains_key(stream_id) {
            self.streams[stream_id]
        } else {
            StreamView::fresh(is_0rtt)
        }
    }

    /// All that is at hand for a stream taken over from the QUIC layer.
    pub open spec fn read_stream(self, quic: TransportView, stream_id: u64) -> Outcome<
        Option<u64>,
    > {
        let q = quic.streams[stream_id];
        let s = self.stream_or_fresh(stream_id, quic.arrived_early(stream_id));
        let (reset, r) = quic.recv_finished(stream_id).shut_down(
            stream_id,
            Shutdown::Write,
            q.recv_end->Reset_0,
        );
        let n = read_until_excess(s.recv_buf.len(), q.recv_data.len());
        let excess = quic.with_stream(
            stream_id,
            crate::transport::TransportStreamView { recv_data: q.recv_data.skip(n as int), ..q },
        );
        if !quic.streams.contains_key(stream_id) {
            Outcome {
                doq: self,
                quic,
                result: Err(from_transport(TransportError::InvalidStreamState(stream_id))),
            }
        } else if q.recv_end is Reset {
            if self.is_server && q.send_end is Open {
                Outcome {
                    doq: self.without_stream(stream_id),
                    quic: reset,
                    result: match shutdown_result(r) {
                        Ok(()) => Ok(Some(q.recv_end->Reset_0)),
                        Err(e) => Err(e),
                    },
                }
            } else {
                Outcome {
                    doq: self.without_stream(stream_id),
                    quic: quic.recv_finished(stream_id),
                    result: Ok(Some(q.recv_end->Reset_0)),
                }
            }
        } else if q.recv_data.len() == 0 && !(q.recv_end is Fin) {
            Outcome { doq: self, quic: quic.unreadable(stream_id), result: Ok(None) }
        } else if self.is_server && s.recv_buf.len() + q.recv_data.len() > MAX_DOQ_MESSAGE_LEN {
            Outcome {
                doq: self.without_stream(stream_id),
                quic: if n == q.recv_data.len() && q.recv_end is Fin {
                    quic.recv_finished(stream_id)
                } else {
                    excess
                },
                result: Err(Error::ProtocolError),
            }
        } else {
            Outcome {
                doq: self.with_stream(
                    stream_id,
                    s.received(q.recv_data, q.recv_end is Fin),
                ),
                quic: if q.recv_end is Fin {
                    quic.recv_finished(stream_id)
                } else {
                    quic.with_stream(
                        stream_id,
                        crate::transport::TransportStreamView { recv_data: Seq::empty(), ..q },
                    ).unreadable(stream_id)
                },
                result: Ok(None),
            }
        }
    }

    /// What a server makes of the bytes of a stream: at most one query, and
    /// only once the whole stream is there.
    pub open spec fn drain_server(self, stream_id: u64) -> (
        ConnectionView,
        Result<Seq<EventView>, Error>,
    ) {
        let s = self.streams[stream_id];
        let none = (self, Ok(Seq::empty()));
        let bad = (self, Err(Error::ProtocolError));
        if !self.streams.contains_key(stream_id) {
            none
        } else if s.event_triggered {
            if s.recv_buf.len() > 0 {
                bad
            } else {
                none
            }
        } else {
            match front(s.recv_buf) {
                Front::Message { data, consumed } => if consumed < s.recv_buf.len() {
                    bad
                } else if !s.fin_received {
                    none
                } else {
                    (
                        self.with_stream(
                            stream_id,
                            StreamView { event_triggered: true, recv_buf: Seq::empty(), ..s },
                        ),
                        Ok(seq![EventView::Query { data, is_0rtt: s.is_0rtt }]),
                    )
                },
                _ => if s.fin_received {
                    bad
                } else {
                    none
                },
            }
        }
    }

    /// What a client makes of the bytes of a stream: one response for each
    /// whole message, and the end once the stream has ended behind one.
    pub open spec fn drain_client(self, stream_id: u64) -> (
        ConnectionView,
        Result<Seq<EventView>, Error>,
    ) {
        let s = self.streams[stream_id];
        let found = messages(s.recv_buf);
        let drained = StreamView {
            recv_buf: remainder(s.recv_buf),
            event_triggered: s.event_triggered || found.len() > 0,
            ..s
        };
        if !self.streams.contains_key(stream_id) {
            (self, Ok(Seq::empty()))
        } else if !s.fin_received {
            (self.with_stream(stream_id, drained), Ok(responses(found)))
        } else if !drained.event_triggered || drained.recv_buf.len() > 0 {
            (self.with_stream(stream_id, drained), Err(Error::ProtocolError))
        } else {
            (self.without_stream(stream_id), Ok(responses(found).push(EventView::Finished)))
        }
    }

    /// What comes of a stream that has become readable.
    pub open spec fn process_readable_stream(self, quic: TransportView, stream_id: u64) -> Outcome<
        Seq<EventView>,
    > {
        let peer_initiated = !local_id(stream_id, self.is_server);
        let read = self.read_stream(quic, stream_id);
        let (drained, events) = if self.is_server {
            read.doq.drain_server(stream_id)
        } else {
            read.doq.drain_client(stream_id)
        };
        if if self.is_server {
            peer_initiated && !bidi_id(stream_id)
        } else {
            peer_initiated
        } {
            Outcome { doq: self, quic, result: Err(Error::ProtocolError) }
        } else if self.is_server && !peer_initiated || !bidi_id(stream_id) {
            Outcome { doq: self, quic, result: Ok(Seq::empty()) }
        } else {
            match read.result {
                Err(e) => Outcome { doq: read.doq, quic: read.quic, result: Err(e) },
                Ok(Some(code)) => Outcome {
                    doq: read.doq,
                    quic: read.quic,
                    result: Ok(seq![EventView::Reset(code)]),
                },
                Ok(None) => Outcome { doq: drained, quic: read.quic, result: events },
            }
        }
    }

    /// What comes of some readable streams, up to the first event.
    pub open spec fn poll_streams(self, quic: TransportView, ids: Seq<u64>) -> Outcome<
        (u64, EventView),
    >
        decreases ids.len(),
    {
        if ids.len() == 0 {
            Outcome { doq: self, quic, result: Err(Error::Done) }
        } else {
            let id = ids[0];
            let probe = self.probe(quic, id);
            let step = self.process_readable_stream(quic, id);
            if !self.is_server && self.streams.contains_key(id) && probe.result is Err {
                Outcome { doq: probe.doq, quic: probe.quic, result: Err(probe.result->Err_0) }
            } else {
                match step.result {
                    Ok(events) => if events.len() == 0 {
                        step.doq.poll_streams(step.quic, ids.drop_first())
                    } else {
                        Outcome {
                            doq: ConnectionView {
                                pending: step.doq.pending + on_stream(id, events.drop_first()),
                                ..step.doq
                            },
                            quic: step.quic,
                            result: Ok((id, events[0])),
                        }
                    },
                    Err(Error::ProtocolError) => step.doq.fail(step.quic),
                    Err(e) => Outcome { doq: step.doq, quic: step.quic, result: Err(e) },
                }
            }
        }
    }

    pub open spec fn poll(self, quic: TransportView) -> Outcome<(u64, EventView)> {
        if quic.local_error is Some {
            Outcome { doq: self, quic, result: Err(Error::Done) }
        } else if self.pending.len() > 0 {
            Outcome {
                doq: ConnectionView { pending: self.pending.drop_first(), ..self },
                quic,
                result: Ok(self.pending[0]),
            }
        } else {
            self.poll_streams(quic, quic.readable)
        }
    }
}

} // verus!
