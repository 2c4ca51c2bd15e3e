//! A synchronous, IO-less DoQ transport protocol object.
//!
//! [`Connection`] is driven by repeatedly calling [`Connection::poll`] on top
//! of a `&mut Transport`, and owns everything needed to turn QUIC stream bytes
//! into framed DNS messages (and back) without parsing DNS content itself. The
//! per-stream reassembly and the protocol-error matrix in RFC 9250, Section
//! 4.3.3 are implemented here exactly once.
//! <https://datatracker.ietf.org/doc/html/rfc9250#section-4.3.3>

use std::collections::HashMap;
use std::collections::VecDeque;

use vstd::prelude::*;
use vstd::slice::slice_to_vec;

use crate::model::{
    from_transport, messages, of_other_stream, on_stream, read_until_excess, remainder, responses,
    ConnectionView, EventView, Outcome, StreamView, READ_CHUNK,
};
use crate::transport::{
    is_bidi, is_local, Shutdown, Transport, TransportError, TransportStreamView, TransportView,
};
use crate::wire::{
    read_dns_message, write_dns_message, DnsWireError, DoqError, MAX_DOQ_MESSAGE_LEN,
};

verus! {

broadcast use vstd::std_specs::hash::group_hash_axioms;

/// An error while driving a [`Connection`].
#[derive(Debug, Clone, Copy, PartialEq, Eq)]
pub enum Error {
    /// There is no more work to do right now.
    Done,
    /// A fatal DoQ protocol violation was detected.
    /// <https://datatracker.ietf.org/doc/html/rfc9250#section-4.3.3>
    ProtocolError,
    /// DNS message is larger than the 65535 bytes the 2-octet length prefix
    /// can represent.
    MessageTooLarge,
    /// Client specific functions were called on a server-role connection.
    ClientOnly,
    /// There are no more client-initiated bidirectional stream IDs.
    StreamIdExhausted,
    /// Unknown stream was used which `Connection` doesn't know about
    UnknownStream,
    /// Error originated from the transport layer.
    TransportError(TransportError),
}

impl Error {
    /// The words that describe the error.
    pub open spec fn words(self) -> Seq<char> {
        match self {
            Error::Done => "no more work to do"@,
            Error::ProtocolError => "DoQ protocol error"@,
            Error::MessageTooLarge => "DNS message is too large"@,
            Error::ClientOnly => "operation requires a client connection"@,
            Error::StreamIdExhausted => "client stream IDs exhausted"@,
            Error::UnknownStream => "unknown or already-closed stream"@,
            Error::TransportError(e) => "transport error: "@ + e.words(),
        }
    }

    /// Describes the error in words.
    pub fn text(&self) -> (text: String)
        ensures
            text@ == self.words(),
    {
        match *self {
            Error::Done => "no more work to do".to_owned(),
            Error::ProtocolError => "DoQ protocol error".to_owned(),
            Error::MessageTooLarge => "DNS message is too large".to_owned(),
            Error::ClientOnly => "operation requires a client connection".to_owned(),
            Error::StreamIdExhausted => "client stream IDs exhausted".to_owned(),
            Error::UnknownStream => "unknown or already-closed stream".to_owned(),
            Error::TransportError(e) => {
                let mut text = "transport error: ".to_owned();
                text.append(e.text().as_str());
                text
            },
        }
    }
}

impl From<TransportError> for Error {
    fn from(e: TransportError) -> (r: Self) {
        match e {
            TransportError::Done => Error::Done,
            e => Error::TransportError(e),
        }
    }
}

impl vstd::std_specs::convert::FromSpecImpl<TransportError> for Error {
    open spec fn obeys_from_spec() -> bool {
        true
    }

    open spec fn from_spec(e: TransportError) -> Self {
        from_transport(e)
    }
}

impl From<DnsWireError> for Error {
    fn from(e: DnsWireError) -> (r: Self) {
        match e {
            DnsWireError::DnsMessageTooLarge => Error::MessageTooLarge,
            // The remaining variants describe a malformed message rather than
            // an oversized one. The read path inspects them directly, because
            // a truncated message is only an error once the peer sends fin.
            DnsWireError::LenDataIncomplete
            | DnsWireError::DnsMessageIncomplete
            | DnsWireError::IoError(_) => Error::ProtocolError,
        }
    }
}

impl vstd::std_specs::convert::FromSpecImpl<DnsWireError> for Error {
    open spec fn obeys_from_spec() -> bool {
        true
    }

    open spec fn from_spec(e: DnsWireError) -> Self {
        if e is DnsMessageTooLarge {
            Error::MessageTooLarge
        } else {
            Error::ProtocolError
        }
    }
}

/// A DoQ transport event, returned by [`Connection::poll`].
#[derive(Debug, Clone, PartialEq, Eq)]
pub enum Event {
    /// A complete DNS query was received on a client-initiated
    /// bidirectional stream (server-role `Connection` only). Emitted once
    /// per stream, after STREAM FIN, so a truncated message or a second
    /// query on the same stream can be rejected as a protocol error instead
    /// of surfaced.
    Query {
        /// The raw DNS message bytes, with the 2-octet length prefix
        /// already stripped. Not parsed or validated in any way: DNS
        /// content is the consumer's responsibility, not the transport's.
        data: Vec<u8>,
        /// Whether these bytes arrived while the QUIC connection was still
        /// in early data (0-RTT). RFC 9250, Section 4.5 restricts which
        /// operations may proceed before handshake confirmation; that policy
        /// decision belongs to the consumer, not the transport.
        /// <https://datatracker.ietf.org/doc/html/rfc9250#section-4.5>
        is_0rtt: bool,
    },
    /// A complete DNS response message was received on a stream the local,
    /// client-role `Connection` initiated. Emitted once per completed
    /// message: a zone-transfer stream carrying multiple responses emits
    /// this event once per message, followed by a single [`Event::Finished`]
    /// once STREAM FIN arrives.
    Response {
        /// The raw DNS message bytes, with the 2-octet length prefix
        /// already stripped.
        data: Vec<u8>,
    },
    /// The server finished sending responses on this stream.
    Finished,
    /// The peer reset the stream (`RESET_STREAM`). The raw wire error code is
    /// passed through unmapped; a caller that needs the unknown-code mapping
    /// in RFC 9250, Section 4.3.4 must do it itself. A client receiving
    /// `STOP_SENDING` instead gets [`Error::ProtocolError`] because RFC 9250,
    /// Section 4.3.3 makes that fatal.
    /// <https://datatracker.ietf.org/doc/html/rfc9250#section-4.3.4>
    Reset(u64),
}

impl View for Event {
    type V = EventView;

    open spec fn view(&self) -> EventView {
        match *self {
            Event::Query { data, is_0rtt } => EventView::Query { data: data@, is_0rtt },
            Event::Response { data } => EventView::Response { data: data@ },
            Event::Finished => EventView::Finished,
            Event::Reset(code) => EventView::Reset(code),
        }
    }
}

/// Per-stream reassembly state owned by [`Connection`].
#[derive(Debug, Default)]
pub struct StreamState {
    /// Bytes received so far that have not yet been consumed by a complete
    /// framed DNS message.
    pub recv_buf: Vec<u8>,
    /// Whether STREAM FIN has been observed on the receive side.
    pub fin_received: bool,
    /// Whether the QUIC connection was in early data when the first byte on
    /// this stream arrived (captures `is_0rtt`, per RFC 9250, Section 4.5).
    /// <https://datatracker.ietf.org/doc/html/rfc9250#section-4.5>
    pub is_0rtt: bool,
    /// Whether this `Connection` opened the stream itself, as opposed to
    /// discovering it by reading peer-initiated bytes. Only
    /// [`Connection::send_query`] sets this, so it is never true on a server.
    /// [`Connection::flush_query`] and [`Connection::query_pending`] use it to
    /// recognize locally opened query streams.
    pub is_local: bool,
    /// Whether at least one DNS message event has been surfaced on this
    /// stream: [`Event::Query`] on a server, [`Event::Response`] on a client.
    /// This latches, and is never cleared once set: a zone-transfer stream
    /// sets it on its first response and keeps it set across the rest.
    ///
    /// Server role reads it as a latch. Buffered bytes arriving after the
    /// query was surfaced are a second query on the same stream, a protocol
    /// error under RFC 9250, Section 4.3.3.
    ///
    /// Client role reads it at STREAM FIN. A FIN with no response surfaced is
    /// a protocol error under RFC 9250, Sections 4.2 and 4.3.3.
    pub event_triggered: bool,
    /// Framed outgoing query or response bytes that QUIC has not yet accepted.
    /// A partial write drains accepted bytes from the front, retaining the
    /// remaining suffix until the stream is writable again.
    pub send_buf: Vec<u8>,
    /// Whether the queued outgoing message must carry STREAM FIN once all its
    /// bytes are accepted. Client queries always set this; server responses
    /// set it only for their final message.
    pub send_fin: bool,
}

impl View for StreamState {
    type V = StreamView;

    open spec fn view(&self) -> StreamView {
        StreamView {
            recv_buf: self.recv_buf@,
            fin_received: self.fin_received,
            is_0rtt: self.is_0rtt,
            is_local: self.is_local,
            event_triggered: self.event_triggered,
            send_buf: self.send_buf@,
            send_fin: self.send_fin,
        }
    }
}

impl StreamState {
    /// The state of a stream on which nothing has happened yet.
    pub fn new(is_0rtt: bool) -> (s: StreamState)
        ensures
            s@ == StreamView::fresh(is_0rtt),
    {
        StreamState {
            recv_buf: Vec::new(),
            fin_received: false,
            is_0rtt,
            is_local: false,
            event_triggered: false,
            send_buf: Vec::new(),
            send_fin: false,
        }
    }
}

/// A synchronous, IO-less DoQ transport connection.
///
/// `Connection` sits directly on top of a [`Transport`]: it owns per-stream
/// byte reassembly, DoQ's 2-octet length-prefix framing, stream-role
/// classification, and the parts of the RFC 9250, Section 4.3.3 protocol-error
/// matrix that are detectable from QUIC-stream usage and framing alone. It does
/// **not** parse DNS message content.
/// <https://datatracker.ietf.org/doc/html/rfc9250#section-4.3.3>
#[derive(Debug)]
pub struct Connection {
    /// Whether the connection has the server role.
    pub is_server: bool,
    /// The stream that carries the next query.
    pub next_query_stream_id: u64,
    /// The streams that are tracked.
    pub streams: HashMap<u64, StreamState>,
    /// Events that were found and not yet returned, oldest first.
    pub pending: VecDeque<(u64, Event)>,
}

/// The contents of a table of streams.
pub open spec fn stream_views(m: Map<u64, StreamState>) -> Map<u64, StreamView> {
    m.map_values(|s: StreamState| s@)
}

/// What some events say.
pub open spec fn event_views(events: Seq<Event>) -> Seq<EventView> {
    events.map_values(|e: Event| e@)
}

/// What some events of streams say.
pub open spec fn pending_views(pending: Seq<(u64, Event)>) -> Seq<(u64, EventView)> {
    pending.map_values(|p: (u64, Event)| (p.0, p.1@))
}

impl View for Connection {
    type V = ConnectionView;

    open spec fn view(&self) -> ConnectionView {
        ConnectionView {
            is_server: self.is_server,
            next_query_stream_id: self.next_query_stream_id,
            streams: stream_views(self.streams@),
            pending: pending_views(self.pending@),
        }
    }
}

/// What [`Connection::poll`] returned.
pub open spec fn polled(r: Result<(u64, Event), Error>) -> Result<(u64, EventView), Error> {
    match r {
        Ok((stream_id, event)) => Ok((stream_id, event@)),
        Err(e) => Err(e),
    }
}

/// What processing a readable stream returned.
pub open spec fn processed(r: Result<Vec<Event>, Error>) -> Result<Seq<EventView>, Error> {
    match r {
        Ok(events) => Ok(event_views(events@)),
        Err(e) => Err(e),
    }
}

/// `DoQ protocol error`, in ASCII.
pub const PROTOCOL_ERROR_REASON: [u8; 18] = [
    0x44,
    0x6f,
    0x51,
    0x20,
    0x70,
    0x72,
    0x6f,
    0x74,
    0x6f,
    0x63,
    0x6f,
    0x6c,
    0x20,
    0x65,
    0x72,
    0x72,
    0x6f,
    0x72,
];

proof fn lemma_replaced(m: Map<u64, StreamState>, stream_id: u64, s: StreamState)
    ensures
        stream_views(m.remove(stream_id).insert(stream_id, s)) == stream_views(m).insert(
            stream_id,
            s@,
        ),
        stream_views(m.insert(stream_id, s)) == stream_views(m).insert(stream_id, s@),
{
    assert(stream_views(m.remove(stream_id).insert(stream_id, s)) =~= stream_views(m).insert(
        stream_id,
        s@,
    ));
    assert(stream_views(m.insert(stream_id, s)) =~= stream_views(m).insert(stream_id, s@));
}

proof fn lemma_removed(m: Map<u64, StreamState>, stream_id: u64)
    ensures
        stream_views(m.remove(stream_id)) == stream_views(m).remove(stream_id),
        !m.contains_key(stream_id) ==> m.remove(stream_id) == m,
        m.contains_key(stream_id) ==> m.remove(stream_id).insert(stream_id, m[stream_id]) == m,
{
    assert(stream_views(m.remove(stream_id)) =~= stream_views(m).remove(stream_id));
    if !m.contains_key(stream_id) {
        assert(m.remove(stream_id) =~= m);
    } else {
        assert(m.remove(stream_id).insert(stream_id, m[stream_id]) =~= m);
    }
}

/// A read that neither ends the stream nor exceeds what a query can take
/// changes nothing about where the reading ends.
proof fn lemma_read_step(
    c: ConnectionView,
    q: TransportView,
    stream_id: u64,
    q2: TransportView,
    chunk: Seq<u8>,
)
    requires
        q.recv(stream_id, READ_CHUNK as nat) == (
            q2,
            Ok::<(Seq<u8>, bool), TransportError>((chunk, false)),
        ),
        c.is_server ==> c.stream_or_fresh(stream_id, q.arrived_early(stream_id)).recv_buf.len() + chunk.len()
            <= MAX_DOQ_MESSAGE_LEN,
    ensures
        chunk.len() > 0,
        q2.streams[stream_id].recv_data.len() + chunk.len() == q.streams[stream_id].recv_data.len(),
        c.with_stream(
            stream_id,
            c.stream_or_fresh(stream_id, q.arrived_early(stream_id)).received(chunk, false),
        ).read_stream(q2, stream_id) == c.read_stream(q, stream_id),
{
    let s = c.stream_or_fresh(stream_id, q.arrived_early(stream_id));
    let c2 = c.with_stream(stream_id, s.received(chunk, false));
    let data = q.streams[stream_id].recv_data;
    let rest = q2.streams[stream_id].recv_data;
    assert(chunk + rest =~= data);
    assert(s.recv_buf + chunk + rest =~= s.recv_buf + data);
    assert(c2.without_stream(stream_id) =~= c.without_stream(stream_id));
    let o = c.read_stream(q, stream_id);
    let o2 = c2.read_stream(q2, stream_id);
    assert(c2.with_stream(
        stream_id,
        s.received(chunk, false).received(rest, q.streams[stream_id].recv_end is Fin),
    ) =~= c.with_stream(
        stream_id,
        s.received(data, q.streams[stream_id].recv_end is Fin),
    ));
    assert(rest.len() == 0 ==> data == chunk);
    let n = read_until_excess(s.recv_buf.len(), data.len());
    let n2 = read_until_excess(s.recv_buf.len() + chunk.len(), rest.len());
    if c.is_server && s.recv_buf.len() + data.len() > MAX_DOQ_MESSAGE_LEN {
        assert(chunk.len() == READ_CHUNK);
        assert(n == n2 + chunk.len());
        assert(rest.skip(n2 as int) =~= data.skip(n as int));
    }
    let old_stream = q.streams[stream_id];
    assert forall|t: TransportStreamView| #[trigger]
        q2.streams.insert(stream_id, t) == q.streams.insert(stream_id, t) by {
        assert(q2.streams.insert(stream_id, t) =~= q.streams.insert(stream_id, t));
    }
    if rest.len() == 0 && !(old_stream.recv_end is Fin) {
        assert(q2.streams[stream_id].recv_data =~= Seq::empty());
    }
    assert(o2.quic =~= o.quic);
    assert(o2 =~= o);
}

/// Where a read exceeds what a query can take.
proof fn lemma_read_excess(
    c: ConnectionView,
    q: TransportView,
    stream_id: u64,
    q2: TransportView,
    chunk: Seq<u8>,
    fin: bool,
)
    requires
        q.recv(stream_id, READ_CHUNK as nat) == (
            q2,
            Ok::<(Seq<u8>, bool), TransportError>((chunk, fin)),
        ),
        c.is_server,
        c.stream_or_fresh(stream_id, q.arrived_early(stream_id)).recv_buf.len() + chunk.len()
            > MAX_DOQ_MESSAGE_LEN,
    ensures
        c.read_stream(q, stream_id) == (Outcome::<Option<u64>> {
            doq: c.without_stream(stream_id),
            quic: q2,
            result: Err(Error::ProtocolError),
        }),
{
    let s = c.stream_or_fresh(stream_id, q.arrived_early(stream_id));
    let data = q.streams[stream_id].recv_data;
    let n = read_until_excess(s.recv_buf.len(), data.len());
    assert(n == chunk.len());
}

/// Drops the first `n` bytes.
fn drop_front(buf: &mut Vec<u8>, n: usize)
    requires
        n <= old(buf)@.len(),
    ensures
        final(buf)@ == old(buf)@.skip(n as int),
{
    let rest = buf.split_off(n);
    *buf = rest;
    assert(buf@ =~= old(buf)@.skip(n as int));
}

impl Connection {
    /// Creates a `Connection` on top of the given [`Transport`].
    ///
    /// The role (client vs. server) is taken from `conn`; DoQ has no
    /// control streams or settings exchange, so there is no handshake work
    /// to do on either role before this returns.
    pub fn with_transport(conn: &Transport) -> (r: Result<Connection, Error>)
        ensures
            r matches Ok(c) && c@ == ConnectionView::new(conn@.is_server),
    {
        let c = Connection {
            is_server: conn.is_server(),
            next_query_stream_id: 0,
            streams: HashMap::new(),
            pending: VecDeque::new(),
        };
        assert(c@.streams =~= Map::empty());
        assert(c@.pending =~= Seq::empty());
        Ok(c)
    }

    /// Processes any readable streams and returns the next DoQ event.
    ///
    /// Returns `Err(Error::Done)` when there is currently no event to
    /// report. A returned [`Error::ProtocolError`] has already initiated a
    /// connection close with `DoqError::ProtocolError`.
    pub fn poll(&mut self, conn: &mut Transport) -> (r: Result<(u64, Event), Error>)
        ensures
            final(self)@ == old(self)@.poll(old(conn)@).doq,
            final(conn)@ == old(self)@.poll(old(conn)@).quic,
            polled(r) == old(self)@.poll(old(conn)@).result,
    {
        // A prior protocol error already initiated closure. Do not continue
        // processing application streams while that close is pending.
        if conn.local_error().is_some() {
            return Err(Error::Done);
        }
        let ghost queued = self.pending@;
        if let Some((stream_id, event)) = self.pending.pop_front() {
            assert(self@.pending =~= pending_views(queued).drop_first());
            return Ok((stream_id, event));
        }
        assert(pending_views(queued) =~= Seq::empty());
        let ids = conn.readable();
        let ghost outcome = self@.poll_streams(conn@, ids@);
        assert(ids@.skip(0) =~= ids@);
        let mut i: usize = 0;
        while i < ids.len()
            invariant
                i <= ids@.len(),
                outcome == old(self)@.poll(old(conn)@),
                outcome == self@.poll_streams(conn@, ids@.skip(i as int)),
            decreases ids@.len() - i,
        {
            let stream_id = ids[i];
            let ghost rest = ids@.skip(i as int);
            assert(rest[0] == stream_id);
            assert(rest.drop_first() =~= ids@.skip(i + 1));
            if !self.is_server && self.streams.contains_key(&stream_id) {
                if let Err(e) = self.probe_query_stream(conn, stream_id) {
                    return Err(e);
                }
            }
            match self.process_readable_stream(conn, stream_id) {
                Ok(events) => {
                    if !events.is_empty() {
                        // The first event is returned immediately and the rest
                        // queued so the next `poll()` call returns them without
                        // needing `stream_id` to be readable again (its bytes
                        // have already been drained from the QUIC layer into
                        // our own buffer).
                        let mut events = events;
                        let ghost found = event_views(events@);
                        let first = events.remove(0);
                        assert(event_views(events@) =~= found.drop_first());
                        self.queue(stream_id, events);
                        return Ok((stream_id, first));
                    }
                },
                Err(Error::ProtocolError) => {
                    return self.fail_protocol_error(conn);
                },
                Err(e) => {
                    return Err(e);
                },
            }
            i = i + 1;
        }
        Err(Error::Done)
    }

    /// Opens a client-initiated bidirectional stream and queues one framed DNS
    /// query on it.
    ///
    /// RFC 9250, Section 4.2: "The client MUST send the DNS query over the
    /// selected stream and MUST indicate through the STREAM FIN mechanism
    /// that no further data will be sent on that stream."
    /// <https://datatracker.ietf.org/doc/html/rfc9250#section-4.2>
    ///
    /// Call [`flush_query`](Self::flush_query) for every writable notification
    /// on a tracked query stream, including when
    /// [`query_pending`](Self::query_pending) returns `false`.
    pub fn send_query(&mut self, conn: &mut Transport, data: &[u8]) -> (r: Result<u64, Error>)
        ensures
            final(self)@ == old(self)@.send_query(old(conn)@, data@).doq,
            final(conn)@ == old(self)@.send_query(old(conn)@, data@).quic,
            r == old(self)@.send_query(old(conn)@, data@).result,
    {
        if self.is_server {
            return Err(Error::ClientOnly);
        }
        let stream_id = self.next_query_stream_id;
        let mut send_buf: Vec<u8> = Vec::new();
        if let Err(e) = write_dns_message(&mut send_buf, data) {
            return Err(Error::from(e));
        }
        let mut state = StreamState::new(false);
        state.is_local = true;
        state.send_buf = send_buf;
        state.send_fin = true;
        let ghost before = self.streams@;
        proof {
            assert(state@.send_buf =~= crate::wire::frame(data@));
            lemma_replaced(before, stream_id, state);
            assert(stream_views(before).insert(stream_id, state@).remove(stream_id)
                =~= stream_views(before).remove(stream_id));
            lemma_removed(before.insert(stream_id, state), stream_id);
        }
        self.streams.insert(stream_id, state);

        // Force transport stream creation after registering DoQ state. Roll
        // back the registration if it fails.
        let nothing: Vec<u8> = Vec::new();
        match conn.stream_send(stream_id, nothing.as_slice(), false) {
            Ok(_) => {},
            Err(TransportError::StreamStopped(_)) => {
                self.streams.remove(&stream_id);
                return self.fail_protocol_error(conn);
            },
            Err(e) => {
                self.streams.remove(&stream_id);
                return Err(Error::from(e));
            },
        }

        if let Err(e) = self.flush_query(conn, stream_id) {
            // A write reports accepted bytes only when it succeeds. Every error
            // path above returns before accepting query bytes;
            // `ProtocolError` additionally attempts to close the connection.
            proof {
                lemma_removed(self.streams@, stream_id);
            }
            self.streams.remove(&stream_id);
            return Err(e);
        }
        match self.next_query_stream_id.checked_add(4) {
            Some(next) => {
                self.next_query_stream_id = next;
                Ok(stream_id)
            },
            None => Err(Error::StreamIdExhausted),
        }
    }

    /// Flushes framed query bytes queued by [`send_query`](Self::send_query).
    ///
    /// This probes the QUIC send side even after the query bytes have drained.
    pub fn flush_query(&mut self, conn: &mut Transport, stream_id: u64) -> (r: Result<(), Error>)
        ensures
            final(self)@ == old(self)@.flush_query(old(conn)@, stream_id).doq,
            final(conn)@ == old(self)@.flush_query(old(conn)@, stream_id).quic,
            r == old(self)@.flush_query(old(conn)@, stream_id).result,
    {
        if self.is_server {
            return Err(Error::ClientOnly);
        }
        match self.streams.get(&stream_id) {
            None => {
                return Err(Error::UnknownStream);
            },
            Some(state) => {
                if !state.is_local {
                    return Err(Error::UnknownStream);
                }
            },
        }
        if let Err(e) = self.probe_query_stream(conn, stream_id) {
            return Err(e);
        }
        let ghost table = self.streams@;
        proof {
            lemma_removed(table, stream_id);
        }
        match self.streams.remove(&stream_id) {
            None => Err(Error::UnknownStream),
            Some(mut state) => {
                if state.send_buf.is_empty() {
                    self.streams.insert(stream_id, state);
                    return Ok(());
                }
                let sent = conn.stream_send(stream_id, state.send_buf.as_slice(), true);
                match sent {
                    // A write can be partial. The fin is suppressed unless the
                    // whole buffer fits, so the fin lands with the last byte.
                    Ok(n) => {
                        drop_front(&mut state.send_buf, n);
                        proof {
                            lemma_replaced(table, stream_id, state);
                        }
                        self.streams.insert(stream_id, state);
                        Ok(())
                    },
                    // The stream had no send capacity, so no byte moved. The
                    // queued bytes stay in `send_buf`, where `query_pending`
                    // reports them until a later call drains them.
                    Err(TransportError::Done) => {
                        self.streams.insert(stream_id, state);
                        Ok(())
                    },
                    // RFC 9250, Section 4.3.3 lists "a client receives a
                    // STOP_SENDING request" among the fatal error conditions.
                    // <https://datatracker.ietf.org/doc/html/rfc9250#section-4.3.3>
                    // The server role stays per-stream. RFC 9250, Section 4.3.1:
                    // "Servers SHOULD NOT continue processing a DNS transaction
                    // if they receive a STOP_SENDING."
                    // <https://datatracker.ietf.org/doc/html/rfc9250#section-4.3.1>
                    Err(TransportError::StreamStopped(_)) => {
                        self.streams.insert(stream_id, state);
                        self.fail_protocol_error(conn)
                    },
                    Err(e) => {
                        self.streams.insert(stream_id, state);
                        Err(Error::from(e))
                    },
                }
            },
        }
    }

    /// Returns whether a query still has bytes waiting for QUIC send capacity.
    pub fn query_pending(&self, stream_id: u64) -> (r: bool)
        ensures
            r <==> self@.is_query_stream(stream_id) && self@.has_unsent(stream_id),
    {
        match self.streams.get(&stream_id) {
            Some(s) => s.is_local && !s.send_buf.is_empty(),
            None => false,
        }
    }

    /// Cancels the outstanding query on `stream_id`.
    ///
    /// RFC 9250, Section 4.3.1: "If a DoQ client wishes to cancel an
    /// outstanding request, it MUST issue a QUIC STOP_SENDING, and it SHOULD
    /// use the error code DOQ_REQUEST_CANCELLED.  It MAY use a more specific
    /// error code registered according to Section 8.4."
    /// <https://datatracker.ietf.org/doc/html/rfc9250#section-4.3.1>
    /// Pass [`DoqError::RequestCancelled`] as `error` unless a more specific
    /// code applies.
    ///
    /// RFC 9250, Section 4.3.1: "The STOP_SENDING request may be sent at any
    /// time but will have no effect if the server response has already been
    /// sent, in which case the client will simply discard the incoming
    /// response.  The corresponding DNS transaction MUST be abandoned."
    /// <https://datatracker.ietf.org/doc/html/rfc9250#section-4.3.1>
    /// The stream state is dropped, and so are the events of the stream that
    /// were not returned yet, so a response already in flight is discarded
    /// instead of being surfaced as an [`Event`].
    ///
    /// Returns `Err(Error::UnknownStream)` if `stream_id` is not a query
    /// stream this `Connection` opened, which includes an already-completed
    /// or already-cancelled one.
    pub fn cancel_query(&mut self, conn: &mut Transport, stream_id: u64, error: u64) -> (r: Result<
        (),
        Error,
    >)
        ensures
            final(self)@ == old(self)@.cancel_query(old(conn)@, stream_id, error).doq,
            final(conn)@ == old(self)@.cancel_query(old(conn)@, stream_id, error).quic,
            r == old(self)@.cancel_query(old(conn)@, stream_id, error).result,
    {
        if self.is_server {
            return Err(Error::ClientOnly);
        }
        // Queued bytes mean the fin never reached the peer: `flush_query`
        // asks for it with the last byte of the query, and it is suppressed
        // on a partial write. Read this before dropping the state.
        let query_unsent = match self.streams.get(&stream_id) {
            None => {
                return Err(Error::UnknownStream);
            },
            Some(state) => {
                if !state.is_local {
                    return Err(Error::UnknownStream);
                }
                !state.send_buf.is_empty()
            },
        };
        proof {
            lemma_removed(self.streams@, stream_id);
        }
        self.streams.remove(&stream_id);
        self.drop_pending(stream_id);

        // Shut the read side down first, so the stream stops being readable
        // even if the send side below reports an error.
        match conn.stream_shutdown(stream_id, Shutdown::Read, error) {
            Ok(()) | Err(TransportError::Done) => {},
            Err(e) => {
                return Err(Error::from(e));
            },
        }
        if query_unsent {
            // RFC 9250, Section 4.3.1: "Servers MUST NOT continue processing
            // a DNS transaction if they receive a RESET_STREAM request from
            // the client before the client indicates the STREAM FIN."
            // <https://datatracker.ietf.org/doc/html/rfc9250#section-4.3.1>
            // A half-sent query would otherwise leave the server waiting on
            // a fin that never arrives.
            match conn.stream_shutdown(stream_id, Shutdown::Write, error) {
                Ok(()) | Err(TransportError::Done) => {},
                Err(e) => {
                    return Err(Error::from(e));
                },
            }
        }
        Ok(())
    }

    /// Queues a DNS response message on `stream_id`, framed with the 2-octet
    /// length prefix, and writes as much of it as the stream's current send
    /// capacity allows.
    ///
    /// `data` is sent verbatim: no padding or other mutation. `fin` marks
    /// this as the last response for the transaction; a zone-transfer stream
    /// sends one or more calls with `fin = false` followed by a final call
    /// with `fin = true`.
    ///
    /// A framed message that doesn't fit in the stream's current capacity is
    /// written partially and the remainder is buffered; the caller should
    /// invoke [`flush_response`](Self::flush_response) once the stream is
    /// reported writable again to send more. Splitting a single framed
    /// message across several QUIC stream writes is transparent to the peer,
    /// which reassembles the length prefix and body from the ordered byte
    /// stream exactly as DNS over TCP does (RFC 9250, Section 4.2; RFC 1035,
    /// Section 4.2.2).
    /// Use [`response_pending`](Self::response_pending) to tell whether queued
    /// bytes remain.
    /// <https://datatracker.ietf.org/doc/html/rfc9250#section-4.2>
    /// <https://datatracker.ietf.org/doc/html/rfc1035#section-4.2.2>
    ///
    /// Returns `Err(Error::UnknownStream)` if `stream_id` was never seen as a
    /// query stream, has already been completed (its final response was
    /// queued with `fin = true`), or has been reset: a normal race with the
    /// peer, not a bug, to be treated as a no-op. Returns
    /// `Err(Error::MessageTooLarge)` if `data` is larger than the 65535 bytes
    /// the 2-octet length prefix can represent.
    pub fn send_response(
        &mut self,
        conn: &mut Transport,
        stream_id: u64,
        data: &[u8],
        fin: bool,
    ) -> (r: Result<(), Error>)
        ensures
            final(self)@ == old(self)@.send_response(old(conn)@, stream_id, data@, fin).doq,
            final(conn)@ == old(self)@.send_response(old(conn)@, stream_id, data@, fin).quic,
            r == old(self)@.send_response(old(conn)@, stream_id, data@, fin).result,
    {
        let ghost table = self.streams@;
        proof {
            lemma_removed(table, stream_id);
        }
        match self.streams.remove(&stream_id) {
            None => Err(Error::UnknownStream),
            Some(mut state) => {
                // A stream whose final response is already queued is treated as
                // completed and no longer accepts responses.
                if state.send_fin {
                    self.streams.insert(stream_id, state);
                    return Err(Error::UnknownStream);
                }
                // The 65535-byte limit is checked before anything is written, so
                // no partial frame is left in `send_buf` on error. The new
                // message is appended after any not-yet-written remainder
                // already queued on this stream.
                if let Err(e) = write_dns_message(&mut state.send_buf, data) {
                    proof {
                        lemma_replaced(table, stream_id, state);
                        assert(stream_views(table).insert(stream_id, state@) =~= stream_views(
                            table,
                        ));
                    }
                    self.streams.insert(stream_id, state);
                    return Err(Error::from(e));
                }
                state.send_fin = fin;
                proof {
                    lemma_replaced(table, stream_id, state);
                }
                self.streams.insert(stream_id, state);
                self.flush_response(conn, stream_id)
            },
        }
    }

    /// Writes as many queued response bytes for `stream_id` as the stream's
    /// current send capacity allows, delivering the STREAM FIN only once the
    /// final queued byte is written.
    ///
    /// Call this when the stream is reported writable to drain a response
    /// that [`send_response`](Self::send_response) couldn't write in one go.
    /// The FIN flag is cleared on any capacity-truncated write, so passing
    /// the whole remaining buffer on each call delivers the FIN exactly when
    /// the last byte is accepted.
    ///
    /// Returns `Ok(())` whether or not any bytes were written (a stream with
    /// no capacity is a normal, retryable condition); use
    /// [`response_pending`](Self::response_pending) to tell whether data
    /// remains queued. Returns `Err(Error::UnknownStream)` if the stream
    /// isn't tracked, or a [`Error::TransportError`] if the peer stopped the
    /// stream (`STOP_SENDING`) as described by RFC 9250, Section 4.3.1.
    /// <https://datatracker.ietf.org/doc/html/rfc9250#section-4.3.1>
    pub fn flush_response(&mut self, conn: &mut Transport, stream_id: u64) -> (r: Result<(), Error>)
        ensures
            final(self)@ == old(self)@.flush_response(old(conn)@, stream_id).doq,
            final(conn)@ == old(self)@.flush_response(old(conn)@, stream_id).quic,
            r == old(self)@.flush_response(old(conn)@, stream_id).result,
    {
        let ghost table = self.streams@;
        proof {
            lemma_removed(table, stream_id);
        }
        match self.streams.remove(&stream_id) {
            None => Err(Error::UnknownStream),
            Some(mut state) => {
                if state.send_buf.is_empty() && !state.send_fin {
                    self.streams.insert(stream_id, state);
                    return Ok(());
                }
                match conn.stream_send(stream_id, state.send_buf.as_slice(), state.send_fin) {
                    Ok(n) => {
                        // Drop the bytes that were accepted; `send_buf` keeps
                        // only the not-yet-written remainder.
                        drop_front(&mut state.send_buf, n);
                        // An empty buffer means that the whole of it was
                        // written. The FIN flag is kept on a write that is
                        // accepted in full, so the FIN (if any) was delivered
                        // on this call and the transaction is complete: the
                        // state stays dropped.
                        if !(state.send_buf.is_empty() && state.send_fin) {
                            proof {
                                lemma_replaced(table, stream_id, state);
                            }
                            self.streams.insert(stream_id, state);
                        }
                        Ok(())
                    },
                    // No capacity right now; retry when the stream is writable
                    // again.
                    Err(TransportError::Done) => {
                        self.streams.insert(stream_id, state);
                        Ok(())
                    },
                    Err(e) => {
                        self.streams.insert(stream_id, state);
                        Err(Error::from(e))
                    },
                }
            },
        }
    }

    /// Returns `true` if `stream_id` has queued response bytes not yet
    /// accepted by the QUIC layer.
    ///
    /// A driver uses this to decide whether to wait for the stream to become
    /// writable before pulling the next response from the application, so the
    /// per-stream buffer stays bounded to roughly one in-flight message.
    pub fn response_pending(&self, stream_id: u64) -> (r: bool)
        ensures
            r == self@.has_unsent(stream_id),
    {
        match self.streams.get(&stream_id) {
            Some(s) => !s.send_buf.is_empty(),
            None => false,
        }
    }

    /// Abandons the transaction on `stream_id`, sending `RESET_STREAM` with
    /// the given DoQ error code and dropping the stream's state as described
    /// by RFC 9250, Section 4.3.2.
    /// <https://datatracker.ietf.org/doc/html/rfc9250#section-4.3.2>
    ///
    /// Returns `Err(Error::UnknownStream)` if `stream_id` was never seen or
    /// has already been completed or reset.
    pub fn reset_stream(&mut self, conn: &mut Transport, stream_id: u64, error: u64) -> (r: Result<
        (),
        Error,
    >)
        ensures
            final(self)@ == old(self)@.reset_stream(old(conn)@, stream_id, error).doq,
            final(conn)@ == old(self)@.reset_stream(old(conn)@, stream_id, error).quic,
            r == old(self)@.reset_stream(old(conn)@, stream_id, error).result,
    {
        proof {
            lemma_removed(self.streams@, stream_id);
        }
        if self.streams.remove(&stream_id).is_none() {
            return Err(Error::UnknownStream);
        }
        match conn.stream_shutdown(stream_id, Shutdown::Write, error) {
            Ok(()) | Err(TransportError::Done) => Ok(()),
            Err(e) => Err(Error::from(e)),
        }
    }

    /// Classifies `stream_id` per the DoQ stream-usage rules and, if it's a
    /// stream this `Connection` is responsible for, reads and reassembles
    /// any newly available bytes and returns the resulting events (possibly
    /// more than one, for a client-role multi-response stream; possibly
    /// none, if no complete message is ready yet).
    pub fn process_readable_stream(&mut self, conn: &mut Transport, stream_id: u64) -> (r: Result<
        Vec<Event>,
        Error,
    >)
        ensures
            final(self)@ == old(self)@.process_readable_stream(old(conn)@, stream_id).doq,
            final(conn)@ == old(self)@.process_readable_stream(old(conn)@, stream_id).quic,
            processed(r) == old(self)@.process_readable_stream(old(conn)@, stream_id).result,
    {
        let mut events: Vec<Event> = Vec::new();
        assert(event_views(events@) =~= Seq::empty());
        let peer_initiated = !is_local(stream_id, self.is_server);
        if self.is_server {
            // DoQ servers never open streams of their own; a readable
            // locally-initiated stream can't happen in practice and isn't
            // ours to process.
            if !peer_initiated {
                return Ok(events);
            }
            // Clients MUST send queries on a bidirectional stream per RFC
            // 9250, Section 4.3.3.
            // <https://datatracker.ietf.org/doc/html/rfc9250#section-4.3.3>
            if !is_bidi(stream_id) {
                return Err(Error::ProtocolError);
            }
        } else {
            // A client-role `Connection` only ever reads on the
            // bidirectional streams it opened itself to send queries;
            // servers never initiate streams in DoQ per RFC 9250, Sections
            // 3.4 and 4.3.3.
            // <https://datatracker.ietf.org/doc/html/rfc9250#section-3.4>
            // <https://datatracker.ietf.org/doc/html/rfc9250#section-4.3.3>
            if peer_initiated {
                return Err(Error::ProtocolError);
            }
            if !is_bidi(stream_id) {
                return Ok(events);
            }
        }
        match self.read_stream(conn, stream_id) {
            Err(e) => {
                return Err(e);
            },
            Ok(Some(error)) => {
                events.push(Event::Reset(error));
                assert(event_views(events@) =~= seq![EventView::Reset(error)]);
                return Ok(events);
            },
            Ok(None) => {},
        }
        if self.is_server {
            self.drain_server_stream(stream_id)
        } else {
            self.drain_client_stream(stream_id)
        }
    }

    /// Queues events of a stream behind those that are pending.
    fn queue(&mut self, stream_id: u64, events: Vec<Event>)
        ensures
            final(self)@ == (ConnectionView {
                pending: old(self)@.pending + on_stream(stream_id, event_views(events@)),
                ..old(self)@
            }),
    {
        let ghost all = events@;
        let ghost c = self@;
        assert(on_stream(stream_id, event_views(all.take(0))) =~= Seq::empty());
        assert(c.pending + on_stream(stream_id, event_views(all.take(0))) =~= c.pending);
        for event in it: events
            invariant
                it.seq() == all,
                self@ == (ConnectionView {
                    pending: c.pending + on_stream(
                        stream_id,
                        event_views(all.take(it.index() as int)),
                    ),
                    ..c
                }),
        {
            let ghost i = it.index() as int;
            let ghost queued = self.pending@;
            assert(all.take(i + 1) =~= all.take(i).push(event));
            assert(on_stream(stream_id, event_views(all.take(i + 1))) =~= on_stream(
                stream_id,
                event_views(all.take(i)),
            ).push((stream_id, event@)));
            self.pending.push_back((stream_id, event));
            assert(pending_views(self.pending@) =~= pending_views(queued).push(
                (stream_id, event@),
            ));
            assert(self@.pending =~= c.pending + on_stream(
                stream_id,
                event_views(all.take(i + 1)),
            ));
        }
        assert(all.take(all.len() as int) =~= all);
    }

    /// Drops the pending events of a stream.
    fn drop_pending(&mut self, stream_id: u64)
        ensures
            final(self)@ == (ConnectionView {
                pending: old(self)@.pending.filter(of_other_stream(stream_id)),
                ..old(self)@
            }),
    {
        let ghost all = self.pending@;
        let ghost keep = of_other_stream(stream_id);
        let mut rest: VecDeque<(u64, Event)> = VecDeque::new();
        proof {
            reveal(Seq::filter);
            assert(pending_views(all.take(0)).filter(keep) =~= Seq::empty());
            assert(pending_views(rest@) =~= Seq::empty());
            assert(all.skip(0) =~= all);
        }
        let ghost mut i: int = 0;
        loop
            invariant_except_break
                0 <= i <= all.len(),
                self.pending@ == all.skip(i),
                pending_views(rest@) == pending_views(all.take(i)).filter(keep),
            invariant
                keep == of_other_stream(stream_id),
                all == old(self).pending@,
                self.is_server == old(self).is_server,
                self.next_query_stream_id == old(self).next_query_stream_id,
                self.streams == old(self).streams,
            ensures
                pending_views(rest@) == pending_views(all).filter(keep),
            decreases self.pending@.len(),
        {
            let (id, event) = match self.pending.pop_front() {
                Some(e) => e,
                None => {
                    assert(all.take(i) =~= all);
                    break;
                },
            };
            proof {
                let before = pending_views(all.take(i));
                let more = pending_views(all.take(i + 1));
                assert(all.skip(i)[0] == all[i]);
                assert(all.skip(i).drop_first() =~= all.skip(i + 1));
                assert(more.drop_last() =~= before);
                assert(more.last() == (id, event@));
                assert(more.filter(keep) == if id != stream_id {
                    before.filter(keep).push((id, event@))
                } else {
                    before.filter(keep)
                }) by {
                    reveal(Seq::filter);
                }
                i = i + 1;
            }
            let ghost kept = rest@;
            if id != stream_id {
                rest.push_back((id, event));
                assert(pending_views(rest@) =~= pending_views(kept).push((id, event@)));
            }
        }
        self.pending = rest;
    }

    /// Drains all currently-available bytes for `stream_id` from the QUIC
    /// layer into the stream's reassembly buffer.
    ///
    /// Returns `Ok(Some(error))` if the peer reset the stream with the given
    /// wire error code, dropping the stream's state and not draining any
    /// further; the caller should surface this as `Event::Reset(error)`. If
    /// the server's own reset below fails instead, this returns that error.
    /// RFC 9250, Section 4.3.1 requires the following behavior:
    /// "Servers MUST NOT continue processing a DNS transaction if they
    /// receive a RESET_STREAM request from the client before the client
    /// indicates the STREAM FIN. The server MUST issue a RESET_STREAM to
    /// indicate that the transaction is abandoned unless: it has already
    /// done so for another reason or it has already both sent the
    /// response and indicated the STREAM FIN."
    /// <https://datatracker.ietf.org/doc/html/rfc9250#section-4.3.1>
    pub fn read_stream(&mut self, conn: &mut Transport, stream_id: u64) -> (r: Result<
        Option<u64>,
        Error,
    >)
        ensures
            final(self)@ == old(self)@.read_stream(old(conn)@, stream_id).doq,
            final(conn)@ == old(self)@.read_stream(old(conn)@, stream_id).quic,
            r == old(self)@.read_stream(old(conn)@, stream_id).result,
    {
        let ghost outcome = self@.read_stream(conn@, stream_id);
        loop
            invariant_except_break
                outcome == self@.read_stream(conn@, stream_id),
            invariant
                outcome == old(self)@.read_stream(old(conn)@, stream_id),
            ensures
                outcome == (Outcome { doq: self@, quic: conn@, result: Ok(None::<u64>) }),
            decreases conn@.streams[stream_id].recv_data.len(),
        {
            let ghost c = self@;
            let ghost q = conn@;
            // Noted when the first bytes arrived, so a handshake that completes
            // between data arrival and this call doesn't make 0-RTT data look
            // like it arrived after the handshake was confirmed. Only matters
            // for the first read on a stream, but that's exactly the read that
            // sets the flag.
            let is_0rtt = conn.stream_arrived_early(stream_id);
            let ghost table = self.streams@;
            proof {
                lemma_removed(table, stream_id);
            }
            match conn.stream_recv(stream_id, READ_CHUNK) {
                Ok((data, fin)) => {
                    let mut data = data;
                    let len = data.len();
                    let ghost chunk = data@;
                    let mut state = match self.streams.remove(&stream_id) {
                        Some(s) => s,
                        None => StreamState::new(is_0rtt),
                    };
                    state.recv_buf.append(&mut data);
                    if self.is_server && state.recv_buf.len() > MAX_DOQ_MESSAGE_LEN {
                        proof {
                            lemma_read_excess(c, q, stream_id, conn@, chunk, fin);
                        }
                        return Err(Error::ProtocolError);
                    }
                    if fin {
                        // Once FIN is delivered, the stream may be gone if the
                        // local send side is also already complete, so stop
                        // here rather than looping once more.
                        state.fin_received = true;
                        proof {
                            lemma_replaced(table, stream_id, state);
                        }
                        self.streams.insert(stream_id, state);
                        break;
                    }
                    proof {
                        lemma_replaced(table, stream_id, state);
                        lemma_read_step(c, q, stream_id, conn@, chunk);
                    }
                    self.streams.insert(stream_id, state);
                    if len == 0 {
                        break;
                    }
                },
                Err(TransportError::Done) => {
                    break;
                },
                Err(TransportError::StreamReset(error)) => {
                    // If the peer had already sent FIN, this branch isn't
                    // entered at all: a RESET_STREAM behind it doesn't
                    // resurface, so there is nothing to check for that case.
                    //
                    // Whether this stream was already reset (e.g. via
                    // `reset_stream`) isn't checked because shutting it down
                    // again below is a no-op.
                    //
                    // Only whether the server already sent the response with
                    // FIN is checked. `self.streams` has no entry for it in
                    // that case (`flush_response` removes it once fully
                    // drained), so `conn` is asked instead: the RESET_STREAM
                    // being handled here always finishes the receive side, so
                    // `stream_closed` (both directions finished) is true here
                    // exactly when the send side had already finished too.
                    let fin_sent = conn.stream_closed(stream_id);
                    self.streams.remove(&stream_id);
                    if self.is_server && !fin_sent {
                        match conn.stream_shutdown(stream_id, Shutdown::Write, error) {
                            Ok(()) | Err(TransportError::Done) => {},
                            Err(e) => {
                                return Err(Error::from(e));
                            },
                        }
                    }
                    return Ok(Some(error));
                },
                Err(e) => {
                    return Err(Error::from(e));
                },
            }
        }
        Ok(None)
    }

    /// Server-role reassembly: at most one `Event::Query` per stream, held
    /// back until STREAM FIN arrives so a truncated message or a second query
    /// on the same stream is rejected as a protocol error instead of surfaced.
    pub fn drain_server_stream(&mut self, stream_id: u64) -> (r: Result<Vec<Event>, Error>)
        ensures
            final(self)@ == old(self)@.drain_server(stream_id).0,
            processed(r) == old(self)@.drain_server(stream_id).1,
    {
        let mut events: Vec<Event> = Vec::new();
        assert(event_views(events@) =~= Seq::empty());
        let ghost table = self.streams@;
        proof {
            lemma_removed(table, stream_id);
        }
        match self.streams.remove(&stream_id) {
            None => Ok(events),
            Some(mut state) => {
                let query = match read_dns_message(state.recv_buf.as_slice()) {
                    Ok((data, consumed)) => Some((slice_to_vec(data), consumed)),
                    Err(_) => None,
                };
                let mut bad = false;
                if state.event_triggered {
                    bad = !state.recv_buf.is_empty();
                } else {
                    match query {
                        Some((data, consumed)) => {
                            // Bytes beyond the first complete message are a
                            // second query framed on the same stream per RFC
                            // 9250, Section 4.3.3, regardless of whether FIN
                            // has arrived yet.
                            // <https://datatracker.ietf.org/doc/html/rfc9250#section-4.3.3>
                            if consumed < state.recv_buf.len() {
                                bad = true;
                            } else if state.fin_received {
                                let is_0rtt = state.is_0rtt;
                                state.event_triggered = true;
                                state.recv_buf.clear();
                                proof {
                                    lemma_replaced(table, stream_id, state);
                                }
                                self.streams.insert(stream_id, state);
                                events.push(Event::Query { data, is_0rtt });
                                assert(event_views(events@) =~= seq![
                                    EventView::Query { data: data@, is_0rtt },
                                ]);
                                return Ok(events);
                            }
                        },
                        // STREAM FIN before a full message arrived is a
                        // truncated message per RFC 9250, Section 4.3.3.
                        // <https://datatracker.ietf.org/doc/html/rfc9250#section-4.3.3>
                        None => {
                            bad = state.fin_received;
                        },
                    }
                }
                self.streams.insert(stream_id, state);
                if bad {
                    Err(Error::ProtocolError)
                } else {
                    Ok(events)
                }
            },
        }
    }

    /// Client-role reassembly: extracts every currently-complete response
    /// message (a zone-transfer stream may have several buffered at once),
    /// followed by `Event::Finished` once STREAM FIN arrives with no
    /// trailing partial message left in the buffer.
    pub fn drain_client_stream(&mut self, stream_id: u64) -> (r: Result<Vec<Event>, Error>)
        ensures
            final(self)@ == old(self)@.drain_client(stream_id).0,
            processed(r) == old(self)@.drain_client(stream_id).1,
    {
        let mut events: Vec<Event> = Vec::new();
        assert(event_views(events@) =~= Seq::empty());
        let ghost table = self.streams@;
        proof {
            lemma_removed(table, stream_id);
        }
        match self.streams.remove(&stream_id) {
            None => Ok(events),
            Some(mut state) => {
                let ghost s = state@;
                assert(event_views(events@) + responses(messages(s.recv_buf)) =~= responses(
                    messages(s.recv_buf),
                ));
                loop
                    invariant_except_break
                        event_views(events@) + responses(messages(state.recv_buf@)) == responses(
                            messages(s.recv_buf),
                        ),
                        remainder(state.recv_buf@) == remainder(s.recv_buf),
                        state.event_triggered == (s.event_triggered || events@.len() > 0),
                        state@ == (StreamView {
                            recv_buf: state.recv_buf@,
                            event_triggered: state.event_triggered,
                            ..s
                        }),
                    ensures
                        event_views(events@) == responses(messages(s.recv_buf)),
                        state@ == (StreamView {
                            recv_buf: remainder(s.recv_buf),
                            event_triggered: s.event_triggered || events@.len() > 0,
                            ..s
                        }),
                    decreases state.recv_buf@.len(),
                {
                    let ghost buf = state.recv_buf@;
                    let next = match read_dns_message(state.recv_buf.as_slice()) {
                        Ok((data, consumed)) => Some((slice_to_vec(data), consumed)),
                        Err(_) => None,
                    };
                    match next {
                        Some((data, consumed)) => {
                            let ghost found = events@;
                            let ghost rest = buf.skip(consumed as int);
                            drop_front(&mut state.recv_buf, consumed);
                            state.event_triggered = true;
                            events.push(Event::Response { data });
                            assert(event_views(events@) =~= event_views(found).push(
                                EventView::Response { data: data@ },
                            ));
                            assert(messages(buf) == seq![data@] + messages(rest));
                            assert(responses(messages(buf)) =~= seq![
                                EventView::Response { data: data@ },
                            ] + responses(messages(rest)));
                            assert(event_views(events@) + responses(messages(rest))
                                =~= event_views(found) + responses(messages(buf)));
                        },
                        None => {
                            assert(responses(messages(buf)) =~= Seq::empty());
                            assert(event_views(events@) =~= responses(messages(s.recv_buf)));
                            break;
                        },
                    }
                }
                assert(events@.len() == messages(s.recv_buf).len());
                proof {
                    lemma_replaced(table, stream_id, state);
                }
                if state.fin_received {
                    // RFC 9250, Section 4.2 requires a server response before
                    // FIN. Section 4.3.3 makes a FIN before a response a
                    // protocol error.
                    // <https://datatracker.ietf.org/doc/html/rfc9250#section-4.2>
                    // <https://datatracker.ietf.org/doc/html/rfc9250#section-4.3.3>
                    if !state.event_triggered || !state.recv_buf.is_empty() {
                        self.streams.insert(stream_id, state);
                        return Err(Error::ProtocolError);
                    }
                    let ghost found = events@;
                    events.push(Event::Finished);
                    assert(event_views(events@) =~= event_views(found).push(EventView::Finished));
                } else {
                    self.streams.insert(stream_id, state);
                }
                Ok(events)
            },
        }
    }

    /// Checks the send-side status of a locally opened query stream.
    pub fn probe_query_stream(&self, conn: &mut Transport, stream_id: u64) -> (r: Result<(), Error>)
        ensures
            final(conn)@ == self@.probe(old(conn)@, stream_id).quic,
            r == self@.probe(old(conn)@, stream_id).result,
    {
        match conn.stream_capacity(stream_id) {
            Ok(_) => Ok(()),
            // Fatal for the client role, as in `flush_query`. RFC 9250,
            // Section 4.3.3 lists "a client receives a STOP_SENDING request"
            // among the fatal error conditions.
            // <https://datatracker.ietf.org/doc/html/rfc9250#section-4.3.3>
            Err(TransportError::StreamStopped(_)) => self.fail_protocol_error(conn),
            Err(e) => Err(Error::from(e)),
        }
    }

    /// Closes the connection with `DOQ_PROTOCOL_ERROR` and returns
    /// [`Error::ProtocolError`].
    pub fn fail_protocol_error<T>(&self, conn: &mut Transport) -> (r: Result<T, Error>)
        ensures
            final(conn)@ == self@.fail::<T>(old(conn)@).quic,
            r == self@.fail::<T>(old(conn)@).result,
    {
        let reason: [u8; 18] = PROTOCOL_ERROR_REASON;
        assert(reason@ =~= crate::model::protocol_error_reason());
        match conn.close(true, DoqError::ProtocolError.to_wire(), reason.as_slice()) {
            Ok(()) => Err(Error::ProtocolError),
            Err(e) => Err(Error::from(e)),
        }
    }
}

} // verus!
