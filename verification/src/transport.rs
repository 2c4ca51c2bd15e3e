//! The part of a QUIC connection that DoQ reads and acts on.
//!
//! A [`Transport`] holds, as plain values, what the QUIC layer has to report
//! (received bytes, stream ends, send windows) and collects what it is asked
//! to do as a list of [`Action`]s. Whoever owns the QUIC connection brings the
//! values up to date before a call into this library, and carries the actions
//! out afterwards, in their order.

use std::collections::HashMap;
use std::collections::VecDeque;

use vstd::prelude::*;
use vstd::slice::{slice_subrange, slice_to_vec};

use crate::text::{decimal, decimal_chars};

verus! {

broadcast use vstd::std_specs::hash::group_hash_axioms;

/// An error of the QUIC layer.
#[derive(Debug, Clone, Copy, PartialEq, Eq)]
pub enum TransportError {
    /// There is no more work to do.
    Done,
    /// The stream does not exist, or not in a state that allows the operation.
    InvalidStreamState(u64),
    /// The peer allows no further stream.
    StreamLimit,
    /// The peer asked, with this code, that nothing more be sent on the stream
    /// (`STOP_SENDING`).
    StreamStopped(u64),
    /// The peer abandoned the stream with this code (`RESET_STREAM`).
    StreamReset(u64),
    /// Another error of the QUIC layer, by its name.
    Other(&'static str),
}

impl TransportError {
    /// The name of the error, with its number in brackets where it has one.
    pub open spec fn words(self) -> Seq<char> {
        match self {
            TransportError::Done => "Done"@,
            TransportError::InvalidStreamState(id) => "InvalidStreamState("@ + decimal_chars(
                id as nat,
            ) + ")"@,
            TransportError::StreamLimit => "StreamLimit"@,
            TransportError::StreamStopped(code) => "StreamStopped("@ + decimal_chars(code as nat)
                + ")"@,
            TransportError::StreamReset(code) => "StreamReset("@ + decimal_chars(code as nat)
                + ")"@,
            TransportError::Other(name) => name@,
        }
    }

    /// Names the error.
    pub fn text(&self) -> (text: String)
        ensures
            text@ == self.words(),
    {
        match *self {
            TransportError::Done => "Done".to_owned(),
            TransportError::InvalidStreamState(id) => numbered("InvalidStreamState(", id),
            TransportError::StreamLimit => "StreamLimit".to_owned(),
            TransportError::StreamStopped(code) => numbered("StreamStopped(", code),
            TransportError::StreamReset(code) => numbered("StreamReset(", code),
            TransportError::Other(name) => name.to_owned(),
        }
    }
}

/// A number behind a name and an open bracket, which is closed.
fn numbered(name: &str, n: u64) -> (text: String)
    ensures
        text@ == name@ + decimal_chars(n as nat) + ")"@,
{
    let mut text = name.to_owned();
    text.append(decimal(n).as_str());
    text.append(")");
    text
}

/// The direction in which a stream is shut down.
#[derive(Debug, Clone, Copy, PartialEq, Eq)]
pub enum Shutdown {
    /// The receiving side: the peer gets `STOP_SENDING`.
    Read,
    /// The sending side: the peer gets `RESET_STREAM`.
    Write,
}

/// Why the local endpoint closed the connection.
#[derive(Debug, PartialEq, Eq)]
pub struct ConnectionError {
    /// Whether the code is the application's, not QUIC's own.
    pub is_app: bool,
    /// The error code.
    pub error_code: u64,
    /// The reason phrase.
    pub reason: Vec<u8>,
}

/// How the receiving side of a stream goes on behind the bytes at hand.
#[derive(Debug, Clone, Copy, PartialEq, Eq)]
pub enum RecvEnd {
    /// More may follow.
    Open,
    /// Nothing follows: the peer ended the stream (STREAM FIN).
    Fin,
    /// The peer abandoned the stream with this code.
    Reset(u64),
    /// The end was already reported, or the side was shut down.
    Finished,
}

/// How the sending side of a stream ended.
#[derive(Debug, Clone, Copy, PartialEq, Eq)]
pub enum SendEnd {
    /// Not yet.
    Open,
    /// With STREAM FIN.
    Fin,
    /// With `RESET_STREAM`.
    Reset,
}

/// One stream of a [`Transport`].
#[derive(Debug, PartialEq, Eq)]
pub struct TransportStream {
    /// Bytes received in order and not yet handed out.
    pub recv_data: Vec<u8>,
    /// What stands behind those bytes.
    pub recv_end: RecvEnd,
    /// Whether the first bytes of the stream arrived while the connection was
    /// in early data.
    pub arrived_early: bool,
    /// How many more bytes the peer allows on this stream.
    pub send_window: usize,
    /// The code of the peer's `STOP_SENDING`, once it came.
    pub stopped: Option<u64>,
    /// How the sending side has ended, if it has.
    pub send_end: SendEnd,
}

/// Something that the QUIC layer is to do.
#[derive(Debug, PartialEq, Eq)]
pub enum Action {
    /// Open a stream.
    Open {
        /// The stream.
        stream_id: u64,
    },
    /// Send bytes on a stream.
    Send {
        /// The stream.
        stream_id: u64,
        /// The bytes.
        data: Vec<u8>,
        /// Whether STREAM FIN goes with the last of them.
        fin: bool,
    },
    /// Shut one direction of a stream down.
    Shutdown {
        /// The stream.
        stream_id: u64,
        /// The direction.
        direction: Shutdown,
        /// The code that the peer gets.
        error: u64,
    },
    /// Close the connection.
    Close {
        /// Whether the code is the application's, not QUIC's own.
        is_app: bool,
        /// The error code.
        error_code: u64,
        /// The reason phrase.
        reason: Vec<u8>,
    },
}

/// A QUIC connection as DoQ sees it.
#[derive(Debug, PartialEq, Eq)]
pub struct Transport {
    /// Whether the local endpoint is the server.
    pub is_server: bool,
    /// Whether the handshake is not yet complete and early data is in use.
    pub in_early_data: bool,
    /// Whether the peer, or a timeout, has ended the connection.
    pub closed: bool,
    /// Why the local endpoint closed the connection, once it did.
    pub local_error: Option<ConnectionError>,
    /// How many more bytes may be sent, over all streams.
    pub send_capacity: usize,
    /// How many more bidirectional streams may be opened.
    pub streams_left_bidi: u64,
    /// How many more unidirectional streams may be opened.
    pub streams_left_uni: u64,
    /// The send window of a stream that is opened.
    pub initial_window: usize,
    /// The streams that exist.
    pub streams: HashMap<u64, TransportStream>,
    /// The streams with something to read.
    pub readable: Vec<u64>,
    /// The streams that have become writable.
    pub writable: VecDeque<u64>,
    /// What is to be done, oldest first.
    pub actions: Vec<Action>,
}

/// Whether an endpoint opened the stream with this id itself.
pub open spec fn local_id(stream_id: u64, is_server: bool) -> bool {
    stream_id % 2 == if is_server { 1u64 } else { 0u64 }
}

/// Whether the stream with this id is bidirectional.
pub open spec fn bidi_id(stream_id: u64) -> bool {
    stream_id % 4 < 2
}

/// Returns whether an endpoint opened the stream itself.
pub fn is_local(stream_id: u64, is_server: bool) -> (r: bool)
    ensures
        r == local_id(stream_id, is_server),
{
    if is_server {
        stream_id % 2 == 1
    } else {
        stream_id % 2 == 0
    }
}

/// Returns whether the stream is bidirectional.
pub fn is_bidi(stream_id: u64) -> (r: bool)
    ensures
        r == bidi_id(stream_id),
{
    stream_id % 4 < 2
}

/// What a [`ConnectionError`] holds.
pub struct ConnectionErrorView {
    pub is_app: bool,
    pub error_code: u64,
    pub reason: Seq<u8>,
}

impl View for ConnectionError {
    type V = ConnectionErrorView;

    open spec fn view(&self) -> ConnectionErrorView {
        ConnectionErrorView {
            is_app: self.is_app,
            error_code: self.error_code,
            reason: self.reason@,
        }
    }
}

/// What a [`TransportStream`] holds.
#[verifier::ext_equal]
pub struct TransportStreamView {
    pub recv_data: Seq<u8>,
    pub recv_end: RecvEnd,
    pub arrived_early: bool,
    pub send_window: usize,
    pub stopped: Option<u64>,
    pub send_end: SendEnd,
}

impl View for TransportStream {
    type V = TransportStreamView;

    open spec fn view(&self) -> TransportStreamView {
        TransportStreamView {
            recv_data: self.recv_data@,
            recv_end: self.recv_end,
            arrived_early: self.arrived_early,
            send_window: self.send_window,
            stopped: self.stopped,
            send_end: self.send_end,
        }
    }
}

/// What an [`Action`] asks for.
pub enum ActionView {
    Open { stream_id: u64 },
    Send { stream_id: u64, data: Seq<u8>, fin: bool },
    Shutdown { stream_id: u64, direction: Shutdown, error: u64 },
    Close { is_app: bool, error_code: u64, reason: Seq<u8> },
}

impl View for Action {
    type V = ActionView;

    open spec fn view(&self) -> ActionView {
        match *self {
            Action::Open { stream_id } => ActionView::Open { stream_id },
            Action::Send { stream_id, data, fin } => ActionView::Send {
                stream_id,
                data: data@,
                fin,
            },
            Action::Shutdown { stream_id, direction, error } => ActionView::Shutdown {
                stream_id,
                direction,
                error,
            },
            Action::Close { is_app, error_code, reason } => ActionView::Close {
                is_app,
                error_code,
                reason: reason@,
            },
        }
    }
}

/// What a [`Transport`] holds.
#[verifier::ext_equal]
pub struct TransportView {
    pub is_server: bool,
    pub in_early_data: bool,
    pub closed: bool,
    pub local_error: Option<ConnectionErrorView>,
    pub send_capacity: usize,
    pub streams_left_bidi: u64,
    pub streams_left_uni: u64,
    pub initial_window: usize,
    pub streams: Map<u64, TransportStreamView>,
    pub readable: Seq<u64>,
    pub writable: Seq<u64>,
    pub actions: Seq<ActionView>,
}

/// The contents of a table of streams.
pub open spec fn transport_streams(m: Map<u64, TransportStream>) -> Map<u64, TransportStreamView> {
    m.map_values(|s: TransportStream| s@)
}

/// The contents of a list of actions.
pub open spec fn action_views(actions: Seq<Action>) -> Seq<ActionView> {
    actions.map_values(|a: Action| a@)
}

impl View for Transport {
    type V = TransportView;

    open spec fn view(&self) -> TransportView {
        TransportView {
            is_server: self.is_server,
            in_early_data: self.in_early_data,
            closed: self.closed,
            local_error: match self.local_error {
                Some(e) => Some(e@),
                None => None,
            },
            send_capacity: self.send_capacity,
            streams_left_bidi: self.streams_left_bidi,
            streams_left_uni: self.streams_left_uni,
            initial_window: self.initial_window,
            streams: transport_streams(self.streams@),
            readable: self.readable@,
            writable: self.writable@,
            actions: action_views(self.actions@),
        }
    }
}

/// Holds of every id but `stream_id`.
pub open spec fn other_than(stream_id: u64) -> spec_fn(u64) -> bool {
    |id: u64| id != stream_id
}

/// The ids other than `stream_id`, in their order.
pub open spec fn ids_without(ids: Seq<u64>, stream_id: u64) -> Seq<u64> {
    ids.filter(other_than(stream_id))
}

/// The smallest of three numbers.
pub open spec fn least(a: nat, b: nat, c: nat) -> nat {
    if a <= b && a <= c {
        a
    } else if b <= c {
        b
    } else {
        c
    }
}

impl TransportView {
    /// The same with one stream replaced.
    pub open spec fn with_stream(self, stream_id: u64, stream: TransportStreamView) -> Self {
        TransportView { streams: self.streams.insert(stream_id, stream), ..self }
    }

    /// The same with one more thing to do.
    pub open spec fn and_do(self, action: ActionView) -> Self {
        TransportView { actions: self.actions.push(action), ..self }
    }

    /// The same, with `stream_id` no longer reported as readable.
    pub open spec fn unreadable(self, stream_id: u64) -> Self {
        TransportView { readable: ids_without(self.readable, stream_id), ..self }
    }

    /// The same, with the receiving side of a stream at its end: nothing is
    /// left to read on it.
    pub open spec fn recv_finished(self, stream_id: u64) -> Self {
        self.with_stream(
            stream_id,
            TransportStreamView {
                recv_data: Seq::empty(),
                recv_end: RecvEnd::Finished,
                ..self.streams[stream_id]
            },
        ).unreadable(stream_id)
    }

    /// A stream that was just opened.
    pub open spec fn fresh_stream(self, stream_id: u64) -> TransportStreamView {
        TransportStreamView {
            recv_data: Seq::empty(),
            recv_end: if bidi_id(stream_id) {
                RecvEnd::Open
            } else {
                RecvEnd::Finished
            },
            arrived_early: false,
            send_window: self.initial_window,
            stopped: None,
            send_end: SendEnd::Open,
        }
    }

    /// The connection with the stream on it, which is opened if it is not there
    /// and the local endpoint may open it.
    pub open spec fn opened(self, stream_id: u64) -> Result<Self, TransportError> {
        if self.streams.contains_key(stream_id) {
            Ok(self)
        } else if !local_id(stream_id, self.is_server) {
            Err(TransportError::InvalidStreamState(stream_id))
        } else if bidi_id(stream_id) {
            if self.streams_left_bidi == 0 {
                Err(TransportError::StreamLimit)
            } else {
                Ok(
                    TransportView {
                        streams_left_bidi: (self.streams_left_bidi - 1) as u64,
                        ..self
                    }.with_stream(stream_id, self.fresh_stream(stream_id)).and_do(
                        ActionView::Open { stream_id },
                    ),
                )
            }
        } else {
            if self.streams_left_uni == 0 {
                Err(TransportError::StreamLimit)
            } else {
                Ok(
                    TransportView {
                        streams_left_uni: (self.streams_left_uni - 1) as u64,
                        ..self
                    }.with_stream(stream_id, self.fresh_stream(stream_id)).and_do(
                        ActionView::Open { stream_id },
                    ),
                )
            }
        }
    }

    /// Whether the first bytes of a stream arrived in early data.
    pub open spec fn arrived_early(self, stream_id: u64) -> bool {
        self.streams.contains_key(stream_id) && self.streams[stream_id].arrived_early
    }

    /// How many bytes the stream takes now.
    pub open spec fn capacity(self, stream_id: u64) -> Result<usize, TransportError> {
        if !self.streams.contains_key(stream_id) {
            Err(TransportError::InvalidStreamState(stream_id))
        } else {
            let s = self.streams[stream_id];
            match s.stopped {
                Some(code) => Err(TransportError::StreamStopped(code)),
                None => Ok(
                    if s.send_window <= self.send_capacity {
                        s.send_window
                    } else {
                        self.send_capacity
                    },
                ),
            }
        }
    }

    /// Whether the peer asked that nothing more be sent on a stream.
    pub open spec fn is_stopped(self, stream_id: u64) -> bool {
        self.streams.contains_key(stream_id) && self.streams[stream_id].stopped is Some
    }

    /// A write of `data`: as much of it is taken as the windows allow. STREAM
    /// FIN is taken only with the last byte.
    pub open spec fn send(self, stream_id: u64, data: Seq<u8>, fin: bool) -> (
        Self,
        Result<usize, TransportError>,
    ) {
        match self.opened(stream_id) {
            Err(e) => (self, Err(e)),
            Ok(t) => {
                let s = t.streams[stream_id];
                let n = least(data.len(), s.send_window as nat, t.send_capacity as nat);
                let last = fin && n == data.len();
                if s.stopped is Some {
                    (t, Err(TransportError::StreamStopped(s.stopped->0)))
                } else if !(s.send_end is Open) {
                    (t, Err(TransportError::InvalidStreamState(stream_id)))
                } else if n == 0 && data.len() > 0 {
                    (t, Err(TransportError::Done))
                } else if n == 0 && !last {
                    (t, Ok(0))
                } else {
                    (
                        TransportView {
                            send_capacity: (t.send_capacity - n) as usize,
                            ..t
                        }.with_stream(
                            stream_id,
                            TransportStreamView {
                                send_window: (s.send_window - n) as usize,
                                send_end: if last {
                                    SendEnd::Fin
                                } else {
                                    SendEnd::Open
                                },
                                ..s
                            },
                        ).and_do(
                            ActionView::Send { stream_id, data: data.take(n as int), fin: last },
                        ),
                        Ok(n as usize),
                    )
                }
            },
        }
    }

    /// A read of at most `max` bytes, and whether they end the stream.
    pub open spec fn recv(self, stream_id: u64, max: nat) -> (
        Self,
        Result<(Seq<u8>, bool), TransportError>,
    ) {
        if !self.streams.contains_key(stream_id) {
            (self, Err(TransportError::InvalidStreamState(stream_id)))
        } else {
            let s = self.streams[stream_id];
            let n = if s.recv_data.len() <= max {
                s.recv_data.len()
            } else {
                max
            };
            match s.recv_end {
                RecvEnd::Reset(code) => (
                    self.recv_finished(stream_id),
                    Err(TransportError::StreamReset(code)),
                ),
                RecvEnd::Fin if n == s.recv_data.len() => (
                    self.recv_finished(stream_id),
                    Ok((s.recv_data, true)),
                ),
                _ => if s.recv_data.len() == 0 {
                    (self.unreadable(stream_id), Err(TransportError::Done))
                } else {
                    (
                        self.with_stream(
                            stream_id,
                            TransportStreamView { recv_data: s.recv_data.skip(n as int), ..s },
                        ),
                        Ok((s.recv_data.take(n as int), false)),
                    )
                },
            }
        }
    }

    /// One direction of a stream shut down with a code, unless that has no
    /// effect: the receiving side has ended, or the sending side was reset or
    /// stopped.
    pub open spec fn shut_down(self, stream_id: u64, direction: Shutdown, error: u64) -> (
        Self,
        Result<(), TransportError>,
    ) {
        let action = ActionView::Shutdown { stream_id, direction, error };
        if !self.streams.contains_key(stream_id) {
            (self, Err(TransportError::Done))
        } else {
            let s = self.streams[stream_id];
            match direction {
                Shutdown::Read => if s.recv_end is Finished {
                    (self, Err(TransportError::Done))
                } else {
                    (self.recv_finished(stream_id).and_do(action), Ok(()))
                },
                Shutdown::Write => if s.stopped is Some || s.send_end is Reset {
                    (self, Err(TransportError::Done))
                } else {
                    (
                        self.with_stream(
                            stream_id,
                            TransportStreamView { send_end: SendEnd::Reset, ..s },
                        ).and_do(action),
                        Ok(()),
                    )
                },
            }
        }
    }

    /// Whether nothing more can be read from a stream.
    pub open spec fn recv_ended(self, stream_id: u64) -> bool {
        self.streams.contains_key(stream_id) ==> {
            &&& self.streams[stream_id].recv_end is Finished
            &&& self.streams[stream_id].recv_data.len() == 0
        }
    }

    /// Whether both directions of a stream have ended.
    pub open spec fn both_ended(self, stream_id: u64) -> bool {
        self.streams.contains_key(stream_id) ==> {
            &&& self.streams[stream_id].recv_end is Finished
            &&& !(self.streams[stream_id].send_end is Open)
        }
    }

    /// The connection closed with a code and a reason, unless it has ended.
    pub open spec fn close(self, is_app: bool, error_code: u64, reason: Seq<u8>) -> (
        Self,
        Result<(), TransportError>,
    ) {
        if self.closed || self.local_error is Some {
            (self, Err(TransportError::Done))
        } else {
            (
                TransportView {
                    local_error: Some(ConnectionErrorView { is_app, error_code, reason }),
                    ..self
                }.and_do(ActionView::Close { is_app, error_code, reason }),
                Ok(()),
            )
        }
    }
}

proof fn lemma_stream_replaced(m: Map<u64, TransportStream>, stream_id: u64, s: TransportStream)
    ensures
        transport_streams(m.remove(stream_id).insert(stream_id, s)) == transport_streams(m).insert(
            stream_id,
            s@,
        ),
{
    assert(transport_streams(m.remove(stream_id).insert(stream_id, s)) =~= transport_streams(
        m,
    ).insert(stream_id, s@));
}

proof fn lemma_stream_inserted(m: Map<u64, TransportStream>, stream_id: u64, s: TransportStream)
    ensures
        transport_streams(m.insert(stream_id, s)) == transport_streams(m).insert(stream_id, s@),
{
    assert(transport_streams(m.insert(stream_id, s)) =~= transport_streams(m).insert(
        stream_id,
        s@,
    ));
}

proof fn lemma_stream_put_back(m: Map<u64, TransportStream>, stream_id: u64)
    requires
        m.contains_key(stream_id),
    ensures
        m.remove(stream_id).insert(stream_id, m[stream_id]) == m,
{
    assert(m.remove(stream_id).insert(stream_id, m[stream_id]) =~= m);
}

proof fn lemma_action_added(actions: Seq<Action>, action: Action)
    ensures
        action_views(actions.push(action)) == action_views(actions).push(action@),
{
    assert(action_views(actions.push(action)) =~= action_views(actions).push(action@));
}

/// The ids other than `stream_id`, in their order.
fn without(ids: &Vec<u64>, stream_id: u64) -> (r: Vec<u64>)
    ensures
        r@ == ids_without(ids@, stream_id),
{
    let mut r: Vec<u64> = Vec::new();
    proof {
        reveal(Seq::filter);
    }
    assert(ids_without(ids@.take(0), stream_id) =~= Seq::<u64>::empty());
    for i in 0..ids.len()
        invariant
            r@ == ids_without(ids@.take(i as int), stream_id),
    {
        proof {
            reveal(Seq::filter);
        }
        assert(ids@.take(i + 1).drop_last() =~= ids@.take(i as int));
        if ids[i] != stream_id {
            r.push(ids[i]);
        }
    }
    assert(ids@.take(ids.len() as int) =~= ids@);
    r
}

impl Transport {
    /// A connection that holds nothing yet and allows nothing.
    pub fn new(is_server: bool) -> (t: Transport)
        ensures
            t@ == (TransportView {
                is_server,
                in_early_data: false,
                closed: false,
                local_error: None,
                send_capacity: 0,
                streams_left_bidi: 0,
                streams_left_uni: 0,
                initial_window: 0,
                streams: Map::empty(),
                readable: Seq::empty(),
                writable: Seq::empty(),
                actions: Seq::empty(),
            }),
    {
        let t = Transport {
            is_server,
            in_early_data: false,
            closed: false,
            local_error: None,
            send_capacity: 0,
            streams_left_bidi: 0,
            streams_left_uni: 0,
            initial_window: 0,
            streams: HashMap::new(),
            readable: Vec::new(),
            writable: VecDeque::new(),
            actions: Vec::new(),
        };
        assert(t@.streams =~= Map::empty());
        assert(t@.actions =~= Seq::empty());
        t
    }

    /// Returns whether the local endpoint is the server.
    pub fn is_server(&self) -> (r: bool)
        ensures
            r == self@.is_server,
    {
        self.is_server
    }

    /// Returns whether early data is in use.
    pub fn is_in_early_data(&self) -> (r: bool)
        ensures
            r == self@.in_early_data,
    {
        self.in_early_data
    }

    /// Returns why the local endpoint closed the connection, if it did.
    pub fn local_error(&self) -> (r: Option<&ConnectionError>)
        ensures
            match r {
                Some(e) => self@.local_error == Some(e@),
                None => self@.local_error is None,
            },
    {
        self.local_error.as_ref()
    }

    /// Returns the streams that can be read now.
    pub fn readable(&self) -> (ids: Vec<u64>)
        ensures
            ids@ == self@.readable,
    {
        slice_to_vec(self.readable.as_slice())
    }

    /// Returns the next stream that has become writable.
    pub fn stream_writable_next(&mut self) -> (r: Option<u64>)
        ensures
            match r {
                Some(id) => {
                    &&& old(self)@.writable.len() > 0
                    &&& id == old(self)@.writable[0]
                    &&& final(self)@ == (TransportView {
                        writable: old(self)@.writable.drop_first(),
                        ..old(self)@
                    })
                },
                None => old(self)@.writable.len() == 0 && final(self)@ == old(self)@,
            },
    {
        self.writable.pop_front()
    }

    /// Returns whether the first bytes of a stream arrived in early data.
    pub fn stream_arrived_early(&self, stream_id: u64) -> (r: bool)
        ensures
            r == self@.arrived_early(stream_id),
    {
        match self.streams.get(&stream_id) {
            None => false,
            Some(s) => s.arrived_early,
        }
    }

    /// Returns how many bytes the stream takes now.
    pub fn stream_capacity(&self, stream_id: u64) -> (r: Result<usize, TransportError>)
        ensures
            r == self@.capacity(stream_id),
    {
        match self.streams.get(&stream_id) {
            None => Err(TransportError::InvalidStreamState(stream_id)),
            Some(s) => match s.stopped {
                Some(code) => Err(TransportError::StreamStopped(code)),
                None => Ok(
                    if s.send_window <= self.send_capacity {
                        s.send_window
                    } else {
                        self.send_capacity
                    },
                ),
            },
        }
    }

    /// Opens the stream if it is not there.
    fn open(&mut self, stream_id: u64) -> (r: Result<(), TransportError>)
        ensures
            match r {
                Ok(()) => old(self)@.opened(stream_id) == Ok::<TransportView, TransportError>(
                    final(self)@,
                ) && final(self)@.streams.contains_key(stream_id),
                Err(e) => old(self)@.opened(stream_id) == Err::<TransportView, TransportError>(e)
                    && final(self)@ == old(self)@,
            },
    {
        if self.streams.contains_key(&stream_id) {
            return Ok(());
        }
        if !is_local(stream_id, self.is_server) {
            return Err(TransportError::InvalidStreamState(stream_id));
        }
        let bidi = is_bidi(stream_id);
        if bidi {
            if self.streams_left_bidi == 0 {
                return Err(TransportError::StreamLimit);
            }
            self.streams_left_bidi = self.streams_left_bidi - 1;
        } else {
            if self.streams_left_uni == 0 {
                return Err(TransportError::StreamLimit);
            }
            self.streams_left_uni = self.streams_left_uni - 1;
        }
        let s = TransportStream {
            recv_data: Vec::new(),
            recv_end: if bidi {
                RecvEnd::Open
            } else {
                RecvEnd::Finished
            },
            arrived_early: false,
            send_window: self.initial_window,
            stopped: None,
            send_end: SendEnd::Open,
        };
        let action = Action::Open { stream_id };
        proof {
            lemma_stream_inserted(self.streams@, stream_id, s);
            lemma_action_added(self.actions@, action);
        }
        self.streams.insert(stream_id, s);
        self.actions.push(action);
        Ok(())
    }

    /// Writes to a stream, which is opened if it is not there. Returns how many
    /// bytes were taken: fewer than `data` holds where the windows are short,
    /// and then without the STREAM FIN.
    pub fn stream_send(&mut self, stream_id: u64, data: &[u8], fin: bool) -> (r: Result<
        usize,
        TransportError,
    >)
        ensures
            (final(self)@, r) == old(self)@.send(stream_id, data@, fin),
    {
        match self.open(stream_id) {
            Ok(()) => {},
            Err(e) => {
                return Err(e);
            },
        }
        let ghost t = self@;
        let ghost table = self.streams@;
        let mut n: usize = data.len();
        match self.streams.remove(&stream_id) {
            None => Err(TransportError::InvalidStreamState(stream_id)),
            Some(mut s) => {
                if s.send_window < n {
                    n = s.send_window;
                }
                if self.send_capacity < n {
                    n = self.send_capacity;
                }
                let last = fin && n == data.len();
                let r = if let Some(code) = s.stopped {
                    Err(TransportError::StreamStopped(code))
                } else if !matches!(s.send_end, SendEnd::Open) {
                    Err(TransportError::InvalidStreamState(stream_id))
                } else if n == 0 && data.len() > 0 {
                    Err(TransportError::Done)
                } else {
                    Ok(n)
                };
                if r.is_err() || (n == 0 && !last) {
                    self.streams.insert(stream_id, s);
                    proof {
                        lemma_stream_put_back(table, stream_id);
                    }
                    return r;
                }
                let action = Action::Send {
                    stream_id,
                    data: slice_to_vec(slice_subrange(data, 0, n)),
                    fin: last,
                };
                s.send_window = s.send_window - n;
                if last {
                    s.send_end = SendEnd::Fin;
                }
                self.send_capacity = self.send_capacity - n;
                proof {
                    lemma_stream_replaced(table, stream_id, s);
                    lemma_action_added(self.actions@, action);
                    assert(data@.subrange(0, n as int) =~= data@.take(n as int));
                }
                self.streams.insert(stream_id, s);
                self.actions.push(action);
                r
            },
        }
    }

    /// Reads at most `max` bytes from a stream. Returns them, and whether they
    /// end the stream.
    pub fn stream_recv(&mut self, stream_id: u64, max: usize) -> (r: Result<
        (Vec<u8>, bool),
        TransportError,
    >)
        ensures
            final(self)@ == old(self)@.recv(stream_id, max as nat).0,
            match r {
                Ok((data, fin)) => old(self)@.recv(stream_id, max as nat).1 == Ok::<
                    (Seq<u8>, bool),
                    TransportError,
                >((data@, fin)),
                Err(e) => old(self)@.recv(stream_id, max as nat).1 == Err::<
                    (Seq<u8>, bool),
                    TransportError,
                >(e),
            },
    {
        let ghost table = self.streams@;
        match self.streams.remove(&stream_id) {
            None => {
                assert(self.streams@ =~= table);
                Err(TransportError::InvalidStreamState(stream_id))
            },
            Some(mut s) => {
                proof {
                    lemma_stream_put_back(table, stream_id);
                }
                let n: usize = if s.recv_data.len() <= max {
                    s.recv_data.len()
                } else {
                    max
                };
                let whole = n == s.recv_data.len();
                let rest = s.recv_data.split_off(n);
                let mut head = Vec::new();
                head.append(&mut s.recv_data);
                s.recv_data = rest;
                let ghost stream = table[stream_id]@;
                assert(head@ =~= stream.recv_data.take(n as int));
                assert(s.recv_data@ =~= stream.recv_data.skip(n as int));
                proof {
                    lemma_stream_replaced(table, stream_id, s);
                }
                let end = s.recv_end;
                match end {
                    RecvEnd::Reset(code) => {
                        s.recv_data = Vec::new();
                        s.recv_end = RecvEnd::Finished;
                        proof {
                            lemma_stream_replaced(table, stream_id, s);
                        }
                        self.streams.insert(stream_id, s);
                        self.readable = without(&self.readable, stream_id);
                        Err(TransportError::StreamReset(code))
                    },
                    RecvEnd::Fin if whole => {
                        s.recv_data = Vec::new();
                        s.recv_end = RecvEnd::Finished;
                        proof {
                            lemma_stream_replaced(table, stream_id, s);
                            assert(head@ =~= stream.recv_data);
                        }
                        self.streams.insert(stream_id, s);
                        self.readable = without(&self.readable, stream_id);
                        Ok((head, true))
                    },
                    _ => {
                        if head.len() == 0 && whole {
                            assert(s@ =~= stream);
                            assert(transport_streams(table).insert(stream_id, s@)
                                =~= transport_streams(table));
                            self.streams.insert(stream_id, s);
                            self.readable = without(&self.readable, stream_id);
                            Err(TransportError::Done)
                        } else {
                            self.streams.insert(stream_id, s);
                            Ok((head, false))
                        }
                    },
                }
            },
        }
    }

    /// Shuts one direction of a stream down, unless the receiving side has
    /// ended, or the sending side was reset or stopped.
    pub fn stream_shutdown(&mut self, stream_id: u64, direction: Shutdown, error: u64) -> (r: Result<
        (),
        TransportError,
    >)
        ensures
            (final(self)@, r) == old(self)@.shut_down(stream_id, direction, error),
    {
        let ghost table = self.streams@;
        let action = Action::Shutdown { stream_id, direction, error };
        proof {
            lemma_action_added(self.actions@, action);
        }
        match self.streams.remove(&stream_id) {
            None => {
                assert(self.streams@ =~= table);
                Err(TransportError::Done)
            },
            Some(mut s) => {
                proof {
                    lemma_stream_put_back(table, stream_id);
                }
                let ended = match direction {
                    Shutdown::Read => matches!(s.recv_end, RecvEnd::Finished),
                    Shutdown::Write => s.stopped.is_some() || matches!(s.send_end, SendEnd::Reset),
                };
                if ended {
                    self.streams.insert(stream_id, s);
                    return Err(TransportError::Done);
                }
                match direction {
                    Shutdown::Read => {
                        s.recv_data = Vec::new();
                        s.recv_end = RecvEnd::Finished;
                        self.readable = without(&self.readable, stream_id);
                    },
                    Shutdown::Write => {
                        s.send_end = SendEnd::Reset;
                    },
                }
                proof {
                    lemma_stream_replaced(table, stream_id, s);
                }
                self.streams.insert(stream_id, s);
                self.actions.push(action);
                Ok(())
            },
        }
    }

    /// Returns whether both directions of a stream have ended.
    pub fn stream_closed(&self, stream_id: u64) -> (r: bool)
        ensures
            r == self@.both_ended(stream_id),
    {
        match self.streams.get(&stream_id) {
            None => true,
            Some(s) => matches!(s.recv_end, RecvEnd::Finished) && !matches!(s.send_end, SendEnd::Open),
        }
    }

    /// Closes the connection, unless it has ended.
    pub fn close(&mut self, is_app: bool, error_code: u64, reason: &[u8]) -> (r: Result<
        (),
        TransportError,
    >)
        ensures
            (final(self)@, r) == old(self)@.close(is_app, error_code, reason@),
    {
        if self.closed || self.local_error.is_some() {
            return Err(TransportError::Done);
        }
        let action = Action::Close { is_app, error_code, reason: slice_to_vec(reason) };
        proof {
            lemma_action_added(self.actions@, action);
        }
        self.local_error = Some(
            ConnectionError { is_app, error_code, reason: slice_to_vec(reason) },
        );
        self.actions.push(action);
        Ok(())
    }
}

} // verus!
