//! Laws of how much is written, when, and what is left.

use vstd::prelude::*;

use crate::connection::Error;
use crate::laws::closing::closed_for_protocol_error;
use crate::laws::reading::{ids_but, ids_but_is_ids_without};
use crate::model::{of_other_stream, ConnectionView, EventView, Outcome, StreamView};
use crate::transport::{
    ActionView, RecvEnd, SendEnd, Shutdown, TransportError, TransportStreamView, TransportView,
};
use crate::wire::frame;

verus! {

/// Whether the QUIC layer has a stream whose sending side has neither ended nor
/// been stopped.
pub open spec fn is_sendable(quic: TransportView, stream_id: u64) -> bool {
    let s = quic.streams[stream_id];
    &&& quic.streams.contains_key(stream_id)
    &&& s.stopped is None
    &&& s.send_end == SendEnd::Open
}

/// How many of `len` bytes fit into the window of a stream and that of the
/// connection.
pub open spec fn fitting(window: usize, quic: TransportView, len: nat) -> int {
    if len <= window && len <= quic.send_capacity {
        len as int
    } else if window <= quic.send_capacity {
        window as int
    } else {
        quic.send_capacity as int
    }
}

/// The QUIC layer once it was handed some bytes of a stream that fit, with
/// STREAM FIN or without.
pub open spec fn handed_over(
    quic: TransportView,
    stream_id: u64,
    data: Seq<u8>,
    fin: bool,
) -> TransportView {
    let s = quic.streams[stream_id];
    TransportView {
        send_capacity: (quic.send_capacity - data.len()) as usize,
        streams: quic.streams.insert(
            stream_id,
            TransportStreamView {
                send_window: (s.send_window - data.len()) as usize,
                send_end: if fin {
                    SendEnd::Fin
                } else {
                    SendEnd::Open
                },
                ..s
            },
        ),
        actions: quic.actions.push(ActionView::Send { stream_id, data, fin }),
        ..quic
    }
}

/// Whether of the bytes that wait on a stream exactly those that fit were sent,
/// from the first on, with STREAM FIN behind the last of them if it was asked
/// for. The others wait on; where none fits, nothing has happened.
pub open spec fn sends_what_fits(
    quic: TransportView,
    after: TransportView,
    stream_id: u64,
    waiting: Seq<u8>,
    fin: bool,
    left: Seq<u8>,
) -> bool {
    let n = fitting(quic.streams[stream_id].send_window, quic, waiting.len());
    &&& left == waiting.skip(n)
    &&& after == if n == 0 && (waiting.len() > 0 || !fin) {
        quic
    } else {
        handed_over(quic, stream_id, waiting.take(n), fin && n == waiting.len())
    }
}

/// Whether some bytes were written to a response stream as far as they fit: the
/// stream is no longer tracked once the final one has gone, and else holds what
/// is left.
pub open spec fn response_written(
    c: ConnectionView,
    quic: TransportView,
    o: Outcome<()>,
    stream_id: u64,
    waiting: Seq<u8>,
    fin: bool,
) -> bool {
    let n = fitting(quic.streams[stream_id].send_window, quic, waiting.len());
    &&& o.result == Ok::<(), Error>(())
    &&& sends_what_fits(quic, o.quic, stream_id, waiting, fin, waiting.skip(n))
    &&& o.doq == (ConnectionView {
        streams: if fin && n == waiting.len() {
            c.streams.remove(stream_id)
        } else {
            c.streams.insert(
                stream_id,
                StreamView { send_buf: waiting.skip(n), send_fin: fin, ..c.streams[stream_id] },
            )
        },
        ..c
    })
}

pub(crate) proof fn write_takes_what_fits(
    quic: TransportView,
    stream_id: u64,
    data: Seq<u8>,
    fin: bool,
)
    requires
        is_sendable(quic, stream_id),
    ensures
        ({
            let (after, r) = quic.send(stream_id, data, fin);
            let n = fitting(quic.streams[stream_id].send_window, quic, data.len());
            &&& 0 <= n <= data.len()
            &&& sends_what_fits(quic, after, stream_id, data, fin, data.skip(n))
            &&& r == if n == 0 && data.len() > 0 {
                Err(TransportError::Done)
            } else {
                Ok(n as usize)
            }
        }),
{
    let (after, r) = quic.send(stream_id, data, fin);
    let n = fitting(quic.streams[stream_id].send_window, quic, data.len());
    let last = fin && n == data.len();
    assert(n > 0 || last && data.len() == 0 ==> after =~= handed_over(
        quic,
        stream_id,
        data.take(n),
        last,
    ));
}

/// A flush sends as much of the queued responses as fits, from the first byte
/// on. With room for all of it nothing is left, and the final response goes with
/// STREAM FIN.
pub proof fn flush_sends_what_fits(c: ConnectionView, quic: TransportView, stream_id: u64)
    requires
        c.streams.contains_key(stream_id),
        is_sendable(quic, stream_id),
    ensures
        response_written(
            c,
            quic,
            c.flush_response(quic, stream_id),
            stream_id,
            c.streams[stream_id].send_buf,
            c.streams[stream_id].send_fin,
        ),
{
    let s = c.streams[stream_id];
    let n = fitting(quic.streams[stream_id].send_window, quic, s.send_buf.len());
    write_takes_what_fits(quic, stream_id, s.send_buf, s.send_fin);
    let o = c.flush_response(quic, stream_id);
    assert(n == 0 ==> s.send_buf.skip(n) =~= s.send_buf);
    assert(o.doq.streams =~= if s.send_fin && n == s.send_buf.len() {
        c.streams.remove(stream_id)
    } else {
        c.streams.insert(stream_id, StreamView { send_buf: s.send_buf.skip(n), ..s })
    });
}

/// A response that fits in a frame is accepted on a tracked stream that awaits
/// one. Behind what waits already, its frame is sent as far as it fits.
pub proof fn response_is_sent_as_far_as_it_fits(
    c: ConnectionView,
    quic: TransportView,
    stream_id: u64,
    data: Seq<u8>,
    fin: bool,
)
    requires
        c.streams.contains_key(stream_id),
        !c.streams[stream_id].send_fin,
        is_sendable(quic, stream_id),
        data.len() <= 65535,
    ensures
        response_written(
            c,
            quic,
            c.send_response(quic, stream_id, data, fin),
            stream_id,
            c.streams[stream_id].send_buf + frame(data),
            fin,
        ),
{
    let s = c.streams[stream_id];
    let waiting = s.send_buf + frame(data);
    let queued = c.with_stream(stream_id, StreamView { send_buf: waiting, send_fin: fin, ..s });
    flush_sends_what_fits(queued, quic, stream_id);
    let o = c.send_response(quic, stream_id, data, fin);
    let n = fitting(quic.streams[stream_id].send_window, quic, waiting.len());
    assert(o == queued.flush_response(quic, stream_id));
    assert(o.doq.streams =~= if fin && n == waiting.len() {
        c.streams.remove(stream_id)
    } else {
        c.streams.insert(
            stream_id,
            StreamView { send_buf: waiting.skip(n), send_fin: fin, ..s },
        )
    });
}

/// A response is refused for want of a tracked stream that awaits one, and else
/// exactly where it does not fit in a frame. A refused response changes nothing.
pub proof fn response_is_refused_for_a_reason(
    c: ConnectionView,
    quic: TransportView,
    stream_id: u64,
    data: Seq<u8>,
    fin: bool,
)
    ensures
        ({
            let o = c.send_response(quic, stream_id, data, fin);
            let awaits = c.streams.contains_key(stream_id) && !c.streams[stream_id].send_fin;
            &&& o.result == Err::<(), _>(Error::UnknownStream) <==> !awaits
            &&& o.result == Err::<(), _>(Error::MessageTooLarge) <==> awaits && data.len() > 65535
            &&& !awaits || data.len() > 65535 ==> o.doq == c && o.quic == quic
        }),
{
}

/// A flush of responses with nothing to send does nothing, and one of a stream
/// that is not tracked is an error.
pub proof fn flush_of_nothing_does_nothing(c: ConnectionView, quic: TransportView, stream_id: u64)
    requires
        !c.streams.contains_key(stream_id) || (c.streams[stream_id].send_buf.len() == 0
            && !c.streams[stream_id].send_fin),
    ensures
        c.flush_response(quic, stream_id) == (Outcome::<()> {
            doq: c,
            quic,
            result: if c.streams.contains_key(stream_id) {
                Ok(())
            } else {
                Err(Error::UnknownStream)
            },
        }),
{
}

/// Where the QUIC layer takes nothing more on a stream, a flush says why, and
/// changes nothing; a response is queued all the same.
pub proof fn unsendable_response_is_reported(
    c: ConnectionView,
    quic: TransportView,
    stream_id: u64,
    data: Seq<u8>,
    fin: bool,
)
    requires
        c.streams.contains_key(stream_id),
        !is_sendable(quic, stream_id),
        quic.streams.contains_key(stream_id) || quic.is_server == (stream_id % 2 == 0),
    ensures
        ({
            let s = c.streams[stream_id];
            let q = quic.streams[stream_id];
            let why = Error::TransportError(
                if quic.streams.contains_key(stream_id) && q.stopped is Some {
                    TransportError::StreamStopped(q.stopped->0)
                } else {
                    TransportError::InvalidStreamState(stream_id)
                },
            );
            &&& s.send_buf.len() > 0 || s.send_fin ==> c.flush_response(quic, stream_id) == (
            Outcome::<()> { doq: c, quic, result: Err(why) })
            &&& !s.send_fin && data.len() <= 65535 ==> c.send_response(
                quic,
                stream_id,
                data,
                fin,
            ) == (Outcome::<()> {
                doq: ConnectionView {
                    streams: c.streams.insert(
                        stream_id,
                        StreamView { send_buf: s.send_buf + frame(data), send_fin: fin, ..s },
                    ),
                    ..c
                },
                quic,
                result: Err(why),
            })
        }),
{
}

/// Whether the QUIC layer lets a client have its next stream: it may open
/// another one, or has opened that one.
pub open spec fn can_have(quic: TransportView, stream_id: u64) -> bool {
    if quic.streams.contains_key(stream_id) {
        is_sendable(quic, stream_id)
    } else {
        !quic.is_server && quic.streams_left_bidi > 0
    }
}

/// The QUIC layer of a client once a stream is open on it.
pub open spec fn with_open_stream(quic: TransportView, stream_id: u64) -> TransportView {
    if quic.streams.contains_key(stream_id) {
        quic
    } else {
        TransportView {
            streams_left_bidi: (quic.streams_left_bidi - 1) as u64,
            streams: quic.streams.insert(
                stream_id,
                TransportStreamView {
                    recv_data: Seq::empty(),
                    recv_end: RecvEnd::Open,
                    arrived_early: false,
                    send_window: quic.initial_window,
                    stopped: None,
                    send_end: SendEnd::Open,
                },
            ),
            actions: quic.actions.push(ActionView::Open { stream_id }),
            ..quic
        }
    }
}

proof fn opening_write(quic: TransportView, stream_id: u64)
    requires
        can_have(quic, stream_id),
        stream_id % 4 == 0,
    ensures
        quic.send(stream_id, Seq::empty(), false) == (
            with_open_stream(quic, stream_id),
            Ok::<usize, TransportError>(0),
        ),
        is_sendable(with_open_stream(quic, stream_id), stream_id),
{
    let (after, r) = quic.send(stream_id, Seq::empty(), false);
    assert(after =~= with_open_stream(quic, stream_id));
}

/// A client whose next stream the QUIC layer lets it have accepts every query of
/// at most 65535 bytes. The stream is opened, and the frame of the query is sent
/// on it as far as it fits, with STREAM FIN behind its last byte; what is left
/// waits. The next query takes the stream behind it, if there is one.
pub proof fn query_is_accepted(c: ConnectionView, quic: TransportView, data: Seq<u8>)
    requires
        !c.is_server,
        c.valid(),
        data.len() <= 65535,
        can_have(quic, c.next_query_stream_id),
    ensures
        ({
            let id = c.next_query_stream_id;
            let o = c.send_query(quic, data);
            let open = with_open_stream(quic, id);
            let n = fitting(open.streams[id].send_window, open, frame(data).len());
            &&& o.result == if id <= u64::MAX - 4 {
                Ok(id)
            } else {
                Err(Error::StreamIdExhausted)
            }
            &&& sends_what_fits(open, o.quic, id, frame(data), true, frame(data).skip(n))
            &&& o.doq == (ConnectionView {
                next_query_stream_id: if id <= u64::MAX - 4 {
                    (id + 4) as u64
                } else {
                    id
                },
                streams: c.streams.insert(
                    id,
                    StreamView {
                        recv_buf: Seq::empty(),
                        fin_received: false,
                        is_0rtt: false,
                        is_local: true,
                        event_triggered: false,
                        send_buf: frame(data).skip(n),
                        send_fin: true,
                    },
                ),
                ..c
            })
        }),
{
    let id = c.next_query_stream_id;
    let open = with_open_stream(quic, id);
    let n = fitting(open.streams[id].send_window, open, frame(data).len());
    opening_write(quic, id);
    let registered = c.with_stream(id, StreamView::query(data));
    query_flush_sends_what_fits(registered, open, id);
    let o = c.send_query(quic, data);
    assert(o.doq.streams =~= c.streams.insert(
        id,
        StreamView { send_buf: frame(data).skip(n), ..StreamView::query(data) },
    ));
}

/// A query is refused as too large exactly where it is longer than 65535 bytes,
/// and by a server always. A query so refused changes nothing.
pub proof fn query_is_refused_for_a_reason(c: ConnectionView, quic: TransportView, data: Seq<u8>)
    requires
        c.valid(),
    ensures
        ({
            let o = c.send_query(quic, data);
            &&& o.result == Err::<u64, _>(Error::ClientOnly) <==> c.is_server
            &&& o.result == Err::<u64, _>(Error::MessageTooLarge) <==> !c.is_server && data.len()
                > 65535
            &&& c.is_server || data.len() > 65535 ==> o.doq == c && o.quic == quic
        }),
{
}

/// A query for which there is no stream fails: where the peer allows none, or
/// the stream has ended, the QUIC layer's error says so and nothing has happened;
/// where the peer has stopped it, the protocol is broken. The connection does
/// not keep such a query.
pub proof fn query_without_a_stream_fails(c: ConnectionView, quic: TransportView, data: Seq<u8>)
    requires
        !c.is_server,
        c.valid(),
        data.len() <= 65535,
        !quic.is_server,
        !can_have(quic, c.next_query_stream_id),
    ensures
        ({
            let id = c.next_query_stream_id;
            let o = c.send_query(quic, data);
            let q = quic.streams[id];
            let dropped = ConnectionView { streams: c.streams.remove(id), ..c };
            if !quic.streams.contains_key(id) {
                o == (Outcome::<u64> {
                    doq: dropped,
                    quic,
                    result: Err(Error::TransportError(TransportError::StreamLimit)),
                })
            } else if q.stopped is None {
                o == (Outcome::<u64> {
                    doq: dropped,
                    quic,
                    result: Err(Error::TransportError(TransportError::InvalidStreamState(id))),
                })
            } else {
                &&& o.doq == dropped
                &&& if quic.closed || quic.local_error is Some {
                    o.result == Err::<u64, _>(Error::Done) && o.quic == quic
                } else {
                    &&& o.result == Err::<u64, _>(Error::ProtocolError)
                    &&& o.quic == closed_for_protocol_error(quic)
                }
            }
        }),
{
    let id = c.next_query_stream_id;
    let o = c.send_query(quic, data);
    assert(o.doq =~= (ConnectionView { streams: c.streams.remove(id), ..c }));
    if o.result == Err::<u64, _>(Error::ProtocolError) {
        assert(o.quic =~= closed_for_protocol_error(quic));
    }
}

/// A response on a client's own stream that the QUIC layer does not have opens it
/// first, if the peer allows another; else it is reported.
pub proof fn response_may_open_a_stream(
    c: ConnectionView,
    quic: TransportView,
    stream_id: u64,
    data: Seq<u8>,
    fin: bool,
)
    requires
        c.streams.contains_key(stream_id),
        !quic.streams.contains_key(stream_id),
        !quic.is_server,
        stream_id % 4 == 0,
    ensures
        ({
            let s = c.streams[stream_id];
            let open = with_open_stream(quic, stream_id);
            let waits = s.send_buf.len() > 0 || s.send_fin;
            let flushed = c.flush_response(quic, stream_id);
            let sent = c.send_response(quic, stream_id, data, fin);
            let limit = Error::TransportError(TransportError::StreamLimit);
            let queued = ConnectionView {
                streams: c.streams.insert(
                    stream_id,
                    StreamView { send_buf: s.send_buf + frame(data), send_fin: fin, ..s },
                ),
                ..c
            };
            if quic.streams_left_bidi == 0 {
                &&& waits ==> flushed == (Outcome::<()> { doq: c, quic, result: Err(limit) })
                &&& !s.send_fin && data.len() <= 65535 ==> sent == (Outcome::<()> {
                    doq: queued,
                    quic,
                    result: Err(limit),
                })
            } else {
                &&& waits ==> flushed == c.flush_response(open, stream_id)
                &&& !s.send_fin && data.len() <= 65535 ==> sent == c.send_response(
                    open,
                    stream_id,
                    data,
                    fin,
                )
            }
        }),
{
    if quic.streams_left_bidi > 0 {
        opening_write(quic, stream_id);
        let open = with_open_stream(quic, stream_id);
        assert(quic.opened(stream_id)->Ok_0 =~= open);
        assert(open.opened(stream_id)->Ok_0 == open);
    }
}

/// A flush sends as much of a query as fits, from the first byte on, with STREAM
/// FIN behind the last; a query of which nothing waits is left as it is.
pub proof fn query_flush_sends_what_fits(c: ConnectionView, quic: TransportView, stream_id: u64)
    requires
        !c.is_server,
        c.streams.contains_key(stream_id),
        c.streams[stream_id].is_local,
        is_sendable(quic, stream_id) || (c.streams[stream_id].send_buf.len() == 0
            && quic.streams.contains_key(stream_id) && quic.streams[stream_id].stopped is None),
    ensures
        ({
            let s = c.streams[stream_id];
            let o = c.flush_query(quic, stream_id);
            let n = fitting(quic.streams[stream_id].send_window, quic, s.send_buf.len());
            &&& o.result == Ok::<(), Error>(())
            &&& o.doq == (ConnectionView {
                streams: c.streams.insert(
                    stream_id,
                    StreamView { send_buf: s.send_buf.skip(n), ..s },
                ),
                ..c
            })
            &&& if s.send_buf.len() == 0 {
                o.quic == quic
            } else {
                sends_what_fits(quic, o.quic, stream_id, s.send_buf, true, s.send_buf.skip(n))
            }
        }),
{
    let s = c.streams[stream_id];
    let n = fitting(quic.streams[stream_id].send_window, quic, s.send_buf.len());
    let o = c.flush_query(quic, stream_id);
    if s.send_buf.len() > 0 {
        write_takes_what_fits(quic, stream_id, s.send_buf, true);
    }
    assert(n == 0 ==> s.send_buf.skip(n) =~= s.send_buf);
    assert(o.doq.streams =~= c.streams.insert(
        stream_id,
        StreamView { send_buf: s.send_buf.skip(n), ..s },
    ));
}

/// A flush of a query that the QUIC layer takes nothing more of fails and sends
/// nothing; the query stays as it is.
pub proof fn query_flush_fails_for_a_reason(c: ConnectionView, quic: TransportView, stream_id: u64)
    ensures
        ({
            let s = c.streams[stream_id];
            let q = quic.streams[stream_id];
            let o = c.flush_query(quic, stream_id);
            let gone = Error::TransportError(TransportError::InvalidStreamState(stream_id));
            if c.is_server {
                o == (Outcome::<()> { doq: c, quic, result: Err(Error::ClientOnly) })
            } else if !c.streams.contains_key(stream_id) || !s.is_local {
                o == (Outcome::<()> { doq: c, quic, result: Err(Error::UnknownStream) })
            } else if !quic.streams.contains_key(stream_id) {
                o == (Outcome::<()> { doq: c, quic, result: Err(gone) })
            } else if q.stopped is Some {
                &&& o.doq == c
                &&& if quic.closed || quic.local_error is Some {
                    o.result == Err::<(), _>(Error::Done) && o.quic == quic
                } else {
                    &&& o.result == Err::<(), _>(Error::ProtocolError)
                    &&& o.quic == closed_for_protocol_error(quic)
                }
            } else {
                s.send_buf.len() > 0 && q.send_end != SendEnd::Open ==> o == (Outcome::<()> {
                    doq: c,
                    quic,
                    result: Err(gone),
                })
            }
        }),
{
    let o = c.flush_query(quic, stream_id);
    if o.result == Err::<(), _>(Error::ProtocolError) {
        assert(o.quic =~= closed_for_protocol_error(quic));
    }
}

/// The events of all streams but one, in their order.
pub open spec fn events_but(events: Seq<(u64, EventView)>, stream_id: u64) -> Seq<
    (u64, EventView),
> {
    events.filter(|e: (u64, EventView)| e.0 != stream_id)
}

/// A client forgets a query that it cancels, whatever the QUIC layer knows of
/// its stream, and nothing else; a server has none, and a stream that is no
/// query's is refused.
pub proof fn cancelling_forgets_the_query_alone(
    c: ConnectionView,
    quic: TransportView,
    stream_id: u64,
    error: u64,
)
    ensures
        ({
            let o = c.cancel_query(quic, stream_id, error);
            if c.is_server {
                o == (Outcome::<()> { doq: c, quic, result: Err(Error::ClientOnly) })
            } else if !c.streams.contains_key(stream_id) || !c.streams[stream_id].is_local {
                o == (Outcome::<()> { doq: c, quic, result: Err(Error::UnknownStream) })
            } else {
                &&& o.result == Ok::<(), Error>(())
                &&& o.doq == (ConnectionView {
                    streams: c.streams.remove(stream_id),
                    pending: events_but(c.pending, stream_id),
                    ..c
                })
                &&& !quic.streams.contains_key(stream_id) ==> o.quic == quic
                &&& quic.streams.contains_key(stream_id) ==> o.quic
                    == cancelled_on(quic, stream_id, error, c.streams[stream_id].send_buf.len() > 0)
            }
        }),
{
    let o = c.cancel_query(quic, stream_id, error);
    ids_but_is_ids_without(quic.readable, stream_id);
    assert(of_other_stream(stream_id) =~= |e: (u64, EventView)| e.0 != stream_id);
    if quic.streams.contains_key(stream_id) && !c.is_server && c.is_query_stream(stream_id) {
        assert(o.quic =~= cancelled_on(
            quic,
            stream_id,
            error,
            c.streams[stream_id].send_buf.len() > 0,
        ));
    }
}

/// The QUIC layer once a stream that it knows is abandoned with a code: the peer
/// is asked to stop, unless it has nothing more to say, and where `unsent` bytes
/// wait the sending side is reset, unless it was reset or stopped before.
pub open spec fn cancelled_on(
    quic: TransportView,
    stream_id: u64,
    error: u64,
    unsent: bool,
) -> TransportView {
    let s = quic.streams[stream_id];
    let stops = s.recv_end != RecvEnd::Finished;
    let resets = unsent && s.stopped is None && s.send_end != SendEnd::Reset;
    TransportView {
        streams: quic.streams.insert(
            stream_id,
            TransportStreamView {
                recv_data: if stops {
                    Seq::empty()
                } else {
                    s.recv_data
                },
                recv_end: RecvEnd::Finished,
                send_end: if resets {
                    SendEnd::Reset
                } else {
                    s.send_end
                },
                ..s
            },
        ),
        readable: if stops {
            ids_but(quic.readable, stream_id)
        } else {
            quic.readable
        },
        actions: quic.actions + if stops {
            seq![ActionView::Shutdown { stream_id, direction: Shutdown::Read, error }]
        } else {
            Seq::empty()
        } + if resets {
            seq![ActionView::Shutdown { stream_id, direction: Shutdown::Write, error }]
        } else {
            Seq::empty()
        },
        ..quic
    }
}

/// A stream that is reset is forgotten, and the peer gets the code on it, unless
/// its sending side was reset or stopped before or the QUIC layer does not know
/// it.
pub proof fn resetting_forgets_the_stream_alone(
    c: ConnectionView,
    quic: TransportView,
    stream_id: u64,
    error: u64,
)
    ensures
        c.reset_stream(quic, stream_id, error) == if c.streams.contains_key(stream_id) {
            Outcome::<()> {
                doq: ConnectionView { streams: c.streams.remove(stream_id), ..c },
                quic: reset_on(quic, stream_id, error),
                result: Ok(()),
            }
        } else {
            Outcome::<()> { doq: c, quic, result: Err(Error::UnknownStream) }
        },
{
    assert(c.reset_stream(quic, stream_id, error).quic =~= if c.streams.contains_key(stream_id) {
        reset_on(quic, stream_id, error)
    } else {
        quic
    });
}

/// The QUIC layer once the sending side of a stream is reset with a code.
pub open spec fn reset_on(quic: TransportView, stream_id: u64, error: u64) -> TransportView {
    let s = quic.streams[stream_id];
    if quic.streams.contains_key(stream_id) && s.stopped is None && s.send_end != SendEnd::Reset {
        TransportView {
            streams: quic.streams.insert(
                stream_id,
                TransportStreamView { send_end: SendEnd::Reset, ..s },
            ),
            actions: quic.actions.push(
                ActionView::Shutdown { stream_id, direction: Shutdown::Write, error },
            ),
            ..quic
        }
    } else {
        quic
    }
}

} // verus!
