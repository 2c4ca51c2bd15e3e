//! Laws of the QUIC layer as DoQ sees it.

use vstd::prelude::*;

use crate::laws::reading::{ids_but, ids_but_is_ids_without};
use crate::laws::writing::{
    fitting, is_sendable, sends_what_fits, write_takes_what_fits,
};
use crate::transport::{
    bidi_id, local_id, ActionView, ConnectionErrorView, RecvEnd, SendEnd, Shutdown, TransportError,
    TransportStreamView, TransportView,
};

verus! {

/// The id of a stream says who has opened it, and whether it goes both ways
/// (RFC 9000, Section 2.1).
pub proof fn stream_ids_tell_their_kind(stream_id: u64)
    ensures
        local_id(stream_id, true) <==> stream_id % 4 == 1 || stream_id % 4 == 3,
        local_id(stream_id, false) <==> stream_id % 4 == 0 || stream_id % 4 == 2,
        bidi_id(stream_id) <==> stream_id % 4 == 0 || stream_id % 4 == 1,
{
}

/// A write to a stream that is open takes what fits. One to a stream that the
/// peer has stopped, that has ended, or that the peer would have to open takes
/// nothing, and says so.
pub proof fn write_takes_what_fits_or_nothing(
    quic: TransportView,
    stream_id: u64,
    data: Seq<u8>,
    fin: bool,
)
    requires
        quic.streams.contains_key(stream_id) || quic.is_server == (stream_id % 2 == 0),
    ensures
        ({
            let (after, r) = quic.send(stream_id, data, fin);
            let s = quic.streams[stream_id];
            let n = fitting(s.send_window, quic, data.len());
            if is_sendable(quic, stream_id) {
                &&& sends_what_fits(quic, after, stream_id, data, fin, data.skip(n))
                &&& r == if n == 0 && data.len() > 0 {
                    Err(TransportError::Done)
                } else {
                    Ok(n as usize)
                }
            } else {
                &&& after == quic
                &&& r == Err::<usize, _>(
                    if quic.streams.contains_key(stream_id) && s.stopped is Some {
                        TransportError::StreamStopped(s.stopped->0)
                    } else {
                        TransportError::InvalidStreamState(stream_id)
                    },
                )
            }
        }),
{
    if is_sendable(quic, stream_id) {
        write_takes_what_fits(quic, stream_id, data, fin);
    }
}

/// A write to a stream of the local endpoint that is not there opens it first, if
/// the peer allows another of its kind.
pub proof fn write_opens_a_stream(
    quic: TransportView,
    stream_id: u64,
    data: Seq<u8>,
    fin: bool,
)
    requires
        !quic.streams.contains_key(stream_id),
        quic.is_server == (stream_id % 2 == 1),
    ensures
        ({
            let is_bidi = stream_id % 4 < 2;
            let left = if is_bidi {
                quic.streams_left_bidi
            } else {
                quic.streams_left_uni
            };
            let (open, r) = quic.send(stream_id, Seq::empty(), false);
            if left == 0 {
                quic.send(stream_id, data, fin) == (
                    quic,
                    Err::<usize, _>(TransportError::StreamLimit),
                )
            } else {
                &&& r == Ok::<usize, TransportError>(0)
                &&& quic.send(stream_id, data, fin) == open.send(stream_id, data, fin)
                &&& open == (TransportView {
                    streams_left_bidi: if is_bidi {
                        (left - 1) as u64
                    } else {
                        quic.streams_left_bidi
                    },
                    streams_left_uni: if is_bidi {
                        quic.streams_left_uni
                    } else {
                        (left - 1) as u64
                    },
                    streams: quic.streams.insert(
                        stream_id,
                        TransportStreamView {
                            recv_data: Seq::empty(),
                            recv_end: if is_bidi {
                                RecvEnd::Open
                            } else {
                                RecvEnd::Finished
                            },
                            arrived_early: false,
                            send_window: quic.initial_window,
                            stopped: None,
                            send_end: SendEnd::Open,
                        },
                    ),
                    actions: quic.actions.push(ActionView::Open { stream_id }),
                    ..quic
                })
            }
        }),
{
    let (open, r) = quic.send(stream_id, Seq::empty(), false);
    if r is Ok {
        assert(open.opened(stream_id) == Ok::<TransportView, TransportError>(open));
    }
}

/// A read gives the first bytes of those at hand, as many as asked for if there
/// are as many, and leaves the others. The end of the stream comes with its last
/// byte; a reset comes in place of all bytes. Neither is given twice.
pub proof fn read_gives_a_beginning(quic: TransportView, stream_id: u64, max: nat)
    ensures
        ({
            let (after, r) = quic.recv(stream_id, max);
            let s = quic.streams[stream_id];
            let n = if s.recv_data.len() <= max {
                s.recv_data.len() as int
            } else {
                max as int
            };
            let ended = TransportView {
                streams: quic.streams.insert(
                    stream_id,
                    TransportStreamView {
                        recv_data: Seq::empty(),
                        recv_end: RecvEnd::Finished,
                        ..s
                    },
                ),
                readable: ids_but(quic.readable, stream_id),
                ..quic
            };
            if !quic.streams.contains_key(stream_id) {
                after == quic && r == Err::<(Seq<u8>, bool), _>(
                    TransportError::InvalidStreamState(stream_id),
                )
            } else if s.recv_end is Reset {
                after == ended && r == Err::<(Seq<u8>, bool), _>(
                    TransportError::StreamReset(s.recv_end->Reset_0),
                )
            } else if s.recv_end is Fin && n == s.recv_data.len() {
                after == ended && r == Ok::<_, TransportError>((s.recv_data, true))
            } else if s.recv_data.len() == 0 {
                &&& after == (TransportView { readable: ids_but(quic.readable, stream_id), ..quic })
                &&& r == Err::<(Seq<u8>, bool), _>(TransportError::Done)
            } else {
                &&& r == Ok::<_, TransportError>((s.recv_data.take(n), false))
                &&& after == (TransportView {
                    streams: quic.streams.insert(
                        stream_id,
                        TransportStreamView { recv_data: s.recv_data.skip(n), ..s },
                    ),
                    ..quic
                })
            }
        }),
{
    ids_but_is_ids_without(quic.readable, stream_id);
}

/// Shutting a side of a stream down ends it, and the peer gets the code. A
/// receiving side that has ended, and a sending side that was reset or stopped,
/// stay as they are. How much a stream takes is what both windows allow, unless
/// the peer has stopped it.
pub proof fn shutting_down_ends_a_side(quic: TransportView, stream_id: u64, error: u64)
    ensures
        ({
            let s = quic.streams[stream_id];
            let there = quic.streams.contains_key(stream_id);
            &&& quic.shut_down(stream_id, Shutdown::Read, error) == if there && s.recv_end
                != RecvEnd::Finished {
                (
                    TransportView {
                        streams: quic.streams.insert(
                            stream_id,
                            TransportStreamView {
                                recv_data: Seq::empty(),
                                recv_end: RecvEnd::Finished,
                                ..s
                            },
                        ),
                        readable: ids_but(quic.readable, stream_id),
                        actions: quic.actions.push(
                            ActionView::Shutdown { stream_id, direction: Shutdown::Read, error },
                        ),
                        ..quic
                    },
                    Ok::<(), TransportError>(()),
                )
            } else {
                (quic, Err(TransportError::Done))
            }
            &&& quic.shut_down(stream_id, Shutdown::Write, error) == if there && s.stopped is None
                && s.send_end != SendEnd::Reset {
                (
                    TransportView {
                        streams: quic.streams.insert(
                            stream_id,
                            TransportStreamView { send_end: SendEnd::Reset, ..s },
                        ),
                        actions: quic.actions.push(
                            ActionView::Shutdown { stream_id, direction: Shutdown::Write, error },
                        ),
                        ..quic
                    },
                    Ok::<(), TransportError>(()),
                )
            } else {
                (quic, Err(TransportError::Done))
            }
            &&& quic.capacity(stream_id) == if !there {
                Err(TransportError::InvalidStreamState(stream_id))
            } else if s.stopped is Some {
                Err(TransportError::StreamStopped(s.stopped->0))
            } else if s.send_window <= quic.send_capacity {
                Ok(s.send_window)
            } else {
                Ok(quic.send_capacity)
            }
        }),
{
    ids_but_is_ids_without(quic.readable, stream_id);
}

/// A connection is closed once, with the code and the reason that were given, and
/// not where the peer has ended it.
pub proof fn connection_is_closed_once(
    quic: TransportView,
    is_app: bool,
    error_code: u64,
    reason: Seq<u8>,
)
    ensures
        quic.close(is_app, error_code, reason) == if quic.closed || quic.local_error is Some {
            (quic, Err(TransportError::Done))
        } else {
            (
                TransportView {
                    local_error: Some(ConnectionErrorView { is_app, error_code, reason }),
                    actions: quic.actions.push(ActionView::Close { is_app, error_code, reason }),
                    ..quic
                },
                Ok::<(), TransportError>(()),
            )
        },
        ({
            let (closed, _) = quic.close(is_app, error_code, reason);
            closed.close(is_app, error_code, reason) == (
                closed,
                Err::<(), _>(TransportError::Done),
            )
        }),
{
}

/// A stream has ended both ways, as far as is known, once nothing more can be
/// read from it and its sending side has ended too.
pub proof fn both_sides_end_a_stream(quic: TransportView, stream_id: u64)
    requires
        quic.streams.contains_key(stream_id),
    ensures
        quic.both_ended(stream_id) <==> quic.streams[stream_id].recv_end == RecvEnd::Finished
            && quic.streams[stream_id].send_end != SendEnd::Open,
        quic.arrived_early(stream_id) == quic.streams[stream_id].arrived_early,
{
}

} // verus!
