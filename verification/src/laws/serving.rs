//! Laws of what a server driver does for its consumer, step by step.

use vstd::prelude::*;

use crate::connection::Error;
use crate::driver::DriverError;
use crate::driver_model::{DriverView, QueryView, ReadyView, Step, WakeupView};
use crate::laws::writing::{
    fitting, flush_sends_what_fits, is_sendable, reset_on, resetting_forgets_the_stream_alone,
    response_is_refused_for_a_reason, response_is_sent_as_far_as_it_fits, sends_what_fits,
    unsendable_response_is_reported,
};
use crate::model::{ConnectionView, EventView, StreamView};
use crate::outside::{of_others, of_stream, Offer};
use crate::responder::{DoqCommandView, DoqEventView, ResponderMessageView};
use crate::transport::{ActionView, ConnectionErrorView, TransportError, TransportView};
use crate::waiting::Inbox;
use crate::wire::{frame, DoqError};

verus! {

broadcast use vstd::multiset::group_multiset_axioms;

/// The driver once it has given up a query, and the connection once it has
/// forgotten its stream.
pub open spec fn given_up(d: DriverView, stream_id: u64) -> DriverView {
    let c = d.conn->0;
    DriverView {
        conn: Some(ConnectionView { streams: c.streams.remove(stream_id), ..c }),
        queries: d.queries.remove(stream_id),
        ..d
    }
}

/// The QUIC layer once a stream that the connection tracks is reset with a code.
pub open spec fn reset_if_tracked(
    d: DriverView,
    quic: TransportView,
    stream_id: u64,
    code: u64,
) -> TransportView {
    if d.conn->0.streams.contains_key(stream_id) {
        reset_on(quic, stream_id, code)
    } else {
        quic
    }
}

/// The code that stands for an error on the wire (RFC 9250, Section 8.4).
pub open spec fn assigned_code(error: DoqError) -> u64 {
    match error {
        DoqError::NoError => 0,
        DoqError::InternalError => 1,
        DoqError::ProtocolError => 2,
        DoqError::RequestCancelled => 3,
        DoqError::ExcessiveLoad => 4,
        DoqError::UnspecifiedError => 5,
        DoqError::ErrorReserved => 0xd098ea5e,
    }
}

proof fn resetting_gives_the_stream_up(
    d: DriverView,
    quic: TransportView,
    stream_id: u64,
    error: DoqError,
)
    requires
        d.conn is Some,
    ensures
        d.without_query(stream_id).reset_stream(quic, stream_id, error) == (Step {
            driver: given_up(d, stream_id),
            quic: reset_if_tracked(d, quic, stream_id, assigned_code(error)),
            result: Ok(()),
        }),
{
    let c = d.conn->0;
    resetting_forgets_the_stream_alone(c, quic, stream_id, error.code());
    let step = d.without_query(stream_id).reset_stream(quic, stream_id, error);
    if !c.streams.contains_key(stream_id) {
        assert(c.streams.remove(stream_id) =~= c.streams);
    }
    assert(step.driver =~= given_up(d, stream_id));
}

/// A reset reaches the peer with the code that it was asked for with: the stream
/// is reset on the QUIC layer and forgotten by the connection, and that the
/// connection does not track it is fine.
pub proof fn reset_reaches_the_peer(
    d: DriverView,
    quic: TransportView,
    stream_id: u64,
    error: DoqError,
)
    ensures
        d.reset_stream(quic, stream_id, error) == match d.conn {
            None => Step { driver: d, quic, result: Err(DriverError::NotEstablished) },
            Some(c) => Step {
                driver: DriverView {
                    conn: Some(ConnectionView { streams: c.streams.remove(stream_id), ..c }),
                    ..d
                },
                quic: reset_if_tracked(d, quic, stream_id, assigned_code(error)),
                result: Ok(()),
            },
        },
{
    if let Some(c) = d.conn {
        resetting_forgets_the_stream_alone(c, quic, stream_id, error.code());
        if !c.streams.contains_key(stream_id) {
            assert(c.streams.remove(stream_id) =~= c.streams);
        }
    }
}

/// A consumer that resets its query has the stream reset with the very error it
/// gave, and a consumer that drops its responder with `DOQ_INTERNAL_ERROR`. The
/// query is given up on both layers, and nothing else changes.
pub proof fn consumer_gives_its_query_up(d: DriverView, quic: TransportView, ready: ReadyView)
    requires
        d.conn is Some,
        !(ready.message matches Some(m) && m is Response),
    ensures
        d.responder_ready(quic, ready) == (Step {
            driver: given_up(d, ready.stream_id),
            quic: reset_if_tracked(
                d,
                quic,
                ready.stream_id,
                match ready.message {
                    Some(ResponderMessageView::Reset { error }) => assigned_code(error),
                    _ => 1,
                },
            ),
            result: Ok(()),
        }),
{
    match ready.message {
        Some(ResponderMessageView::Reset { error }) => {
            resetting_gives_the_stream_up(d, quic, ready.stream_id, error);
        },
        _ => {
            resetting_gives_the_stream_up(d, quic, ready.stream_id, DoqError::InternalError);
        },
    }
}

/// The driver once a response of a query was written: where bytes of it are left,
/// the receiver is parked; where it was the final one, the query is over; else
/// the consumer is waited for.
pub open spec fn gone_on(
    d: DriverView,
    stream_id: u64,
    inbox: Inbox,
    fin: bool,
    is_left: bool,
) -> DriverView {
    let future = (stream_id, inbox.channel);
    if is_left {
        DriverView {
            queries: d.queries.insert(
                stream_id,
                QueryView { parked: Some(inbox), pending_fin: fin },
            ),
            ..d
        }
    } else if fin {
        DriverView { queries: d.queries.remove(stream_id), ..d }
    } else {
        DriverView {
            queries: d.queries.insert(stream_id, QueryView { parked: None, pending_fin: false }),
            waiting: d.waiting.insert(future),
            closing: if inbox.closed {
                d.closing.insert(future)
            } else {
                d.closing
            },
            ..d
        }
    }
}

/// The connection once it holds, of what waits to be sent on a stream, the rest.
pub open spec fn left_to_send(
    c: ConnectionView,
    stream_id: u64,
    left: Seq<u8>,
    fin: bool,
) -> ConnectionView {
    ConnectionView {
        streams: if fin && left.len() == 0 {
            c.streams.remove(stream_id)
        } else {
            c.streams.insert(
                stream_id,
                StreamView { send_buf: left, send_fin: fin, ..c.streams[stream_id] },
            )
        },
        ..c
    }
}

/// A response of a consumer is written to its stream, in its frame and behind
/// what waits there, as far as it fits; the driver goes on by what is left.
pub proof fn consumer_answers_its_query(
    d: DriverView,
    quic: TransportView,
    ready: ReadyView,
    data: Seq<u8>,
    fin: bool,
)
    requires
        d.conn is Some,
        ready.message == Some(ResponderMessageView::Response { data, fin }),
        d.conn->0.streams.contains_key(ready.stream_id),
        !d.conn->0.streams[ready.stream_id].send_fin,
        is_sendable(quic, ready.stream_id),
        data.len() <= 65535,
    ensures
        ({
            let id = ready.stream_id;
            let c = d.conn->0;
            let step = d.responder_ready(quic, ready);
            let bytes = c.streams[id].send_buf + frame(data);
            let n = fitting(quic.streams[id].send_window, quic, bytes.len());
            let left = bytes.skip(n);
            &&& step.result == Ok::<(), DriverError>(())
            &&& sends_what_fits(quic, step.quic, id, bytes, fin, left)
            &&& step.driver == gone_on(
                DriverView { conn: Some(left_to_send(c, id, left, fin)), ..d },
                id,
                ready.inbox,
                fin,
                left.len() > 0,
            )
        }),
{
    let id = ready.stream_id;
    let c = d.conn->0;
    response_is_sent_as_far_as_it_fits(c, quic, id, data, fin);
    let step = d.responder_ready(quic, ready);
    let bytes = c.streams[id].send_buf + frame(data);
    let n = fitting(quic.streams[id].send_window, quic, bytes.len());
    let left = bytes.skip(n);
    assert(c.send_response(quic, id, data, fin).doq == left_to_send(c, id, left, fin));
    assert(step.driver =~= gone_on(
        DriverView { conn: Some(left_to_send(c, id, left, fin)), ..d },
        id,
        ready.inbox,
        fin,
        left.len() > 0,
    ));
}

/// A response for which there is no use any more, or no stream that takes it,
/// ends its query without ending the connection. One that is too large to frame
/// has the stream reset with `DOQ_INTERNAL_ERROR`.
pub proof fn useless_answer_ends_its_query(
    d: DriverView,
    quic: TransportView,
    ready: ReadyView,
    data: Seq<u8>,
    fin: bool,
)
    requires
        d.conn is Some,
        ready.message == Some(ResponderMessageView::Response { data, fin }),
        quic.streams.contains_key(ready.stream_id) || quic.is_server == (ready.stream_id % 2 == 0),
    ensures
        ({
            let id = ready.stream_id;
            let c = d.conn->0;
            let step = d.responder_ready(quic, ready);
            let over = DriverView { queries: d.queries.remove(id), ..d };
            let awaited = c.streams.contains_key(id) && !c.streams[id].send_fin;
            if !awaited {
                step == (Step { driver: over, quic, result: Ok(()) })
            } else if data.len() > 65535 {
                step == (Step {
                    driver: given_up(d, id),
                    quic: reset_on(quic, id, 1),
                    result: Ok(()),
                })
            } else {
                !is_sendable(quic, id) ==> step == (Step {
                    driver: DriverView {
                        conn: Some(
                            ConnectionView {
                                streams: c.streams.insert(
                                    id,
                                    StreamView {
                                        send_buf: c.streams[id].send_buf + frame(data),
                                        send_fin: fin,
                                        ..c.streams[id]
                                    },
                                ),
                                ..c
                            },
                        ),
                        ..over
                    },
                    quic,
                    result: Ok(()),
                })
            }
        }),
{
    let id = ready.stream_id;
    let c = d.conn->0;
    response_is_refused_for_a_reason(c, quic, id, data, fin);
    let step = d.responder_ready(quic, ready);
    let over = DriverView { queries: d.queries.remove(id), ..d };
    if !(c.streams.contains_key(id) && !c.streams[id].send_fin) {
        assert(d.with_conn(c) =~= d);
        assert(step.driver =~= over);
    } else if data.len() > 65535 {
        assert(d.with_conn(c) =~= d);
        resetting_gives_the_stream_up(d, quic, id, DoqError::InternalError);
    } else if !is_sendable(quic, id) {
        unsendable_response_is_reported(c, quic, id, data, fin);
    }
}

/// What waits of a response is written as far as it fits, and the driver goes on
/// by what is left.
pub proof fn waiting_response_is_written_on(
    d: DriverView,
    quic: TransportView,
    stream_id: u64,
    inbox: Inbox,
    fin: bool,
)
    requires
        d.conn is Some,
        d.conn->0.streams.contains_key(stream_id),
        is_sendable(quic, stream_id),
    ensures
        ({
            let c = d.conn->0;
            let s = c.streams[stream_id];
            let step = d.flush_stream(quic, stream_id, inbox, fin);
            let n = fitting(quic.streams[stream_id].send_window, quic, s.send_buf.len());
            let left = s.send_buf.skip(n);
            &&& step.result == Ok::<(), DriverError>(())
            &&& sends_what_fits(quic, step.quic, stream_id, s.send_buf, s.send_fin, left)
            &&& step.driver == gone_on(
                DriverView { conn: Some(left_to_send(c, stream_id, left, s.send_fin)), ..d },
                stream_id,
                inbox,
                fin,
                left.len() > 0,
            )
        }),
{
    let c = d.conn->0;
    let s = c.streams[stream_id];
    flush_sends_what_fits(c, quic, stream_id);
    let step = d.flush_stream(quic, stream_id, inbox, fin);
    let n = fitting(quic.streams[stream_id].send_window, quic, s.send_buf.len());
    let left = s.send_buf.skip(n);
    assert(step.driver =~= gone_on(
        DriverView { conn: Some(left_to_send(c, stream_id, left, s.send_fin)), ..d },
        stream_id,
        inbox,
        fin,
        left.len() > 0,
    ));
}

/// Where the stream takes nothing more of a response, or is not tracked, the
/// query is over; where nothing waits, the driver goes on.
pub proof fn unsendable_response_ends_its_query(
    d: DriverView,
    quic: TransportView,
    stream_id: u64,
    inbox: Inbox,
    fin: bool,
)
    requires
        d.conn is Some,
        !is_sendable(quic, stream_id),
        quic.streams.contains_key(stream_id) || quic.is_server == (stream_id % 2 == 0),
    ensures
        ({
            let s = d.conn->0.streams[stream_id];
            let waits = s.send_buf.len() > 0 || s.send_fin;
            d.flush_stream(quic, stream_id, inbox, fin) == (Step {
                driver: if d.conn->0.streams.contains_key(stream_id) && !waits {
                    gone_on(d, stream_id, inbox, fin, false)
                } else {
                    DriverView { queries: d.queries.remove(stream_id), ..d }
                },
                quic,
                result: Ok(()),
            })
        }),
{
    let c = d.conn->0;
    assert(d.with_conn(c) =~= d);
    if c.streams.contains_key(stream_id) {
        unsendable_response_is_reported(c, quic, stream_id, Seq::empty(), false);
    }
}

/// A driver without a connection says so, whatever a consumer says; a query that
/// the consumer has given up is forgotten all the same.
pub proof fn driver_without_connection_answers_nothing(
    d: DriverView,
    quic: TransportView,
    ready: ReadyView,
)
    requires
        d.conn is None,
    ensures
        d.responder_ready(quic, ready) == (Step {
            driver: if ready.message matches Some(m) && m is Response {
                d
            } else {
                DriverView { queries: d.queries.remove(ready.stream_id), ..d }
            },
            quic,
            result: Err(DriverError::NotEstablished),
        }),
        d.flush_stream(quic, ready.stream_id, ready.inbox, false) == (Step {
            driver: d,
            quic,
            result: Err(DriverError::NotEstablished),
        }),
{
}

/// What a query's receiver is for next: it is parked where bytes of the stream
/// wait, dropped behind the final response, and else waited on.
pub proof fn receiver_goes_on_by_what_is_left(
    d: DriverView,
    stream_id: u64,
    inbox: Inbox,
    fin: bool,
)
    requires
        d.conn is Some,
    ensures
        ({
            let c = d.conn->0;
            let is_left = c.streams.contains_key(stream_id) && c.streams[stream_id].send_buf.len()
                > 0;
            d.written(stream_id, inbox, fin) == gone_on(d, stream_id, inbox, fin, is_left)
        }),
        d.check_out(stream_id, inbox) == gone_on(d, stream_id, inbox, false, false),
{
}

/// Which failed writes concern the one query only: those of a stream that is not
/// tracked, that the peer has stopped, or that the QUIC layer has done with, and
/// of a message that is too large, for which the stream is reset. The query is
/// then over. Any other error ends the connection, and leaves everything as it is.
pub proof fn failed_write_ends_its_query_or_the_connection(
    d: DriverView,
    quic: TransportView,
    stream_id: u64,
    error: Error,
)
    requires
        d.conn is Some,
    ensures
        d.write_failed(quic, stream_id, error) == match error {
            Error::UnknownStream
            | Error::TransportError(TransportError::StreamStopped(_))
            | Error::TransportError(TransportError::InvalidStreamState(_)) => Step {
                driver: DriverView { queries: d.queries.remove(stream_id), ..d },
                quic,
                result: Ok(()),
            },
            Error::MessageTooLarge => Step {
                driver: given_up(d, stream_id),
                quic: reset_if_tracked(d, quic, stream_id, 1),
                result: Ok(()),
            },
            e => Step { driver: d, quic, result: Err(DriverError::Doq(e)) },
        },
{
    resetting_gives_the_stream_up(d, quic, stream_id, DoqError::InternalError);
}

/// What is offered to the consumer for a query, and what becomes of the query by
/// the outcome. The consumer gets the message as it was surfaced and a responder,
/// whose channel is then waited on if the consumer has taken the event.
pub proof fn query_is_handed_to_the_consumer(
    d: DriverView,
    stream_id: u64,
    data: Seq<u8>,
    is_0rtt: bool,
    channel: int,
    offer: Offer,
)
    ensures
        ({
            let offered = DriverView {
                offered: d.offered.push(
                    DoqEventView::Query { data, is_0rtt, channel, capacity: d.responder_capacity },
                ),
                outcomes: d.outcomes.push(offer),
                ..d
            };
            d.read_event(stream_id, EventView::Query { data, is_0rtt }, channel, offer)
                == match offer {
                Offer::Accepted => (
                    DriverView {
                        queries: d.queries.insert(
                            stream_id,
                            QueryView { parked: None, pending_fin: false },
                        ),
                        waiting: d.waiting.insert((stream_id, channel)),
                        ..offered
                    },
                    Ok::<(), DriverError>(()),
                ),
                Offer::Full => (offered, Err(DriverError::EventChannelFull)),
                Offer::Closed => (offered, Ok(())),
            }
        }),
{
}

/// What becomes of a query by what came of its offer: the consumer that has taken
/// it is waited for on its channel; one that is too slow ends the connection; one
/// that is gone has no query.
pub proof fn offer_decides_about_the_query(
    d: DriverView,
    stream_id: u64,
    inbox: Inbox,
    offer: Offer,
)
    ensures
        d.query_offered(stream_id, inbox, offer) == match offer {
            Offer::Accepted => (
                gone_on(d, stream_id, inbox, false, false),
                Ok::<(), DriverError>(()),
            ),
            Offer::Full => (d, Err(DriverError::EventChannelFull)),
            Offer::Closed => (d, Ok(())),
        },
{
}

/// A query that the peer has reset is closed for its consumer: a parked receiver
/// is dropped with the query, and the channel that is waited on is closed.
/// Nothing else changes, and other queries are left alone.
pub proof fn reset_query_is_closed_for_its_consumer(
    d: DriverView,
    stream_id: u64,
    code: u64,
    channel: int,
    offer: Offer,
    future: (u64, int),
)
    ensures
        ({
            let (after, r) = d.read_event(stream_id, EventView::Reset(code), channel, offer);
            &&& r == Ok::<(), DriverError>(())
            &&& after == d.cancel_responder(stream_id)
            &&& if !d.queries.contains_key(stream_id) {
                after == d
            } else if d.queries[stream_id].parked is Some {
                after == (DriverView { queries: d.queries.remove(stream_id), ..d })
            } else {
                &&& after == (DriverView { closing: after.closing, ..d })
                &&& after.closing.count(future) == if future.0 == stream_id {
                    d.waiting.count(future)
                } else {
                    d.closing.count(future)
                }
            }
        }),
{
    let after = d.cancel_responder(stream_id);
    let others = d.closing.filter(of_others(stream_id));
    let own = d.waiting.filter(of_stream(stream_id));
    assert(others.count(future) == if future.0 != stream_id {
        d.closing.count(future)
    } else {
        0
    });
    assert(own.count(future) == if future.0 == stream_id {
        d.waiting.count(future)
    } else {
        0
    });
}

/// The QUIC layer closed by the application with a code and a reason, unless it
/// was closed or has ended before.
pub open spec fn closed_by_app(
    quic: TransportView,
    error_code: u64,
    reason: Seq<u8>,
) -> TransportView {
    if quic.closed || quic.local_error is Some {
        quic
    } else {
        TransportView {
            local_error: Some(ConnectionErrorView { is_app: true, error_code, reason }),
            actions: quic.actions.push(ActionView::Close { is_app: true, error_code, reason }),
            ..quic
        }
    }
}

/// The QUIC layer once it was closed for a command, if there is one.
pub open spec fn obeyed(quic: TransportView, command: Option<DoqCommandView>) -> TransportView {
    match command {
        Some(DoqCommandView::CloseConnection { error, reason }) => closed_by_app(
            quic,
            assigned_code(error),
            reason,
        ),
        None => quic,
    }
}

/// What ends a wait is dealt with: a command closes the connection with the code
/// and the reason that it gives; that the event receiver is gone closes it
/// without an error, the first time; what a consumer said is an answer to its
/// query.
#[verifier::rlimit(40)]
pub proof fn end_of_a_wait_is_dealt_with(
    d: DriverView,
    quic: TransportView,
    ready: ReadyView,
    command: DoqCommandView,
)
    ensures
        d.after_wait(quic, WakeupView::Ready(ready), None) == d.responder_ready(quic, ready),
        d.after_wait(quic, WakeupView::Command(command), None) == (Step {
            driver: d,
            quic: obeyed(quic, Some(command)),
            result: Ok(()),
        }),
        d.after_wait(quic, WakeupView::EventReceiverGone, None) == (Step {
            driver: DriverView { event_receiver_dropped: true, ..d },
            quic: if d.event_receiver_dropped {
                quic
            } else {
                closed_by_app(quic, 0, Seq::empty())
            },
            result: Ok(()),
        }),
{
}

/// A command that has come as well is executed behind what has ended a wait,
/// unless that has failed: the controller is not starved.
#[verifier::rlimit(40)]
pub proof fn command_is_executed_behind_the_end_of_a_wait(
    d: DriverView,
    quic: TransportView,
    wakeup: WakeupView,
    command: DoqCommandView,
)
    ensures
        ({
            let first = d.after_wait(quic, wakeup, None);
            d.after_wait(quic, wakeup, Some(command)) == if first.result is Ok {
                Step {
                    driver: DriverView {
                        commands: first.driver.commands.push(command),
                        ..first.driver
                    },
                    quic: obeyed(first.quic, Some(command)),
                    result: Ok(()),
                }
            } else {
                first
            }
        }),
{
    let first = d.wake(quic, wakeup);
    assert(d.after_wait(quic, wakeup, None) == first);
}

/// What a command makes of the QUIC layer.
pub proof fn command_closes_the_connection(quic: TransportView, command: DoqCommandView)
    ensures
        crate::driver_model::commanded(quic, command) == obeyed(quic, Some(command)),
{
}

/// At the end of a wait its channel is no longer waited on, and what came of it
/// is noted; nothing else changes.
pub proof fn ended_wait_is_over(d: DriverView, ready: ReadyView)
    ensures
        ({
            let future = (ready.stream_id, ready.inbox.channel);
            d.take_back(ready) == (DriverView {
                resolved: d.resolved.push(ready),
                waiting: d.waiting.remove(future),
                closing: if ready.inbox.closed {
                    d.closing.remove(future)
                } else {
                    d.closing
                },
                ..d
            })
        }),
{
}

} // verus!
