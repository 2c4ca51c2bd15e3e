//! Laws of what is read from a stream, and what is made of it.

use vstd::prelude::*;

use crate::connection::Error;
use crate::laws::framing::{
    all_fit, bytes_are_messages_and_remainder, framed_message_reads_back,
    framed_messages_are_found, frames, partial_frame_is_no_message,
};
use crate::model::{
    messages, remainder, responses, ConnectionView, EventView, Outcome, StreamView,
};
use crate::transport::{
    ids_without, other_than, ActionView, RecvEnd, SendEnd, Shutdown, TransportError,
    TransportStreamView, TransportView,
};
use crate::wire::{frame, front};

verus! {

/// The bytes of a stream that were read before and are still held.
pub open spec fn held(c: ConnectionView, stream_id: u64) -> Seq<u8> {
    if c.streams.contains_key(stream_id) {
        c.streams[stream_id].recv_buf
    } else {
        Seq::empty()
    }
}

/// The bytes of a stream that were received and not yet read.
pub open spec fn at_hand(quic: TransportView, stream_id: u64) -> Seq<u8> {
    if quic.streams.contains_key(stream_id) {
        quic.streams[stream_id].recv_data
    } else {
        Seq::empty()
    }
}

/// Whether there is something to read on a stream that the peer has not reset:
/// bytes, or STREAM FIN.
pub open spec fn has_arrived(quic: TransportView, stream_id: u64) -> bool {
    let q = quic.streams[stream_id];
    &&& quic.streams.contains_key(stream_id)
    &&& q.recv_data.len() > 0 || q.recv_end == RecvEnd::Fin
    &&& !(q.recv_end is Reset)
}

/// Whether the peer has ended a stream, as far as was noted or can be read.
pub open spec fn is_ended(c: ConnectionView, quic: TransportView, stream_id: u64) -> bool {
    ||| c.streams.contains_key(stream_id) && c.streams[stream_id].fin_received
    ||| quic.streams[stream_id].recv_end == RecvEnd::Fin
}

/// Whether an event was surfaced for a stream.
pub open spec fn has_surfaced(c: ConnectionView, stream_id: u64) -> bool {
    c.streams.contains_key(stream_id) && c.streams[stream_id].event_triggered
}

/// Whether the first bytes of a stream came in early data, as was noted when
/// they were read, or can be seen now that they are.
pub open spec fn is_early(c: ConnectionView, quic: TransportView, stream_id: u64) -> bool {
    if c.streams.contains_key(stream_id) {
        c.streams[stream_id].is_0rtt
    } else {
        quic.streams[stream_id].arrived_early
    }
}

/// All ids but one, in their order.
pub open spec fn ids_but(ids: Seq<u64>, stream_id: u64) -> Seq<u64> {
    ids.filter(|id: u64| id != stream_id)
}

pub(crate) proof fn ids_but_is_ids_without(ids: Seq<u64>, stream_id: u64)
    ensures
        ids_but(ids, stream_id) == ids_without(ids, stream_id),
{
    assert(other_than(stream_id) =~= |id: u64| id != stream_id);
}

/// The QUIC layer once all of a stream that is there was read.
pub open spec fn read_out(quic: TransportView, stream_id: u64) -> TransportView {
    let q = quic.streams[stream_id];
    TransportView {
        streams: quic.streams.insert(
            stream_id,
            TransportStreamView {
                recv_data: Seq::empty(),
                recv_end: if q.recv_end == RecvEnd::Fin {
                    RecvEnd::Finished
                } else {
                    q.recv_end
                },
                ..q
            },
        ),
        readable: ids_but(quic.readable, stream_id),
        ..quic
    }
}

/// The connection once it holds `left` of what was read from a stream, and has
/// surfaced an event for it or not. What is to be sent is as it was.
pub open spec fn holding(
    c: ConnectionView,
    quic: TransportView,
    stream_id: u64,
    left: Seq<u8>,
    surfaced: bool,
) -> ConnectionView {
    let tracked_before = c.streams.contains_key(stream_id);
    let s = c.streams[stream_id];
    ConnectionView {
        streams: c.streams.insert(
            stream_id,
            StreamView {
                recv_buf: left,
                fin_received: is_ended(c, quic, stream_id),
                is_0rtt: is_early(c, quic, stream_id),
                is_local: tracked_before && s.is_local,
                event_triggered: surfaced,
                send_buf: if tracked_before {
                    s.send_buf
                } else {
                    Seq::empty()
                },
                send_fin: tracked_before && s.send_fin,
            },
        ),
        ..c
    }
}

pub(crate) proof fn reading_takes_everything(c: ConnectionView, quic: TransportView, stream_id: u64)
    requires
        has_arrived(quic, stream_id),
        c.is_server ==> held(c, stream_id).len() + at_hand(quic, stream_id).len() <= 65537,
    ensures
        ({
            let o = c.read_stream(quic, stream_id);
            let all = held(c, stream_id) + at_hand(quic, stream_id);
            &&& o.result == Ok::<Option<u64>, Error>(None)
            &&& o.quic == read_out(quic, stream_id)
            &&& o.doq == holding(c, quic, stream_id, all, has_surfaced(c, stream_id))
        }),
{
    ids_but_is_ids_without(quic.readable, stream_id);
    let o = c.read_stream(quic, stream_id);
    let all = held(c, stream_id) + at_hand(quic, stream_id);
    assert(c.stream_or_fresh(stream_id, quic.arrived_early(stream_id)).recv_buf == held(
        c,
        stream_id,
    ));
    assert(o.doq =~= holding(c, quic, stream_id, all, has_surfaced(c, stream_id)));
    assert(o.quic =~= read_out(quic, stream_id));
}

/// What a server makes of a stream of a client's that has bytes or STREAM FIN to
/// read, up to what a query can take: it reads all of it, and surfaces what it
/// has read of the stream as a query exactly where that is its frame, and the
/// stream has ended. Until then it holds on to a beginning of a frame. Anything
/// else breaks the protocol.
pub proof fn server_surfaces_what_was_sent(
    c: ConnectionView,
    quic: TransportView,
    stream_id: u64,
    data: Seq<u8>,
    n: int,
    rest: Seq<u8>,
)
    requires
        c.is_server,
        stream_id % 4 == 0,
        has_arrived(quic, stream_id),
        held(c, stream_id).len() + at_hand(quic, stream_id).len() <= 65537,
        data.len() <= 65535,
        0 <= n <= frame(data).len(),
    ensures
        ({
            let all = held(c, stream_id) + at_hand(quic, stream_id);
            let ended = is_ended(c, quic, stream_id);
            let o = c.process_readable_stream(quic, stream_id);
            let bad = Err::<Seq<EventView>, Error>(Error::ProtocolError);
            let none = Ok::<_, Error>(Seq::<EventView>::empty());
            let query = EventView::Query { data, is_0rtt: is_early(c, quic, stream_id) };
            &&& o.quic == read_out(quic, stream_id)
            &&& if has_surfaced(c, stream_id) {
                &&& o.doq == holding(c, quic, stream_id, all, true)
                &&& o.result == if all.len() > 0 {
                    bad
                } else {
                    none
                }
            } else {
                &&& all == frame(data) && ended ==> {
                    &&& o.result == Ok::<_, Error>(seq![query])
                    &&& o.doq == holding(c, quic, stream_id, Seq::empty(), true)
                }
                &&& all == frame(data).take(n) && !ended ==> {
                    &&& o.result == none
                    &&& o.doq == holding(c, quic, stream_id, all, false)
                }
                &&& all == frame(data).take(n) && n < frame(data).len() && ended ==> {
                    &&& o.result == bad
                    &&& o.doq == holding(c, quic, stream_id, all, false)
                }
                &&& all == frame(data) + rest && rest.len() > 0 ==> {
                    &&& o.result == bad
                    &&& o.doq == holding(c, quic, stream_id, all, false)
                }
            }
        }),
{
    let all = held(c, stream_id) + at_hand(quic, stream_id);
    reading_takes_everything(c, quic, stream_id);
    let read = c.read_stream(quic, stream_id).doq;
    let o = c.process_readable_stream(quic, stream_id);
    framed_message_reads_back(data, rest);
    framed_message_reads_back(data, Seq::empty());
    assert(frame(data) + Seq::<u8>::empty() =~= frame(data));
    if n < frame(data).len() {
        partial_frame_is_no_message(data, n);
    } else {
        assert(frame(data).take(n) =~= frame(data));
    }
    if !has_surfaced(c, stream_id) && all == frame(data) && is_ended(c, quic, stream_id) {
        assert(o.doq =~= holding(c, quic, stream_id, Seq::empty(), true));
    }
}

/// Whether these are the events for some messages, and their end where the
/// stream has ended.
pub open spec fn tell_of(events: Seq<EventView>, msgs: Seq<Seq<u8>>, ended: bool) -> bool {
    &&& events.len() == msgs.len() + if ended {
        1int
    } else {
        0
    }
    &&& forall|i: int|
        0 <= i < msgs.len() ==> #[trigger] events[i] == (EventView::Response { data: msgs[i] })
    &&& ended ==> events.last() == EventView::Finished
}

/// Whether some bytes are the beginning of a frame, and not all of it.
pub open spec fn is_unfinished(bytes: Seq<u8>) -> bool {
    bytes.len() < 2 || bytes.len() < 2 + bytes[0] * 256 + bytes[1]
}

/// What a client makes of the stream of a query that has bytes or STREAM FIN to
/// read: it reads all of it, and surfaces every message that it then has in full,
/// in their order. It holds on to the rest, which is the beginning of another
/// frame. Where the stream has ended behind a message, so do the responses, and
/// the stream is forgotten; where it has ended inside of one or before the first,
/// the protocol is broken.
pub proof fn client_surfaces_what_was_sent(
    c: ConnectionView,
    quic: TransportView,
    stream_id: u64,
    msgs: Seq<Seq<u8>>,
    tail: Seq<u8>,
)
    requires
        !c.is_server,
        stream_id % 4 == 0,
        has_arrived(quic, stream_id),
        all_fit(msgs),
        is_unfinished(tail),
        held(c, stream_id) + at_hand(quic, stream_id) == frames(msgs) + tail,
    ensures
        ({
            let ended = is_ended(c, quic, stream_id);
            let o = c.process_readable_stream(quic, stream_id);
            let surfaced = has_surfaced(c, stream_id) || msgs.len() > 0;
            &&& o.quic == read_out(quic, stream_id)
            &&& if ended && (tail.len() > 0 || !surfaced) {
                &&& o.result == Err::<Seq<EventView>, Error>(Error::ProtocolError)
                &&& o.doq == holding(c, quic, stream_id, tail, surfaced)
            } else {
                &&& o.result is Ok
                &&& tell_of(o.result->Ok_0, msgs, ended)
                &&& o.doq == if ended {
                    ConnectionView { streams: c.streams.remove(stream_id), ..c }
                } else {
                    holding(c, quic, stream_id, tail, surfaced)
                }
            }
        }),
{
    let all = held(c, stream_id) + at_hand(quic, stream_id);
    let surfaced = has_surfaced(c, stream_id) || msgs.len() > 0;
    let ended = is_ended(c, quic, stream_id);
    reading_takes_everything(c, quic, stream_id);
    assert(!(front(tail) is Message));
    framed_messages_are_found(msgs, tail);
    assert(messages(all) == msgs);
    assert(remainder(all) == tail);
    let read = c.read_stream(quic, stream_id).doq;
    let o = c.process_readable_stream(quic, stream_id);
    if ended && (tail.len() > 0 || !surfaced) {
        assert(o.doq =~= holding(c, quic, stream_id, tail, surfaced));
    } else if ended {
        assert(o.doq =~= (ConnectionView { streams: c.streams.remove(stream_id), ..c }));
    } else {
        assert(o.doq =~= holding(c, quic, stream_id, tail, surfaced));
    }
}

/// A stream that the QUIC layer does not know cannot be read, and one on which
/// nothing more has come says nothing while its end is outstanding or its query
/// was surfaced. Neither changes what is known of it.
pub proof fn nothing_is_read_of_nothing(
    c: ConnectionView,
    quic: TransportView,
    stream_id: u64,
    data: Seq<u8>,
)
    requires
        stream_id % 4 == 0,
        !quic.streams.contains_key(stream_id) || (at_hand(quic, stream_id).len() == 0 && (
        quic.streams[stream_id].recv_end is Open || quic.streams[stream_id].recv_end
            is Finished)),
    ensures
        ({
            let o = c.process_readable_stream(quic, stream_id);
            let bytes = held(c, stream_id);
            if !quic.streams.contains_key(stream_id) {
                o == (Outcome::<Seq<EventView>> {
                    doq: c,
                    quic,
                    result: Err(
                        Error::TransportError(TransportError::InvalidStreamState(stream_id)),
                    ),
                })
            } else {
                &&& o.quic == (TransportView {
                    readable: ids_but(quic.readable, stream_id),
                    ..quic
                })
                &&& {
                    ||| c.is_server && has_surfaced(c, stream_id) && bytes.len() == 0
                    ||| !is_ended(c, quic, stream_id) && !(c.is_server && has_surfaced(
                        c,
                        stream_id,
                    )) && (is_unfinished(bytes) || c.is_server && bytes == frame(data)
                        && data.len() <= 65535)
                } ==> o.result == Ok::<_, Error>(Seq::<EventView>::empty()) && o.doq == c
            }
        }),
{
    ids_but_is_ids_without(quic.readable, stream_id);
    if data.len() <= 65535 {
        framed_message_reads_back(data, Seq::empty());
        assert(frame(data) + Seq::<u8>::empty() =~= frame(data));
    }
    let o = c.process_readable_stream(quic, stream_id);
    if quic.streams.contains_key(stream_id) {
        assert(o.quic =~= (TransportView {
            readable: ids_but(quic.readable, stream_id),
            ..quic
        }));
        if c.streams.contains_key(stream_id) && is_unfinished(held(c, stream_id)) {
            let bytes = c.streams[stream_id].recv_buf;
            assert(!(front(bytes) is Message));
            assert(responses(messages(bytes)) =~= Seq::empty());
            if !c.is_server && !is_ended(c, quic, stream_id) {
                assert(o.doq =~= c);
            }
        }
    }
}

/// A server reads no more than it must to see that a query is too long: it then
/// forgets the stream, and the protocol is broken.
pub proof fn oversized_query_is_forgotten(c: ConnectionView, quic: TransportView, stream_id: u64)
    requires
        c.is_server,
        stream_id % 4 == 0,
        has_arrived(quic, stream_id),
        held(c, stream_id).len() + at_hand(quic, stream_id).len() > 65537,
    ensures
        ({
            let o = c.process_readable_stream(quic, stream_id);
            &&& o.result == Err::<Seq<EventView>, Error>(Error::ProtocolError)
            &&& o.doq == (ConnectionView { streams: c.streams.remove(stream_id), ..c })
            &&& o.quic == (TransportView {
                streams: o.quic.streams,
                readable: o.quic.readable,
                ..quic
            })
            &&& forall|id: u64| #[trigger]
                quic.streams.contains_key(id) && id != stream_id ==> o.quic.streams[id]
                    == quic.streams[id]
        }),
{
    let o = c.process_readable_stream(quic, stream_id);
    assert(c.stream_or_fresh(stream_id, quic.arrived_early(stream_id)).recv_buf == held(
        c,
        stream_id,
    ));
}

/// A stream that the peer has reset is read to that end, and forgotten. The code
/// is surfaced as it came. A server answers with the same code where its own side
/// is open, unless the peer has stopped that.
pub proof fn reset_stream_is_forgotten(
    c: ConnectionView,
    quic: TransportView,
    stream_id: u64,
    code: u64,
)
    requires
        stream_id % 4 == 0,
        quic.streams.contains_key(stream_id),
        quic.streams[stream_id].recv_end == RecvEnd::Reset(code),
    ensures
        ({
            let o = c.process_readable_stream(quic, stream_id);
            let q = quic.streams[stream_id];
            let answers = c.is_server && q.send_end == SendEnd::Open && q.stopped is None;
            &&& o.result == Ok::<_, Error>(seq![EventView::Reset(code)])
            &&& o.doq == (ConnectionView { streams: c.streams.remove(stream_id), ..c })
            &&& o.quic == (TransportView {
                streams: quic.streams.insert(
                    stream_id,
                    TransportStreamView {
                        recv_data: Seq::empty(),
                        recv_end: RecvEnd::Finished,
                        send_end: if answers {
                            SendEnd::Reset
                        } else {
                            q.send_end
                        },
                        ..q
                    },
                ),
                readable: ids_but(quic.readable, stream_id),
                actions: if answers {
                    quic.actions.push(
                        ActionView::Shutdown {
                            stream_id,
                            direction: Shutdown::Write,
                            error: code,
                        },
                    )
                } else {
                    quic.actions
                },
                ..quic
            })
        }),
{
    ids_but_is_ids_without(quic.readable, stream_id);
    let o = c.process_readable_stream(quic, stream_id);
    assert(o.quic.streams[stream_id] =~= TransportStreamView {
        recv_data: Seq::empty(),
        recv_end: RecvEnd::Finished,
        send_end: o.quic.streams[stream_id].send_end,
        ..quic.streams[stream_id]
    });
    assert(o.quic.streams =~= quic.streams.insert(stream_id, o.quic.streams[stream_id]));
}

/// Of the streams that DoQ does not use, those that the peer has opened break the
/// protocol: for a server the unidirectional ones of its client, for a client all
/// that its server opens. The connection's own are passed over. Nothing is read
/// from any of them.
pub proof fn streams_of_other_kinds_are_not_read(
    c: ConnectionView,
    quic: TransportView,
    stream_id: u64,
)
    requires
        stream_id % 4 != 0,
    ensures
        c.process_readable_stream(quic, stream_id) == (Outcome::<Seq<EventView>> {
            doq: c,
            quic,
            result: if c.is_server == (stream_id % 4 == 2) {
                Err(Error::ProtocolError)
            } else {
                Ok(Seq::empty())
            },
        }),
{
}

/// Whether nothing more is to be said about a stream of which everything was read.
pub open spec fn is_dealt_with(c: ConnectionView, quic: TransportView, stream_id: u64) -> bool {
    let s = c.streams[stream_id];
    &&& quic.streams.contains_key(stream_id)
    &&& at_hand(quic, stream_id).len() == 0
    &&& quic.streams[stream_id].recv_end is Open || quic.streams[stream_id].recv_end is Finished
    &&& c.streams.contains_key(stream_id) ==> if c.is_server && s.event_triggered {
        s.recv_buf.len() == 0
    } else {
        &&& !s.fin_received
        &&& is_unfinished(s.recv_buf) || c.is_server && s.recv_buf.len() == 2 + s.recv_buf[0] * 256
            + s.recv_buf[1]
    }
}

/// Whether DoQ has a use for a stream, or the connection itself has opened it.
pub open spec fn is_allowed(is_server: bool, stream_id: u64) -> bool {
    stream_id % 4 == 0 || is_server != (stream_id % 4 == 2)
}

proof fn server_with_nothing_to_say_waits(c: ConnectionView, stream_id: u64)
    requires
        c.streams.contains_key(stream_id),
        c.drain_server(stream_id).1 == Ok::<_, Error>(Seq::<EventView>::empty()),
    ensures
        c.drain_server(stream_id).0 == c,
        ({
            let s = c.streams[stream_id];
            if s.event_triggered {
                s.recv_buf.len() == 0
            } else {
                &&& !s.fin_received
                &&& is_unfinished(s.recv_buf) || s.recv_buf.len() == 2 + s.recv_buf[0] * 256
                    + s.recv_buf[1]
            }
        }),
{
    let s = c.streams[stream_id];
    if let Ok(events) = c.drain_server(stream_id).1 {
        assert(events.len() == 0);
    }
}

proof fn client_with_nothing_to_say_waits(c: ConnectionView, stream_id: u64)
    requires
        c.streams.contains_key(stream_id),
        c.drain_client(stream_id).1 == Ok::<_, Error>(Seq::<EventView>::empty()),
    ensures
        c.drain_client(stream_id).0.streams[stream_id].recv_buf == c.streams[stream_id].recv_buf,
        c.drain_client(stream_id).0.streams.contains_key(stream_id),
        c.drain_client(stream_id).0.streams[stream_id].fin_received == false,
        is_unfinished(c.streams[stream_id].recv_buf),
        c.drain_client(stream_id).0.is_server == c.is_server,
{
    let bytes = c.streams[stream_id].recv_buf;
    bytes_are_messages_and_remainder(bytes);
    if let Ok(events) = c.drain_client(stream_id).1 {
        assert(events.len() == 0);
        assert(messages(bytes).len() == 0);
        assert(frames(messages(bytes)) + remainder(bytes) =~= remainder(bytes));
    }
}

pub(crate) proof fn passed_over_is_dealt_with(
    c: ConnectionView,
    quic: TransportView,
    stream_id: u64,
)
    requires
        c.process_readable_stream(quic, stream_id).result == Ok::<_, Error>(
            Seq::<EventView>::empty(),
        ),
    ensures
        ({
            let o = c.process_readable_stream(quic, stream_id);
            &&& is_allowed(c.is_server, stream_id)
            &&& stream_id % 4 == 0 ==> {
                &&& is_dealt_with(o.doq, o.quic, stream_id)
                &&& held(o.doq, stream_id) == held(c, stream_id) + at_hand(quic, stream_id)
            }
            &&& o.doq.pending == c.pending
            &&& o.doq.is_server == c.is_server
            &&& o.quic.local_error == quic.local_error
            &&& o.quic.closed == quic.closed
        }),
{
    let o = c.process_readable_stream(quic, stream_id);
    let all = held(c, stream_id) + at_hand(quic, stream_id);
    if stream_id % 4 == 0 {
        if has_arrived(quic, stream_id) {
            if c.is_server && all.len() > 65537 {
                oversized_query_is_forgotten(c, quic, stream_id);
            } else {
                reading_takes_everything(c, quic, stream_id);
                let read = c.read_stream(quic, stream_id).doq;
                assert(read.streams[stream_id].recv_buf == all);
                if c.is_server {
                    server_with_nothing_to_say_waits(read, stream_id);
                    assert(o.doq == read);
                } else {
                    client_with_nothing_to_say_waits(read, stream_id);
                    assert(o.doq == read.drain_client(stream_id).0);
                }
                assert(o.quic == read_out(quic, stream_id));
                assert(held(o.doq, stream_id) == all);
                assert(is_dealt_with(o.doq, o.quic, stream_id));
            }
        } else if quic.streams.contains_key(stream_id) && quic.streams[stream_id].recv_end
            is Reset {
            reset_stream_is_forgotten(
                c,
                quic,
                stream_id,
                quic.streams[stream_id].recv_end->Reset_0,
            );
            assert(o.result->Ok_0.len() == 1);
        } else {
            assert(quic.streams.contains_key(stream_id));
            assert(all =~= held(c, stream_id));
            if c.streams.contains_key(stream_id) {
                if c.is_server {
                    server_with_nothing_to_say_waits(c, stream_id);
                    assert(o.doq == c);
                } else {
                    client_with_nothing_to_say_waits(c, stream_id);
                    assert(o.doq == c.drain_client(stream_id).0);
                }
            } else {
                assert(o.doq == c);
            }
            assert(held(o.doq, stream_id) == held(c, stream_id));
        }
    }
}

} // verus!
