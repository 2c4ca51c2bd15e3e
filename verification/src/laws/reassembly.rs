//! Laws of how received bytes become events.

use vstd::prelude::*;

use crate::connection::Error;
use crate::laws::framing::{
    all_fit, arrival_in_pieces_does_not_matter, framed_message_reads_back,
    framed_messages_are_found, frames, partial_frame_is_no_message, read_message_was_framed,
};
use crate::model::{messages, remainder, responses, ConnectionView, EventView, StreamView};
use crate::transport::{ActionView, RecvEnd, Shutdown, TransportView};
use crate::wire::{frame, front, Front, MAX_DNS_MESSAGE_LEN, MAX_DOQ_MESSAGE_LEN};

verus! {

/// A server surfaces a query exactly when the stream has ended and its bytes
/// are the frame of that query, and nothing more.
pub proof fn query_is_surfaced_at_the_end_of_its_stream(
    c: ConnectionView,
    stream_id: u64,
    data: Seq<u8>,
    is_0rtt: bool,
)
    requires
        c.streams.contains_key(stream_id),
    ensures
        c.drain_server(stream_id).1 == Ok::<_, Error>(seq![EventView::Query { data, is_0rtt }])
            <==> {
            let s = c.streams[stream_id];
            &&& s.fin_received
            &&& !s.event_triggered
            &&& data.len() <= MAX_DNS_MESSAGE_LEN
            &&& s.recv_buf == frame(data)
            &&& s.is_0rtt == is_0rtt
        },
{
    let s = c.streams[stream_id];
    let query = seq![EventView::Query { data, is_0rtt }];
    if data.len() <= MAX_DNS_MESSAGE_LEN {
        framed_message_reads_back(data, Seq::empty());
        assert(frame(data) + Seq::<u8>::empty() =~= frame(data));
    }
    if !s.event_triggered {
        if let Front::Message { data: found, consumed } = front(s.recv_buf) {
            read_message_was_framed(s.recv_buf, found, consumed);
            assert(s.recv_buf.take(s.recv_buf.len() as int) =~= s.recv_buf);
            if c.drain_server(stream_id).1 == Ok::<_, Error>(query) {
                let got = seq![EventView::Query { data: found, is_0rtt: s.is_0rtt }];
                assert(got[0] == query[0]);
            }
        }
    }
    assert(Seq::<EventView>::empty().len() != query.len());
}

/// A server surfaces at most one query for a stream: once one was surfaced,
/// the stream yields none, and further bytes on it break the protocol.
pub proof fn one_query_for_each_stream(c: ConnectionView, stream_id: u64)
    requires
        c.streams.contains_key(stream_id),
        c.streams[stream_id].event_triggered,
    ensures
        c.drain_server(stream_id).0 == c,
        c.drain_server(stream_id).1 == if c.streams[stream_id].recv_buf.len() > 0 {
            Err(Error::ProtocolError)
        } else {
            Ok(Seq::<EventView>::empty())
        },
{
}

/// That an event was surfaced for a stream is not forgotten while the stream
/// is tracked.
pub proof fn surfacing_is_not_forgotten(c: ConnectionView, quic: TransportView, stream_id: u64)
    requires
        c.streams.contains_key(stream_id),
        c.streams[stream_id].event_triggered,
    ensures
        c.process_readable_stream(quic, stream_id).doq.streams.contains_key(stream_id)
            ==> c.process_readable_stream(quic, stream_id).doq.streams[stream_id].event_triggered,
{
}

/// A stream that ends before its query is whole, or goes on behind it, breaks
/// the protocol.
pub proof fn malformed_query_is_a_protocol_error(c: ConnectionView, stream_id: u64)
    requires
        c.streams.contains_key(stream_id),
        !c.streams[stream_id].event_triggered,
    ensures
        c.drain_server(stream_id).1 == Err::<Seq<EventView>, _>(Error::ProtocolError) <==> {
            let s = c.streams[stream_id];
            ||| s.fin_received && !(front(s.recv_buf) is Message)
            ||| front(s.recv_buf) is Message && front(s.recv_buf)->consumed < s.recv_buf.len()
        },
{
}

/// A query may arrive in pieces: nothing is surfaced before its end, and then
/// the query is surfaced as it was framed, with the mark that the stream got
/// with its first byte.
pub proof fn query_may_arrive_in_pieces(
    c: ConnectionView,
    stream_id: u64,
    s: StreamView,
    data: Seq<u8>,
    n: int,
)
    requires
        !s.event_triggered,
        !s.fin_received,
        s.recv_buf.len() == 0,
        data.len() <= MAX_DNS_MESSAGE_LEN,
        0 <= n <= frame(data).len(),
    ensures
        ({
            let first = c.with_stream(stream_id, s.received(frame(data).take(n), false));
            let (waiting, none) = first.drain_server(stream_id);
            let whole = waiting.with_stream(
                stream_id,
                waiting.streams[stream_id].received(frame(data).skip(n), true),
            );
            &&& none == Ok::<_, Error>(Seq::<EventView>::empty())
            &&& waiting == first
            &&& whole.drain_server(stream_id).1 == Ok::<_, Error>(
                seq![EventView::Query { data, is_0rtt: s.is_0rtt }],
            )
        }),
{
    let first = c.with_stream(stream_id, s.received(frame(data).take(n), false));
    assert(s.recv_buf + frame(data).take(n) =~= frame(data).take(n));
    assert(frame(data).take(n) + frame(data).skip(n) =~= frame(data));
    if n < frame(data).len() {
        partial_frame_is_no_message(data, n);
    } else {
        framed_message_reads_back(data, Seq::empty());
        assert(frame(data).take(n) =~= frame(data) + Seq::<u8>::empty());
    }
    let whole = first.with_stream(
        stream_id,
        first.streams[stream_id].received(frame(data).skip(n), true),
    );
    query_is_surfaced_at_the_end_of_its_stream(whole, stream_id, data, s.is_0rtt);
}

/// A client surfaces the responses that a stream carries one by one, in their
/// order, and their end once behind the last of them, when the stream is no
/// longer tracked.
pub proof fn responses_are_surfaced_in_order(
    c: ConnectionView,
    stream_id: u64,
    msgs: Seq<Seq<u8>>,
)
    requires
        c.streams.contains_key(stream_id),
        all_fit(msgs),
        c.streams[stream_id].recv_buf == frames(msgs),
        c.streams[stream_id].event_triggered || msgs.len() > 0,
    ensures
        c.drain_client(stream_id).1 == if c.streams[stream_id].fin_received {
            Ok::<_, Error>(responses(msgs).push(EventView::Finished))
        } else {
            Ok(responses(msgs))
        },
        c.drain_client(stream_id).0.streams.contains_key(stream_id)
            <==> !c.streams[stream_id].fin_received,
{
    framed_messages_are_found(msgs, Seq::empty());
    assert(frames(msgs) + Seq::<u8>::empty() =~= frames(msgs));
}

/// Responses may arrive in pieces: what a client surfaces for two arrivals,
/// one after the other, is what it surfaces for both at once, and leaves the
/// stream in the same state.
pub proof fn responses_may_arrive_in_pieces(
    c: ConnectionView,
    stream_id: u64,
    s: StreamView,
    first: Seq<u8>,
    second: Seq<u8>,
    fin: bool,
)
    requires
        !s.fin_received,
    ensures
        ({
            let (between, early) = c.with_stream(stream_id, s.received(first, false)).drain_client(
                stream_id,
            );
            let (after, late) = between.with_stream(
                stream_id,
                between.streams[stream_id].received(second, fin),
            ).drain_client(stream_id);
            let (at_once, all) = c.with_stream(
                stream_id,
                s.received(first + second, fin),
            ).drain_client(stream_id);
            &&& early is Ok
            &&& after == at_once
            &&& match late {
                Ok(events) => all == Ok::<_, Error>(early->Ok_0 + events),
                Err(e) => all == Err::<Seq<EventView>, _>(e),
            }
        }),
{
    let bytes = s.recv_buf + first;
    let left = remainder(bytes);
    arrival_in_pieces_does_not_matter(bytes, second);
    assert(s.recv_buf + (first + second) =~= bytes + second);
    let early = responses(messages(bytes));
    let late = responses(messages(left + second));
    let all = responses(messages(bytes + second));
    assert(early + late =~= all);
    assert(early + late.push(EventView::Finished) =~= all.push(EventView::Finished));
    let c1 = c.with_stream(stream_id, s.received(first, false));
    let (between, e) = c1.drain_client(stream_id);
    let c2 = between.with_stream(
        stream_id,
        between.streams[stream_id].received(second, fin),
    );
    let c3 = c.with_stream(stream_id, s.received(first + second, fin));
    assert(c2.drain_client(stream_id).0 =~= c3.drain_client(stream_id).0);
}

/// A stream that ends before its first response, or inside of one, breaks the
/// protocol; no other stream of responses does.
pub proof fn truncated_response_is_a_protocol_error(c: ConnectionView, stream_id: u64)
    requires
        c.streams.contains_key(stream_id),
    ensures
        c.drain_client(stream_id).1 == Err::<Seq<EventView>, _>(Error::ProtocolError) <==> {
            let s = c.streams[stream_id];
            &&& s.fin_received
            &&& {
                ||| !s.event_triggered && messages(s.recv_buf).len() == 0
                ||| remainder(s.recv_buf).len() > 0
            }
        },
        c.drain_client(stream_id).1 is Err ==> c.drain_client(stream_id).1 == Err::<
            Seq<EventView>,
            _,
        >(Error::ProtocolError),
{
}

/// A server takes no more for a query than its frame can hold: more bytes than
/// that break the protocol, and the stream is dropped.
pub proof fn oversized_query_is_a_protocol_error(
    c: ConnectionView,
    quic: TransportView,
    stream_id: u64,
)
    requires
        c.is_server,
        stream_id % 4 == 0,
        quic.streams.contains_key(stream_id),
        quic.streams[stream_id].recv_data.len() > 0,
        !(quic.streams[stream_id].recv_end is Reset),
        c.stream_or_fresh(stream_id, quic.arrived_early(stream_id)).recv_buf.len()
            + quic.streams[stream_id].recv_data.len() > MAX_DOQ_MESSAGE_LEN,
    ensures
        c.process_readable_stream(quic, stream_id).result == Err::<Seq<EventView>, _>(
            Error::ProtocolError,
        ),
        !c.process_readable_stream(quic, stream_id).doq.streams.contains_key(stream_id),
{
}

/// A stream is marked by whether its first bytes arrived in early data, however
/// late they are read, and the mark stays as it is.
pub proof fn early_data_mark_is_taken_once(c: ConnectionView, quic: TransportView, stream_id: u64)
    ensures
        c.process_readable_stream(quic, stream_id).doq.streams.contains_key(stream_id)
            ==> c.process_readable_stream(quic, stream_id).doq.streams[stream_id].is_0rtt
            == if c.streams.contains_key(stream_id) {
            c.streams[stream_id].is_0rtt
        } else {
            quic.arrived_early(stream_id)
        },
{
}

/// A stream that the peer resets is surfaced with the peer's code, unmapped,
/// and dropped. A server answers with the same code, unless the sending side
/// has ended.
pub proof fn reset_is_surfaced_and_answered(
    c: ConnectionView,
    quic: TransportView,
    stream_id: u64,
    code: u64,
)
    requires
        stream_id % 4 == 0,
        quic.streams.contains_key(stream_id),
        quic.streams[stream_id].recv_end == RecvEnd::Reset(code),
    ensures
        ({
            let o = c.process_readable_stream(quic, stream_id);
            let s = quic.streams[stream_id];
            &&& o.result == Ok::<_, Error>(seq![EventView::Reset(code)])
            &&& o.doq == c.without_stream(stream_id)
            &&& o.quic.actions == if c.is_server && s.send_end is Open && s.stopped is None {
                quic.actions.push(
                    ActionView::Shutdown { stream_id, direction: Shutdown::Write, error: code },
                )
            } else {
                quic.actions
            }
        }),
{
}

} // verus!
