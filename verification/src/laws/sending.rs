//! Laws of queries and responses on their way out.

use vstd::prelude::*;

use crate::connection::Error;
use crate::laws::framing::{all_fit, frames};
use crate::laws::reassembly::{
    query_is_surfaced_at_the_end_of_its_stream, responses_are_surfaced_in_order,
};
use crate::model::{of_other_stream, responses, ConnectionView, EventView, StreamView};
use crate::transport::{ids_without, other_than, ActionView, Shutdown, TransportView};
use crate::wire::{frame, MAX_DNS_MESSAGE_LEN};

verus! {

/// The bytes that a list of actions sends on a stream, in their order.
pub open spec fn sent_bytes(actions: Seq<ActionView>, stream_id: u64) -> Seq<u8>
    decreases actions.len(),
{
    if actions.len() == 0 {
        Seq::empty()
    } else {
        let before = sent_bytes(actions.drop_last(), stream_id);
        match actions.last() {
            ActionView::Send { stream_id: id, data, .. } if id == stream_id => before + data,
            _ => before,
        }
    }
}

/// Whether a list of actions ends the sending side of a stream (STREAM FIN).
pub open spec fn sent_fin(actions: Seq<ActionView>, stream_id: u64) -> bool {
    exists|i: int|
        0 <= i < actions.len() && (#[trigger] actions[i] matches ActionView::Send {
            stream_id: id,
            fin,
            ..
        } && id == stream_id && fin)
}

/// The bytes of a stream that are queued and not yet taken.
pub open spec fn unsent_bytes(c: ConnectionView, stream_id: u64) -> Seq<u8> {
    if c.streams.contains_key(stream_id) {
        c.streams[stream_id].send_buf
    } else {
        Seq::empty()
    }
}

/// All bytes that were ever queued for a stream: those sent, and those that
/// wait.
pub open spec fn queued_bytes(c: ConnectionView, quic: TransportView, stream_id: u64) -> Seq<u8> {
    sent_bytes(quic.actions, stream_id) + unsent_bytes(c, stream_id)
}

pub(crate) proof fn one_more_action(actions: Seq<ActionView>, action: ActionView, stream_id: u64)
    ensures
        sent_bytes(actions.push(action), stream_id) == match action {
            ActionView::Send { stream_id: id, data, .. } if id == stream_id => sent_bytes(
                actions,
                stream_id,
            ) + data,
            _ => sent_bytes(actions, stream_id),
        },
        sent_fin(actions.push(action), stream_id) == (sent_fin(actions, stream_id) || (
        action matches ActionView::Send { stream_id: id, fin, .. } && id == stream_id && fin)),
{
    let more = actions.push(action);
    assert(more.drop_last() =~= actions);
    if sent_fin(actions, stream_id) {
        let i = choose|i: int|
            0 <= i < actions.len() && (#[trigger] actions[i] matches ActionView::Send {
                stream_id: id,
                fin,
                ..
            } && id == stream_id && fin);
        assert(more[i] == actions[i]);
    }
    if action matches ActionView::Send { stream_id: id, fin, .. } && id == stream_id && fin {
        assert(more[actions.len() as int] == action);
    }
    if sent_fin(more, stream_id) {
        let i = choose|i: int|
            0 <= i < more.len() && (#[trigger] more[i] matches ActionView::Send {
                stream_id: id,
                fin,
                ..
            } && id == stream_id && fin);
        if i < actions.len() {
            assert(actions[i] == more[i]);
        }
    }
}

/// A write takes a beginning of the bytes, and STREAM FIN with the last byte
/// and not before; a write that fails takes nothing. Other streams are left as
/// they are.
pub proof fn write_takes_a_beginning(
    quic: TransportView,
    stream_id: u64,
    data: Seq<u8>,
    fin: bool,
    other: u64,
)
    ensures
        ({
            let (after, r) = quic.send(stream_id, data, fin);
            let n = if r is Ok {
                r->Ok_0 as int
            } else {
                0
            };
            let last = r is Ok && fin && n == data.len();
            &&& 0 <= n <= data.len()
            &&& sent_bytes(after.actions, stream_id) == sent_bytes(quic.actions, stream_id)
                + data.take(n)
            &&& sent_fin(after.actions, stream_id) == (sent_fin(quic.actions, stream_id) || last)
            &&& other != stream_id ==> {
                &&& sent_bytes(after.actions, other) == sent_bytes(quic.actions, other)
                &&& sent_fin(after.actions, other) == sent_fin(quic.actions, other)
            }
        }),
{
    let (after, r) = quic.send(stream_id, data, fin);
    if let Ok(t) = quic.opened(stream_id) {
        one_more_action(quic.actions, ActionView::Open { stream_id }, stream_id);
        one_more_action(quic.actions, ActionView::Open { stream_id }, other);
        let n = if r is Ok {
            r->Ok_0 as int
        } else {
            0
        };
        let last = r is Ok && fin && n == data.len();
        let action = ActionView::Send { stream_id, data: data.take(n), fin: last };
        one_more_action(t.actions, action, stream_id);
        one_more_action(t.actions, action, other);
        assert(sent_bytes(t.actions, stream_id) + data.take(0) =~= sent_bytes(
            quic.actions,
            stream_id,
        ));
    } else {
        assert(sent_bytes(quic.actions, stream_id) + data.take(0) =~= sent_bytes(
            quic.actions,
            stream_id,
        ));
    }
}

/// Flushing neither loses nor repeats a byte: what was sent and what waits
/// stay together what was queued. The same holds of every other stream.
pub proof fn flushing_keeps_the_bytes(
    c: ConnectionView,
    quic: TransportView,
    stream_id: u64,
    other: u64,
)
    ensures
        ({
            let o = c.flush_response(quic, stream_id);
            queued_bytes(o.doq, o.quic, other) == queued_bytes(c, quic, other)
        }),
        ({
            let o = c.flush_query(quic, stream_id);
            queued_bytes(o.doq, o.quic, other) == queued_bytes(c, quic, other)
        }),
{
    let s = c.streams[stream_id];
    write_takes_a_beginning(quic, stream_id, s.send_buf, s.send_fin, other);
    write_takes_a_beginning(quic, stream_id, s.send_buf, true, other);
    let (_, r) = quic.send(stream_id, s.send_buf, s.send_fin);
    let (_, r2) = quic.send(stream_id, s.send_buf, true);
    if r is Ok {
        let n = r->Ok_0 as int;
        assert(s.send_buf.take(n) + s.send_buf.skip(n) =~= s.send_buf);
        assert(sent_bytes(quic.actions, stream_id) + s.send_buf =~= sent_bytes(
            quic.actions,
            stream_id,
        ) + s.send_buf.take(n) + s.send_buf.skip(n));
        assert(n == s.send_buf.len() ==> s.send_buf.skip(n) =~= Seq::empty());
    }
    if r2 is Ok {
        let n = r2->Ok_0 as int;
        assert(sent_bytes(quic.actions, stream_id) + s.send_buf =~= sent_bytes(
            quic.actions,
            stream_id,
        ) + s.send_buf.take(n) + s.send_buf.skip(n));
    }
    assert(s.send_buf.take(0) =~= Seq::empty());
    let sent = sent_bytes(quic.actions, stream_id);
    assert(sent + Seq::<u8>::empty() =~= sent);
    close_sends_nothing(quic, other);
    close_sends_nothing(quic.send(stream_id, s.send_buf, true).0, other);
    let o = c.flush_response(quic, stream_id);
    assert(queued_bytes(o.doq, o.quic, other) =~= queued_bytes(c, quic, other));
    let o = c.flush_query(quic, stream_id);
    assert(queued_bytes(o.doq, o.quic, other) =~= queued_bytes(c, quic, other));
}

proof fn close_sends_nothing(quic: TransportView, stream_id: u64)
    ensures
        forall|is_app: bool, code: u64, reason: Seq<u8>|
            sent_bytes((#[trigger] quic.close(is_app, code, reason)).0.actions, stream_id)
                == sent_bytes(quic.actions, stream_id) && sent_fin(
                quic.close(is_app, code, reason).0.actions,
                stream_id,
            ) == sent_fin(quic.actions, stream_id),
{
    assert forall|is_app: bool, code: u64, reason: Seq<u8>|
        sent_bytes((#[trigger] quic.close(is_app, code, reason)).0.actions, stream_id)
            == sent_bytes(quic.actions, stream_id) && sent_fin(
            quic.close(is_app, code, reason).0.actions,
            stream_id,
        ) == sent_fin(quic.actions, stream_id) by {
        one_more_action(
            quic.actions,
            ActionView::Close { is_app, error_code: code, reason },
            stream_id,
        );
    }
}

/// Flushing a response ends the stream (STREAM FIN) exactly when the end was
/// asked for and the last byte is taken; the stream is then no longer tracked.
pub proof fn response_ends_with_its_last_byte(
    c: ConnectionView,
    quic: TransportView,
    stream_id: u64,
)
    requires
        c.streams.contains_key(stream_id),
        !sent_fin(quic.actions, stream_id),
    ensures
        ({
            let o = c.flush_response(quic, stream_id);
            &&& sent_fin(o.quic.actions, stream_id) <==> !o.doq.streams.contains_key(stream_id)
            &&& sent_fin(o.quic.actions, stream_id) ==> c.streams[stream_id].send_fin
                && sent_bytes(o.quic.actions, stream_id) == queued_bytes(c, quic, stream_id)
        }),
{
    let s = c.streams[stream_id];
    write_takes_a_beginning(quic, stream_id, s.send_buf, s.send_fin, stream_id);
    assert(s.send_buf.take(s.send_buf.len() as int) =~= s.send_buf);
}

/// A response that is accepted is queued in its frame behind what was queued
/// before; one that is refused changes nothing.
pub proof fn response_is_queued_in_its_frame(
    c: ConnectionView,
    quic: TransportView,
    stream_id: u64,
    data: Seq<u8>,
    fin: bool,
)
    ensures
        ({
            let o = c.send_response(quic, stream_id, data, fin);
            if !c.streams.contains_key(stream_id) || c.streams[stream_id].send_fin {
                o.doq == c && o.quic == quic && o.result == Err::<(), _>(Error::UnknownStream)
            } else if data.len() > MAX_DNS_MESSAGE_LEN {
                o.doq == c && o.quic == quic && o.result == Err::<(), _>(Error::MessageTooLarge)
            } else {
                queued_bytes(o.doq, o.quic, stream_id) == queued_bytes(c, quic, stream_id)
                    + frame(data)
            }
        }),
{
    let s = c.streams[stream_id];
    if c.streams.contains_key(stream_id) && !s.send_fin && data.len() <= MAX_DNS_MESSAGE_LEN {
        let queued = c.with_stream(
            stream_id,
            StreamView { send_buf: s.send_buf + frame(data), send_fin: fin, ..s },
        );
        flushing_keeps_the_bytes(queued, quic, stream_id, stream_id);
        assert(queued_bytes(queued, quic, stream_id) =~= queued_bytes(c, quic, stream_id) + frame(
            data,
        ));
    }
}

/// No further response is taken behind the final one.
pub proof fn nothing_follows_the_final_response(
    c: ConnectionView,
    quic: TransportView,
    stream_id: u64,
    data: Seq<u8>,
    later_quic: TransportView,
    later_data: Seq<u8>,
    later_fin: bool,
)
    requires
        c.send_response(quic, stream_id, data, true).result is Ok,
    ensures
        ({
            let o = c.send_response(quic, stream_id, data, true);
            let later = o.doq.send_response(later_quic, stream_id, later_data, later_fin);
            &&& later.result == Err::<(), _>(Error::UnknownStream)
            &&& later.doq == o.doq
            &&& later.quic == later_quic
        }),
{
}

/// Queries take the streams 0, 4, 8 and so on, one each. A query that cannot
/// be sent leaves its stream to the next one, and no trace in the connection;
/// none of its bytes is sent.
pub proof fn queries_take_the_next_stream(c: ConnectionView, quic: TransportView, data: Seq<u8>)
    requires
        c.valid(),
    ensures
        ({
            let o = c.send_query(quic, data);
            let id = c.next_query_stream_id;
            match o.result {
                Ok(sent) => {
                    &&& sent == id
                    &&& o.doq.next_query_stream_id == id + 4
                    &&& o.doq.is_query_stream(id)
                    &&& queued_bytes(o.doq, o.quic, id) == sent_bytes(quic.actions, id) + frame(
                        data,
                    )
                },
                Err(Error::StreamIdExhausted) => id + 4 > u64::MAX,
                Err(_) => {
                    &&& o.doq.next_query_stream_id == id
                    &&& !c.streams.contains_key(id) ==> o.doq == c
                    &&& sent_bytes(o.quic.actions, id) == sent_bytes(quic.actions, id)
                },
            }
        }),
{
    let id = c.next_query_stream_id;
    if !c.is_server && data.len() <= MAX_DNS_MESSAGE_LEN {
        let registered = c.with_stream(id, StreamView::query(data));
        let (opened, r) = quic.send(id, Seq::empty(), false);
        write_takes_a_beginning(quic, id, Seq::empty(), false, id);
        flushing_keeps_the_bytes(registered, opened, id, id);
        let flushed = registered.flush_query(opened, id);
        write_takes_a_beginning(opened, id, frame(data), true, id);
        close_sends_nothing(opened, id);
        close_sends_nothing(opened.send(id, frame(data), true).0, id);
        assert(frame(data).take(0) =~= Seq::empty());
        assert(sent_bytes(opened.actions, id) + Seq::<u8>::empty() =~= sent_bytes(
            opened.actions,
            id,
        ));
        assert(sent_bytes(quic.actions, id) + Seq::<u8>::empty() =~= sent_bytes(quic.actions, id));
        if !c.streams.contains_key(id) {
            assert(c.without_stream(id) =~= c);
            assert(registered.without_stream(id) =~= c);
        }
    }
}

/// Flushing a query ends the stream (STREAM FIN) exactly when the last byte is
/// taken.
pub proof fn query_ends_with_its_last_byte(c: ConnectionView, quic: TransportView, stream_id: u64)
    requires
        c.is_query_stream(stream_id),
        c.has_unsent(stream_id),
        !sent_fin(quic.actions, stream_id),
    ensures
        ({
            let o = c.flush_query(quic, stream_id);
            &&& sent_fin(o.quic.actions, stream_id) <==> !o.doq.has_unsent(stream_id)
            &&& sent_fin(o.quic.actions, stream_id) ==> sent_bytes(o.quic.actions, stream_id)
                == queued_bytes(c, quic, stream_id)
        }),
{
    let s = c.streams[stream_id];
    write_takes_a_beginning(quic, stream_id, s.send_buf, true, stream_id);
    close_sends_nothing(quic, stream_id);
    close_sends_nothing(quic.send(stream_id, s.send_buf, true).0, stream_id);
    assert(s.send_buf.take(s.send_buf.len() as int) =~= s.send_buf);
}

/// A query reaches the server as it was queued, in however many parts it was
/// taken: once a flush has sent the last byte, the stream has carried its
/// frame and STREAM FIN, for which a server surfaces that query.
pub proof fn flushed_query_reaches_the_server(
    c: ConnectionView,
    quic: TransportView,
    stream_id: u64,
    data: Seq<u8>,
    server: ConnectionView,
    s: StreamView,
)
    requires
        c.is_query_stream(stream_id),
        c.has_unsent(stream_id),
        !sent_fin(quic.actions, stream_id),
        data.len() <= MAX_DNS_MESSAGE_LEN,
        queued_bytes(c, quic, stream_id) == frame(data),
        !c.flush_query(quic, stream_id).doq.has_unsent(stream_id),
        !s.event_triggered,
        s.recv_buf.len() == 0,
    ensures
        ({
            let o = c.flush_query(quic, stream_id);
            let bytes = sent_bytes(o.quic.actions, stream_id);
            &&& bytes == frame(data)
            &&& sent_fin(o.quic.actions, stream_id)
            &&& server.with_stream(stream_id, s.received(bytes, true)).drain_server(stream_id).1
                == Ok::<_, Error>(seq![EventView::Query { data, is_0rtt: s.is_0rtt }])
        }),
{
    query_ends_with_its_last_byte(c, quic, stream_id);
    assert(s.recv_buf + frame(data) =~= frame(data));
    query_is_surfaced_at_the_end_of_its_stream(
        server.with_stream(stream_id, s.received(frame(data), true)),
        stream_id,
        data,
        s.is_0rtt,
    );
}

/// Responses reach the client as they were queued, in however many parts they
/// were taken: once a flush has sent STREAM FIN, the stream has carried their
/// frames, for which a client surfaces these responses in their order, and
/// their end.
pub proof fn flushed_responses_reach_the_client(
    c: ConnectionView,
    quic: TransportView,
    stream_id: u64,
    msgs: Seq<Seq<u8>>,
    client: ConnectionView,
    s: StreamView,
)
    requires
        c.streams.contains_key(stream_id),
        !sent_fin(quic.actions, stream_id),
        all_fit(msgs),
        msgs.len() > 0,
        queued_bytes(c, quic, stream_id) == frames(msgs),
        sent_fin(c.flush_response(quic, stream_id).quic.actions, stream_id),
        s.recv_buf.len() == 0,
    ensures
        ({
            let o = c.flush_response(quic, stream_id);
            let bytes = sent_bytes(o.quic.actions, stream_id);
            &&& bytes == frames(msgs)
            &&& client.with_stream(stream_id, s.received(bytes, true)).drain_client(stream_id).1
                == Ok::<_, Error>(responses(msgs).push(EventView::Finished))
        }),
{
    response_ends_with_its_last_byte(c, quic, stream_id);
    assert(s.recv_buf + frames(msgs) =~= frames(msgs));
    responses_are_surfaced_in_order(
        client.with_stream(stream_id, s.received(frames(msgs), true)),
        stream_id,
        msgs,
    );
}

/// A query reaches the server as it was sent: once all of its bytes are taken,
/// the stream has carried its frame and STREAM FIN, for which a server
/// surfaces that query.
pub proof fn query_reaches_the_server(
    c: ConnectionView,
    quic: TransportView,
    data: Seq<u8>,
    server: ConnectionView,
    s: StreamView,
)
    requires
        c.valid(),
        c.send_query(quic, data).result is Ok,
        !c.send_query(quic, data).doq.has_unsent(c.next_query_stream_id),
        sent_bytes(quic.actions, c.next_query_stream_id).len() == 0,
        !s.event_triggered,
        s.recv_buf.len() == 0,
    ensures
        ({
            let id = c.next_query_stream_id;
            let o = c.send_query(quic, data);
            let bytes = sent_bytes(o.quic.actions, id);
            &&& bytes == frame(data)
            &&& sent_fin(o.quic.actions, id)
            &&& server.with_stream(id, s.received(bytes, true)).drain_server(id).1 == Ok::<
                _,
                Error,
            >(seq![EventView::Query { data, is_0rtt: s.is_0rtt }])
        }),
{
    let id = c.next_query_stream_id;
    let o = c.send_query(quic, data);
    let registered = c.with_stream(id, StreamView::query(data));
    let (opened, r) = quic.send(id, Seq::empty(), false);
    write_takes_a_beginning(quic, id, Seq::empty(), false, id);
    write_takes_a_beginning(opened, id, frame(data), true, id);
    let (_, r2) = opened.send(id, frame(data), true);
    assert(r2 is Ok);
    assert(frame(data).take(frame(data).len() as int) =~= frame(data));
    assert(sent_bytes(o.quic.actions, id) =~= frame(data));
    assert(s.recv_buf + frame(data) =~= frame(data));
    query_is_surfaced_at_the_end_of_its_stream(
        server.with_stream(id, s.received(frame(data), true)),
        id,
        data,
        s.is_0rtt,
    );
}

/// Responses reach the client as they were queued: a stream that has carried
/// the frames of some responses, and then STREAM FIN, makes a client surface
/// these responses in their order, and their end. When the server has sent all
/// of a response that it queued, the stream has carried its frame.
pub proof fn responses_reach_the_client(
    c: ConnectionView,
    quic: TransportView,
    stream_id: u64,
    before: Seq<Seq<u8>>,
    data: Seq<u8>,
    client: ConnectionView,
    s: StreamView,
)
    requires
        all_fit(before),
        queued_bytes(c, quic, stream_id) == frames(before),
        c.send_response(quic, stream_id, data, true).result is Ok,
        !c.send_response(quic, stream_id, data, true).doq.has_unsent(stream_id),
        s.recv_buf.len() == 0,
    ensures
        ({
            let o = c.send_response(quic, stream_id, data, true);
            let bytes = sent_bytes(o.quic.actions, stream_id);
            &&& bytes == frames(before.push(data))
            &&& client.with_stream(stream_id, s.received(bytes, true)).drain_client(stream_id).1
                == Ok::<_, Error>(responses(before.push(data)).push(EventView::Finished))
        }),
{
    let o = c.send_response(quic, stream_id, data, true);
    response_is_queued_in_its_frame(c, quic, stream_id, data, true);
    let bytes = sent_bytes(o.quic.actions, stream_id);
    assert(unsent_bytes(o.doq, stream_id) =~= Seq::empty());
    assert(bytes =~= frames(before) + frame(data));
    frames_of_one_more(before, data);
    assert(s.recv_buf + bytes =~= bytes);
    let msgs = before.push(data);
    assert(all_fit(msgs));
    responses_are_surfaced_in_order(
        client.with_stream(stream_id, s.received(bytes, true)),
        stream_id,
        msgs,
    );
}

pub(crate) proof fn frames_of_one_more(msgs: Seq<Seq<u8>>, data: Seq<u8>)
    ensures
        frames(msgs.push(data)) == frames(msgs) + frame(data),
    decreases msgs.len(),
{
    let more = msgs.push(data);
    if msgs.len() == 0 {
        assert(frames(more.drop_first()) =~= Seq::empty());
        assert(frames(more) =~= frames(msgs) + frame(data));
    } else {
        assert(more.drop_first() =~= msgs.drop_first().push(data));
        frames_of_one_more(msgs.drop_first(), data);
        assert(frames(more) =~= frames(msgs) + frame(data));
    }
}

/// A query that was cancelled is gone: the stream is not tracked and not
/// readable, so that a response under way is discarded, and it cannot be
/// cancelled again. The peer is asked to stop (`STOP_SENDING`) unless it has
/// ended the stream, and a query of which bytes wait is reset.
pub proof fn cancelled_query_is_abandoned(
    c: ConnectionView,
    quic: TransportView,
    stream_id: u64,
    error: u64,
)
    requires
        !c.is_server,
        c.is_query_stream(stream_id),
        quic.streams.contains_key(stream_id),
    ensures
        ({
            let o = c.cancel_query(quic, stream_id, error);
            let again = o.doq.cancel_query(o.quic, stream_id, error);
            let s = quic.streams[stream_id];
            let stop = ActionView::Shutdown { stream_id, direction: Shutdown::Read, error };
            let reset = ActionView::Shutdown { stream_id, direction: Shutdown::Write, error };
            let stops = s.recv_end !is Finished;
            let resets = c.has_unsent(stream_id) && s.stopped is None && !(s.send_end is Reset);
            &&& o.result is Ok
            &&& o.doq.streams == c.streams.remove(stream_id)
            &&& o.doq.pending == c.pending.filter(of_other_stream(stream_id))
            &&& stops ==> !o.quic.readable.contains(stream_id)
            &&& o.quic.streams[stream_id].recv_end is Finished
            &&& o.quic.actions == quic.actions + if stops {
                seq![stop]
            } else {
                Seq::empty()
            } + if resets {
                seq![reset]
            } else {
                Seq::empty()
            }
            &&& again.result == Err::<(), _>(Error::UnknownStream)
            &&& again.doq == o.doq
            &&& again.quic == o.quic
        }),
{
    let kept = ids_without(quic.readable, stream_id);
    assert(!kept.contains(stream_id)) by {
        if kept.contains(stream_id) {
            let i = choose|i: int| 0 <= i < kept.len() && kept[i] == stream_id;
            quic.readable.lemma_filter_pred(other_than(stream_id), i);
        }
    }
}

/// A stream that was reset is gone: it takes no response and cannot be reset
/// again, and the peer gets the code unless the sending side was reset or
/// stopped before.
pub proof fn reset_stream_is_abandoned(
    c: ConnectionView,
    quic: TransportView,
    stream_id: u64,
    error: u64,
)
    requires
        c.streams.contains_key(stream_id),
        quic.streams.contains_key(stream_id),
    ensures
        ({
            let o = c.reset_stream(quic, stream_id, error);
            let s = quic.streams[stream_id];
            let reset = ActionView::Shutdown { stream_id, direction: Shutdown::Write, error };
            &&& o.result is Ok
            &&& o.doq == c.without_stream(stream_id)
            &&& o.quic.actions == if s.stopped is None && !(s.send_end is Reset) {
                quic.actions.push(reset)
            } else {
                quic.actions
            }
            &&& o.doq.reset_stream(o.quic, stream_id, error).result == Err::<(), _>(
                Error::UnknownStream,
            )
        }),
{
}

} // verus!
