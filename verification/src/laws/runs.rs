//! Laws of any number of calls, one after the other.

use vstd::prelude::*;

use crate::laws::isolation::processing_leaves_other_streams_alone;
use crate::laws::validity::{
    abandoning_keeps_validity, events_of_other_streams, polling_keeps_validity,
    polling_streams_keeps_validity, processing_keeps_validity, queries_keep_validity,
    responses_keep_validity,
};
use crate::model::{
    event_of_role, messages, of_other_stream, on_stream, remainder, ConnectionView, EventView,
    StreamView,
};
use crate::transport::TransportView;

verus! {

/// An operation of a connection.
pub enum Op {
    Poll,
    SendQuery { data: Seq<u8> },
    FlushQuery { stream_id: u64 },
    CancelQuery { stream_id: u64, error: u64 },
    SendResponse { stream_id: u64, data: Seq<u8>, fin: bool },
    FlushResponse { stream_id: u64 },
    ResetStream { stream_id: u64, error: u64 },
}

/// A call of an operation, with what the QUIC connection is at the time.
pub struct Call {
    pub op: Op,
    pub quic: TransportView,
}

/// What a call leads to: both connections afterwards, whether it succeeded, and
/// the event that it returned, if it is a poll that returned one.
pub struct Called {
    pub doq: ConnectionView,
    pub quic: TransportView,
    pub ok: bool,
    pub event: Option<(u64, EventView)>,
}

/// One call.
pub open spec fn called(c: ConnectionView, call: Call) -> Called {
    match call.op {
        Op::Poll => {
            let o = c.poll(call.quic);
            Called {
                doq: o.doq,
                quic: o.quic,
                ok: o.result is Ok,
                event: match o.result {
                    Ok(event) => Some(event),
                    Err(_) => None,
                },
            }
        },
        Op::SendQuery { data } => {
            let o = c.send_query(call.quic, data);
            Called { doq: o.doq, quic: o.quic, ok: o.result is Ok, event: None }
        },
        Op::FlushQuery { stream_id } => {
            let o = c.flush_query(call.quic, stream_id);
            Called { doq: o.doq, quic: o.quic, ok: o.result is Ok, event: None }
        },
        Op::CancelQuery { stream_id, error } => {
            let o = c.cancel_query(call.quic, stream_id, error);
            Called { doq: o.doq, quic: o.quic, ok: o.result is Ok, event: None }
        },
        Op::SendResponse { stream_id, data, fin } => {
            let o = c.send_response(call.quic, stream_id, data, fin);
            Called { doq: o.doq, quic: o.quic, ok: o.result is Ok, event: None }
        },
        Op::FlushResponse { stream_id } => {
            let o = c.flush_response(call.quic, stream_id);
            Called { doq: o.doq, quic: o.quic, ok: o.result is Ok, event: None }
        },
        Op::ResetStream { stream_id, error } => {
            let o = c.reset_stream(call.quic, stream_id, error);
            Called { doq: o.doq, quic: o.quic, ok: o.result is Ok, event: None }
        },
    }
}

/// A connection after some calls.
pub open spec fn after(c: ConnectionView, calls: Seq<Call>) -> ConnectionView
    decreases calls.len(),
{
    if calls.len() == 0 {
        c
    } else {
        called(after(c, calls.drop_last()), calls.last()).doq
    }
}

/// What the last of some calls leads to.
pub open spec fn last_call(c: ConnectionView, calls: Seq<Call>) -> Called {
    called(after(c, calls.drop_last()), calls.last())
}

/// The events that some calls return, oldest first.
pub open spec fn events(c: ConnectionView, calls: Seq<Call>) -> Seq<(u64, EventView)>
    decreases calls.len(),
{
    if calls.len() == 0 {
        Seq::empty()
    } else {
        let before = events(c, calls.drop_last());
        match last_call(c, calls).event {
            Some(event) => before.push(event),
            None => before,
        }
    }
}

/// Whether the receiving side of a stream is known, and at its end.
pub open spec fn recv_over(quic: TransportView, stream_id: u64) -> bool {
    quic.streams.contains_key(stream_id) && quic.recv_ended(stream_id)
}

/// Whether the receiving side of a stream has come to its end in some calls.
pub open spec fn ended(c: ConnectionView, calls: Seq<Call>, stream_id: u64) -> bool
    decreases calls.len(),
{
    calls.len() > 0 && (ended(c, calls.drop_last(), stream_id) || recv_over(
        last_call(c, calls).quic,
        stream_id,
    ))
}

/// Whether the QUIC layer delivers the end of a stream at most once: nothing
/// more is received on it in any later call.
pub open spec fn ends_once(c: ConnectionView, calls: Seq<Call>, stream_id: u64) -> bool
    decreases calls.len(),
{
    calls.len() > 0 ==> {
        &&& ends_once(c, calls.drop_last(), stream_id)
        &&& ended(c, calls.drop_last(), stream_id) ==> calls.last().quic.recv_ended(stream_id)
    }
}

/// Whether the connection has nothing more to say about a stream of which
/// nothing more is received.
pub open spec fn silent(c: ConnectionView, stream_id: u64) -> bool {
    let s = c.streams[stream_id];
    &&& forall|i: int| 0 <= i < c.pending.len() ==> (#[trigger] c.pending[i]).0 != stream_id
    &&& c.streams.contains_key(stream_id) ==> if c.is_server {
        s.event_triggered
    } else {
        !s.fin_received && messages(s.recv_buf).len() == 0
    }
}

/// Whether an event is the last one of its stream.
pub open spec fn is_last(event: EventView) -> bool {
    !(event is Response)
}

/// What holds of a connection and one stream between calls: an end that was
/// noted has come; and what waits to be returned is of one stream, of which
/// only the last event is one that ends it.
spec fn in_step(c: ConnectionView, has_ended: bool, stream_id: u64) -> bool {
    &&& c.valid()
    &&& c.streams.contains_key(stream_id) && c.streams[stream_id].fin_received ==> has_ended
    &&& forall|i: int, j: int|
        0 <= i < c.pending.len() && 0 <= j < c.pending.len() ==> (#[trigger] c.pending[i]).0 == (
        #[trigger] c.pending[j]).0
    &&& forall|i: int|
        0 <= i < c.pending.len() && is_last((#[trigger] c.pending[i]).1) ==> i == c.pending.len()
            - 1
    &&& c.pending.len() > 0 && is_last(c.pending.last().1) && c.pending.last().0 == stream_id
        ==> has_ended && (c.streams.contains_key(stream_id) ==> !c.streams[stream_id].fin_received
        && messages(c.streams[stream_id].recv_buf).len() == 0)
}

/// The events of one stream that is processed: all but the last are responses.
proof fn processing_in_step(
    c: ConnectionView,
    quic: TransportView,
    processed: u64,
    has_ended: bool,
    stream_id: u64,
)
    requires
        in_step(c, has_ended, stream_id),
        c.pending.len() == 0,
        has_ended ==> quic.recv_ended(stream_id),
    ensures
        ({
            let o = c.process_readable_stream(quic, processed);
            let ended_now = has_ended || recv_over(o.quic, stream_id);
            &&& in_step(o.doq, ended_now, stream_id)
            &&& o.doq.pending == c.pending
            &&& o.doq.is_server == c.is_server
            &&& ended_now ==> o.quic.recv_ended(stream_id)
            &&& silent(c, stream_id) && has_ended ==> silent(o.doq, stream_id)
            &&& o.result matches Ok(events) ==> {
                &&& forall|i: int|
                    0 <= i < events.len() - 1 ==> !is_last(#[trigger] events[i])
                &&& processed == stream_id && silent(c, stream_id) && has_ended
                    ==> events.len() == 0
                &&& processed == stream_id && events.len() > 0 && is_last(events.last())
                    ==> ended_now && silent(o.doq, stream_id) && (
                o.doq.streams.contains_key(stream_id) && !c.is_server
                    ==> !o.doq.streams[stream_id].fin_received)
            }
        }),
{
    let o = c.process_readable_stream(quic, processed);
    processing_keeps_validity(c, quic, processed);
    if processed != stream_id {
        processing_leaves_other_streams_alone(c, quic, processed, stream_id);
    } else if c.streams.contains_key(stream_id) {
        let buf = c.streams[stream_id].recv_buf;
        if messages(buf).len() == 0 {
            assert(remainder(buf) == buf);
        }
    }
    if let Ok(events) = o.result {
        assert forall|i: int| 0 <= i < events.len() - 1 implies !is_last(#[trigger] events[i]) by {}
    }
}

proof fn polling_streams_in_step(
    c: ConnectionView,
    quic: TransportView,
    ids: Seq<u64>,
    has_ended: bool,
    stream_id: u64,
)
    requires
        in_step(c, has_ended, stream_id),
        c.pending.len() == 0,
        has_ended ==> quic.recv_ended(stream_id),
    ensures
        ({
            let o = c.poll_streams(quic, ids);
            let ended_now = has_ended || recv_over(o.quic, stream_id);
            &&& in_step(o.doq, ended_now, stream_id)
            &&& silent(c, stream_id) && has_ended ==> silent(o.doq, stream_id)
            &&& o.result matches Ok((id, event)) ==> {
                &&& silent(c, stream_id) && has_ended ==> id != stream_id
                &&& id == stream_id && is_last(event) ==> ended_now && silent(o.doq, stream_id)
            }
        }),
    decreases ids.len(),
{
    if ids.len() > 0 {
        let o = c.poll_streams(quic, ids);
        let step = c.process_readable_stream(quic, ids[0]);
        let ended_now = has_ended || recv_over(step.quic, stream_id);
        processing_in_step(c, quic, ids[0], has_ended, stream_id);
        processing_keeps_validity(c, quic, ids[0]);
        let stops = !c.is_server && c.streams.contains_key(ids[0]) && c.probe(
            quic,
            ids[0],
        ).result is Err;
        if !stops {
            if let Ok(found) = step.result {
                if found.len() == 0 {
                    polling_streams_in_step(
                        step.doq,
                        step.quic,
                        ids.drop_first(),
                        ended_now,
                        stream_id,
                    );
                    let rest = step.doq.poll_streams(step.quic, ids.drop_first());
                    assert(o == rest);
                    if ended_now && !recv_over(o.quic, stream_id) && !has_ended {
                        polling_streams_keeps_over(
                            step.doq,
                            step.quic,
                            ids.drop_first(),
                            stream_id,
                        );
                    }
                } else {
                    let later = found.drop_first();
                    let queued = on_stream(ids[0], later);
                    assert(o.doq.pending =~= queued);
                    assert forall|i: int| 0 <= i < queued.len() implies (#[trigger] queued[i]).0
                        == ids[0] && queued[i].1 == found[i + 1] by {}
                    if queued.len() > 0 {
                        assert(queued.last().1 == found.last());
                    }
                    polling_streams_keeps_validity(c, quic, ids);
                }
            }
        }
    }
}

/// A stream whose receiving side is at its end stays so while others are
/// polled.
pub(crate) proof fn polling_streams_keeps_over(
    c: ConnectionView,
    quic: TransportView,
    ids: Seq<u64>,
    stream_id: u64,
)
    requires
        recv_over(quic, stream_id),
    ensures
        recv_over(c.poll_streams(quic, ids).quic, stream_id),
    decreases ids.len(),
{
    if ids.len() > 0 {
        let step = c.process_readable_stream(quic, ids[0]);
        if ids[0] != stream_id {
            processing_leaves_other_streams_alone(c, quic, ids[0], stream_id);
        }
        assert(recv_over(step.quic, stream_id));
        if step.result is Ok && step.result->Ok_0.len() == 0 {
            polling_streams_keeps_over(step.doq, step.quic, ids.drop_first(), stream_id);
        }
    }
}

/// A poll keeps step, has nothing to say about a silent stream, and makes a
/// stream silent with its last event.
proof fn polling_in_step(c: ConnectionView, quic: TransportView, has_ended: bool, stream_id: u64)
    requires
        in_step(c, has_ended, stream_id),
        has_ended ==> quic.recv_ended(stream_id),
    ensures
        ({
            let o = c.poll(quic);
            let ended_now = has_ended || recv_over(o.quic, stream_id);
            &&& in_step(o.doq, ended_now, stream_id)
            &&& silent(c, stream_id) && has_ended ==> silent(o.doq, stream_id)
            &&& o.result matches Ok((id, event)) ==> {
                &&& event_of_role(c.is_server, event)
                &&& silent(c, stream_id) && has_ended ==> id != stream_id
                &&& id == stream_id && is_last(event) ==> ended_now && silent(o.doq, stream_id)
            }
        }),
{
    polling_keeps_validity(c, quic);
    if quic.local_error is None {
        if c.pending.len() > 0 {
            let rest = c.pending.drop_first();
            assert forall|i: int| 0 <= i < rest.len() implies #[trigger] rest[i] == c.pending[i
                + 1] by {}
            if rest.len() > 0 {
                assert(rest.last() == c.pending.last());
            }
            assert(c.pending[0].0 == c.pending.last().0);
        } else {
            polling_streams_in_step(c, quic, quic.readable, has_ended, stream_id);
        }
    }
}

proof fn nothing_in_nothing()
    ensures
        messages(Seq::empty()).len() == 0,
{
}

/// Whether what was received on a stream is as it was, or forgotten.
spec fn receiving_kept(c: ConnectionView, c2: ConnectionView, stream_id: u64) -> bool {
    &&& c2.is_server == c.is_server
    &&& c2.streams.contains_key(stream_id) ==> {
        &&& c.streams.contains_key(stream_id)
        &&& c2.streams[stream_id].fin_received == c.streams[stream_id].fin_received
        &&& c2.streams[stream_id].recv_buf == c.streams[stream_id].recv_buf
        &&& c2.streams[stream_id].event_triggered == c.streams[stream_id].event_triggered
    }
}

proof fn responses_keep_receiving(
    c: ConnectionView,
    quic: TransportView,
    id: u64,
    data: Seq<u8>,
    fin: bool,
    stream_id: u64,
)
    ensures
        receiving_kept(c, c.send_response(quic, id, data, fin).doq, stream_id),
        c.send_response(quic, id, data, fin).doq.pending == c.pending,
        receiving_kept(c, c.flush_response(quic, id).doq, stream_id),
        c.flush_response(quic, id).doq.pending == c.pending,
{
}

proof fn flushing_keeps_receiving(
    c: ConnectionView,
    quic: TransportView,
    id: u64,
    stream_id: u64,
)
    ensures
        receiving_kept(c, c.flush_query(quic, id).doq, stream_id),
        c.flush_query(quic, id).doq.pending == c.pending,
{
}

/// A new query has received nothing; other streams are as they were.
proof fn query_has_received_nothing(
    c: ConnectionView,
    quic: TransportView,
    data: Seq<u8>,
    stream_id: u64,
)
    ensures
        ({
            let c2 = c.send_query(quic, data).doq;
            &&& c2.is_server == c.is_server
            &&& c2.pending == c.pending
            &&& receiving_kept(c, c2, stream_id) || (!c.is_server && c2.streams.contains_key(
                stream_id,
            ) && !c2.streams[stream_id].fin_received && c2.streams[stream_id].recv_buf.len() == 0)
        }),
{
    let id = c.next_query_stream_id;
    let registered = c.with_stream(id, StreamView::query(data));
    let opened = quic.send(id, Seq::empty(), false).0;
    flushing_keeps_receiving(registered, opened, id, stream_id);
}

proof fn abandoning_keeps_receiving(
    c: ConnectionView,
    quic: TransportView,
    id: u64,
    error: u64,
    stream_id: u64,
)
    ensures
        receiving_kept(c, c.cancel_query(quic, id, error).doq, stream_id),
        c.cancel_query(quic, id, error).doq.pending == c.pending || c.cancel_query(
            quic,
            id,
            error,
        ).doq.pending == c.pending.filter(of_other_stream(id)),
        receiving_kept(c, c.reset_stream(quic, id, error).doq, stream_id),
        c.reset_stream(quic, id, error).doq.pending == c.pending,
{
}

/// Every other operation keeps step, and leaves a silent stream silent.
proof fn calling_in_step(c: ConnectionView, call: Call, has_ended: bool, stream_id: u64)
    requires
        in_step(c, has_ended, stream_id),
        !(call.op is Poll),
    ensures
        in_step(called(c, call).doq, has_ended, stream_id),
        called(c, call).doq.is_server == c.is_server,
        silent(c, stream_id) ==> silent(called(c, call).doq, stream_id),
{
    let quic = call.quic;
    let c2 = called(c, call).doq;
    match call.op {
        Op::Poll => {},
        Op::SendQuery { data } => {
            queries_keep_validity(c, quic, data, 0);
            query_has_received_nothing(c, quic, data, stream_id);
            kept_in_step(c, c2, has_ended, stream_id);
        },
        Op::FlushQuery { stream_id: id } => {
            queries_keep_validity(c, quic, Seq::empty(), id);
            flushing_keeps_receiving(c, quic, id, stream_id);
            kept_in_step(c, c2, has_ended, stream_id);
        },
        Op::CancelQuery { stream_id: id, error } => {
            abandoning_keeps_validity(c, quic, id, error);
            abandoning_keeps_receiving(c, quic, id, error, stream_id);
            events_of_one_stream(c.pending, id);
            kept_in_step(c, c2, has_ended, stream_id);
        },
        Op::SendResponse { stream_id: id, data, fin } => {
            responses_keep_validity(c, quic, id, data, fin);
            responses_keep_receiving(c, quic, id, data, fin, stream_id);
            kept_in_step(c, c2, has_ended, stream_id);
        },
        Op::FlushResponse { stream_id: id } => {
            responses_keep_validity(c, quic, id, Seq::empty(), false);
            responses_keep_receiving(c, quic, id, Seq::empty(), false, stream_id);
            kept_in_step(c, c2, has_ended, stream_id);
        },
        Op::ResetStream { stream_id: id, error } => {
            abandoning_keeps_validity(c, quic, id, error);
            abandoning_keeps_receiving(c, quic, id, error, stream_id);
            kept_in_step(c, c2, has_ended, stream_id);
        },
    }
}

proof fn kept_in_step(c: ConnectionView, c2: ConnectionView, has_ended: bool, stream_id: u64)
    requires
        in_step(c, has_ended, stream_id),
        c2.valid(),
        c2.is_server == c.is_server,
        c2.pending == c.pending || c2.pending.len() == 0,
        receiving_kept(c, c2, stream_id) || (!c.is_server && c2.streams.contains_key(stream_id)
            && !c2.streams[stream_id].fin_received && c2.streams[stream_id].recv_buf.len() == 0),
    ensures
        in_step(c2, has_ended, stream_id),
        silent(c, stream_id) ==> silent(c2, stream_id),
{
    nothing_in_nothing();
    if c2.streams.contains_key(stream_id) && c2.streams[stream_id].recv_buf.len() == 0 {
        assert(c2.streams[stream_id].recv_buf =~= Seq::empty());
    }
}

/// Pending events of one stream are dropped together, or kept together.
proof fn events_of_one_stream(pending: Seq<(u64, EventView)>, stream_id: u64)
    requires
        forall|i: int, j: int|
            0 <= i < pending.len() && 0 <= j < pending.len() ==> (#[trigger] pending[i]).0 == (
            #[trigger] pending[j]).0,
    ensures
        pending.filter(of_other_stream(stream_id)) == if pending.len() > 0 && pending[0].0
            == stream_id {
            Seq::empty()
        } else {
            pending
        },
    decreases pending.len(),
{
    reveal(Seq::filter);
    if pending.len() > 0 {
        let shorter = pending.drop_last();
        assert forall|i: int, j: int| 0 <= i < shorter.len() && 0 <= j < shorter.len() implies (
        #[trigger] shorter[i]).0 == (#[trigger] shorter[j]).0 by {
            assert(shorter[i] == pending[i] && shorter[j] == pending[j]);
        }
        events_of_one_stream(shorter, stream_id);
        assert(pending.last() == pending[pending.len() - 1]);
        if shorter.len() > 0 {
            assert(shorter[0] == pending[0]);
        }
        assert(pending.filter(of_other_stream(stream_id)) =~= if pending[0].0 == stream_id {
            Seq::empty()
        } else {
            pending
        });
    } else {
        assert(pending.filter(of_other_stream(stream_id)) =~= pending);
    }
}

proof fn run_in_step(c: ConnectionView, calls: Seq<Call>, stream_id: u64)
    requires
        in_step(c, false, stream_id),
        ends_once(c, calls, stream_id),
    ensures
        in_step(after(c, calls), ended(c, calls, stream_id), stream_id),
        after(c, calls).is_server == c.is_server,
        forall|i: int|
            0 <= i < events(c, calls).len() ==> event_of_role(
                c.is_server,
                (#[trigger] events(c, calls)[i]).1,
            ),
        forall|i: int|
            0 <= i < events(c, calls).len() && (#[trigger] events(c, calls)[i]).0 == stream_id
                && is_last(events(c, calls)[i].1) ==> ended(c, calls, stream_id) && silent(
                after(c, calls),
                stream_id,
            ),
        forall|i: int, j: int|
            0 <= i < j < events(c, calls).len() && (#[trigger] events(c, calls)[i]).0 == stream_id
                && is_last(events(c, calls)[i].1) ==> (#[trigger] events(c, calls)[j]).0
                != stream_id,
    decreases calls.len(),
{
    if calls.len() > 0 {
        let shorter = calls.drop_last();
        run_in_step(c, shorter, stream_id);
        let before = after(c, shorter);
        let has_ended = ended(c, shorter, stream_id);
        let call = calls.last();
        let o = called(before, call);
        let earlier = events(c, shorter);
        let all = events(c, calls);
        if call.op is Poll {
            polling_keeps_validity(before, call.quic);
            polling_in_step(before, call.quic, has_ended, stream_id);
        } else {
            calling_in_step(before, call, has_ended, stream_id);
            if !has_ended && recv_over(o.quic, stream_id) {
                assert(in_step(o.doq, true, stream_id));
            }
        }
        assert forall|i: int| 0 <= i < earlier.len() implies #[trigger] all[i] == earlier[i] by {}
    } else {
        assert(events(c, calls).len() == 0);
    }
}

/// Over any calls on a connection, its events are those of its role: queries
/// and resets on a server, responses, their end and resets on a client. A query,
/// the end of responses, and a reset each are the last event of their stream: so
/// each comes at most once for a stream, and no event of the stream follows.
pub proof fn events_end_their_stream(is_server: bool, calls: Seq<Call>, stream_id: u64, i: int)
    requires
        ends_once(ConnectionView::new(is_server), calls, stream_id),
        0 <= i < events(ConnectionView::new(is_server), calls).len(),
    ensures
        ({
            let all = events(ConnectionView::new(is_server), calls);
            &&& event_of_role(is_server, all[i].1)
            &&& all[i].0 == stream_id && is_last(all[i].1) ==> forall|j: int|
                i < j < all.len() ==> (#[trigger] all[j]).0 != stream_id
        }),
{
    run_in_step(ConnectionView::new(is_server), calls, stream_id);
}

/// Over any calls, a cancelled query is not heard of again: from the cancel on,
/// no event of its stream is returned, also none that was found before.
pub proof fn cancelled_query_stays_silent(
    calls: Seq<Call>,
    quic: TransportView,
    stream_id: u64,
    error: u64,
    later: Seq<Call>,
    i: int,
)
    requires
        ({
            let c = ConnectionView::new(false);
            let cancelled = calls.push(Call { op: Op::CancelQuery { stream_id, error }, quic });
            let before = after(c, calls);
            &&& ends_once(c, calls, stream_id)
            &&& before.is_query_stream(stream_id)
            &&& stays_over(later, stream_id)
            &&& 0 <= i < events(after(c, cancelled), later).len()
        }),
    ensures
        ({
            let c = ConnectionView::new(false);
            let cancelled = calls.push(Call { op: Op::CancelQuery { stream_id, error }, quic });
            events(after(c, cancelled), later)[i].0 != stream_id
        }),
{
    let c = ConnectionView::new(false);
    let call = Call { op: Op::CancelQuery { stream_id, error }, quic };
    let cancelled = calls.push(call);
    let before = after(c, calls);
    assert(cancelled.drop_last() =~= calls);
    run_in_step(c, calls, stream_id);
    calling_in_step(before, call, ended(c, calls, stream_id), stream_id);
    abandoning_keeps_receiving(before, quic, stream_id, error, stream_id);
    let o = called(before, call);
    events_of_other_streams(before.pending, stream_id);
    assert(silent(o.doq, stream_id));
    assert(in_step(o.doq, true, stream_id));
    silence_lasts(o.doq, later, stream_id);
}

/// Whether nothing is received on a stream in some calls.
pub open spec fn stays_over(calls: Seq<Call>, stream_id: u64) -> bool {
    forall|k: int| 0 <= k < calls.len() ==> (#[trigger] calls[k]).quic.recv_ended(stream_id)
}

proof fn silence_lasts(c: ConnectionView, calls: Seq<Call>, stream_id: u64)
    requires
        in_step(c, true, stream_id),
        silent(c, stream_id),
        stays_over(calls, stream_id),
    ensures
        in_step(after(c, calls), true, stream_id),
        silent(after(c, calls), stream_id),
        forall|i: int|
            0 <= i < events(c, calls).len() ==> (#[trigger] events(c, calls)[i]).0 != stream_id,
    decreases calls.len(),
{
    if calls.len() > 0 {
        let shorter = calls.drop_last();
        assert forall|k: int| 0 <= k < shorter.len() implies (
        #[trigger] shorter[k]).quic.recv_ended(stream_id) by {
            assert(shorter[k] == calls[k]);
        }
        silence_lasts(c, shorter, stream_id);
        let before = after(c, shorter);
        let call = calls.last();
        assert(call == calls[calls.len() - 1]);
        if call.op is Poll {
            polling_in_step(before, call.quic, true, stream_id);
        } else {
            calling_in_step(before, call, true, stream_id);
        }
        let earlier = events(c, shorter);
        let all = events(c, calls);
        assert forall|i: int| 0 <= i < earlier.len() implies #[trigger] all[i] == earlier[i] by {}
    } else {
        assert(events(c, calls).len() == 0);
    }
}

/// A query is surfaced only after STREAM FIN was read on its stream.
pub proof fn query_comes_after_fin(c: ConnectionView, quic: TransportView)
    requires
        c.is_server,
        c.valid(),
    ensures
        c.poll(quic).result matches Ok((stream_id, event)) ==> event is Query ==> {
            let s = c.poll(quic).doq.streams;
            s.contains_key(stream_id) && s[stream_id].fin_received
        },
{
    if quic.local_error is None {
        polled_query_has_fin(c, quic, quic.readable);
    }
}

proof fn polled_query_has_fin(c: ConnectionView, quic: TransportView, ids: Seq<u64>)
    requires
        c.is_server,
        c.valid(),
    ensures
        c.poll_streams(quic, ids).result matches Ok((stream_id, event)) ==> event is Query ==> {
            let s = c.poll_streams(quic, ids).doq.streams;
            s.contains_key(stream_id) && s[stream_id].fin_received
        },
    decreases ids.len(),
{
    if ids.len() > 0 {
        let step = c.process_readable_stream(quic, ids[0]);
        processing_keeps_validity(c, quic, ids[0]);
        if step.result is Ok && step.result->Ok_0.len() == 0 {
            polled_query_has_fin(step.doq, step.quic, ids.drop_first());
        }
    }
}

} // verus!
