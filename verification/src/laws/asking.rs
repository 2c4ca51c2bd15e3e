//! The law of whole queries at the server, over any number of calls.

use vstd::prelude::*;

use crate::laws::answers::{bytes_read, bytes_received, read_in_poll, read_in_streams};
use crate::laws::isolation::processing_leaves_other_streams_alone;
use crate::laws::reading::{
    at_hand, has_arrived, has_surfaced, held, oversized_query_is_forgotten,
    reading_takes_everything, reset_stream_is_forgotten,
};
use crate::laws::reassembly::query_is_surfaced_at_the_end_of_its_stream;
use crate::laws::runs::{after, called, last_call, Call};
use crate::model::{ConnectionView, EventView};
use crate::transport::TransportView;
use crate::wire::frame;

verus! {

/// Whether a stream stays tracked through some calls, from the first bytes on
/// that are read from it: neither peer has given it up.
pub open spec fn is_kept(c: ConnectionView, calls: Seq<Call>, stream_id: u64) -> bool
    decreases calls.len(),
{
    calls.len() > 0 ==> {
        let before = calls.drop_last();
        &&& is_kept(c, before, stream_id)
        &&& bytes_received(c, before, stream_id).len() > 0 ==> after(
            c,
            before,
        ).streams.contains_key(stream_id)
    }
}

/// What was read of a stream before its query was surfaced is held.
spec fn all_held(c: ConnectionView, got: Seq<u8>, stream_id: u64) -> bool {
    &&& c.is_server
    &&& c.streams.contains_key(stream_id) && !c.streams[stream_id].event_triggered ==> got
        == c.streams[stream_id].recv_buf
}

proof fn processing_holds_all(
    c: ConnectionView,
    quic: TransportView,
    got: Seq<u8>,
    stream_id: u64,
)
    requires
        all_held(c, got, stream_id),
        c.streams.contains_key(stream_id) || got.len() == 0,
        stream_id % 4 == 0,
    ensures
        ({
            let o = c.process_readable_stream(quic, stream_id);
            let got2 = got + bytes_read(quic, o.quic, stream_id);
            &&& all_held(o.doq, got2, stream_id)
            &&& o.result is Ok && o.result->Ok_0.len() == 0 ==> o.doq.streams.contains_key(
                stream_id,
            ) || got2.len() == 0
            &&& o.result is Ok && o.result->Ok_0.len() > 0 ==> match o.result->Ok_0[0] {
                EventView::Query { data, .. } => got2 == frame(data) && data.len() <= 65535,
                _ => true,
            }
        }),
{
    let o = c.process_readable_stream(quic, stream_id);
    let q = quic.streams[stream_id];
    let all = held(c, stream_id) + at_hand(quic, stream_id);
    if !quic.streams.contains_key(stream_id) {
        assert(got + bytes_read(quic, o.quic, stream_id) =~= got);
    } else if q.recv_end is Reset {
        reset_stream_is_forgotten(c, quic, stream_id, q.recv_end->Reset_0);
    } else if !has_arrived(quic, stream_id) {
        assert(got + bytes_read(quic, o.quic, stream_id) =~= got);
        surfacing_needs_the_frame(c, stream_id);
    } else if all.len() > 65537 {
        oversized_query_is_forgotten(c, quic, stream_id);
    } else {
        reading_takes_everything(c, quic, stream_id);
        let read = c.read_stream(quic, stream_id).doq;
        assert(q.recv_data.take(q.recv_data.len() as int) =~= q.recv_data);
        assert(bytes_read(quic, o.quic, stream_id) == q.recv_data);
        if !has_surfaced(c, stream_id) {
            if !c.streams.contains_key(stream_id) {
                assert(got =~= held(c, stream_id));
            }
            assert(got + q.recv_data == all);
        }
        surfacing_needs_the_frame(read, stream_id);
    }
}

/// A server surfaces nothing but the message whose frame it holds.
proof fn surfacing_needs_the_frame(c: ConnectionView, stream_id: u64)
    ensures
        ({
            let (after, r) = c.drain_server(stream_id);
            r is Ok && r->Ok_0.len() > 0 ==> {
                &&& r->Ok_0[0] is Query
                &&& c.streams.contains_key(stream_id)
                &&& !c.streams[stream_id].event_triggered
                &&& c.streams[stream_id].recv_buf == frame(r->Ok_0[0]->Query_data)
                &&& r->Ok_0[0]->Query_data.len() <= 65535
                &&& after.streams[stream_id].event_triggered
            }
        }),
{
    let (after, r) = c.drain_server(stream_id);
    if r is Ok && r->Ok_0.len() > 0 {
        if let EventView::Query { data, is_0rtt } = r->Ok_0[0] {
            assert(r->Ok_0 =~= seq![EventView::Query { data, is_0rtt }]);
            query_is_surfaced_at_the_end_of_its_stream(c, stream_id, data, is_0rtt);
        }
    }
}

proof fn polling_streams_holds_all(
    c: ConnectionView,
    quic: TransportView,
    ids: Seq<u64>,
    got: Seq<u8>,
    stream_id: u64,
)
    requires
        all_held(c, got, stream_id),
        c.streams.contains_key(stream_id) || got.len() == 0,
        stream_id % 4 == 0,
    ensures
        ({
            let o = c.poll_streams(quic, ids);
            let got2 = got + read_in_streams(c, quic, ids, stream_id);
            &&& all_held(o.doq, got2, stream_id)
            &&& o.result matches Ok((id, EventView::Query { data, .. })) ==> id == stream_id
                ==> got2 == frame(data) && data.len() <= 65535
        }),
    decreases ids.len(),
{
    let none = Seq::<u8>::empty();
    assert(got + none =~= got);
    if ids.len() > 0 {
        let id = ids[0];
        let step = c.process_readable_stream(quic, id);
        let now = if id == stream_id {
            bytes_read(quic, step.quic, stream_id)
        } else {
            none
        };
        if id == stream_id {
            processing_holds_all(c, quic, got, stream_id);
        } else {
            processing_leaves_other_streams_alone(c, quic, id, stream_id);
            role_is_kept(c, quic, id);
        }
        assert(all_held(step.doq, got + now, stream_id));
        if step.result is Ok && step.result->Ok_0.len() == 0 {
            let later = read_in_streams(step.doq, step.quic, ids.drop_first(), stream_id);
            assert(step.doq.streams.contains_key(stream_id) || (got + now).len() == 0);
            polling_streams_holds_all(
                step.doq,
                step.quic,
                ids.drop_first(),
                got + now,
                stream_id,
            );
            assert(got + (now + later) =~= (got + now) + later);
        }
    }
}

proof fn role_is_kept(c: ConnectionView, quic: TransportView, id: u64)
    ensures
        c.process_readable_stream(quic, id).doq.is_server == c.is_server,
{
}

/// No call but a poll changes what is held of a stream, other than by giving the
/// stream up.
proof fn calls_hold_all(c: ConnectionView, call: Call, got: Seq<u8>, stream_id: u64)
    requires
        all_held(c, got, stream_id),
        !(call.op is Poll),
    ensures
        all_held(called(c, call).doq, got, stream_id),
        called(c, call).event is None,
{
}

proof fn run_holds_all(c: ConnectionView, calls: Seq<Call>, stream_id: u64)
    requires
        c.is_server,
        c.pending.len() == 0,
        !c.streams.contains_key(stream_id),
        stream_id % 4 == 0,
        is_kept(c, calls, stream_id),
    ensures
        all_held(after(c, calls), bytes_received(c, calls, stream_id), stream_id),
        calls.len() > 0 ==> match last_call(c, calls).event {
            Some((id, EventView::Query { data, .. })) => id == stream_id ==> bytes_received(
                c,
                calls,
                stream_id,
            ) == frame(data) && data.len() <= 65535,
            _ => true,
        },
    decreases calls.len(),
{
    if calls.len() > 0 {
        let shorter = calls.drop_last();
        run_holds_all(c, shorter, stream_id);
        let before = after(c, shorter);
        let got = bytes_received(c, shorter, stream_id);
        let call = calls.last();
        if call.op is Poll {
            server_has_nothing_pending(c, shorter);
            polling_streams_holds_all(before, call.quic, call.quic.readable, got, stream_id);
            assert(got + Seq::<u8>::empty() =~= got);
            assert(read_in_poll(before, call.quic, stream_id) == if call.quic.local_error is Some {
                Seq::empty()
            } else {
                read_in_streams(before, call.quic, call.quic.readable, stream_id)
            });
        } else {
            calls_hold_all(before, call, got, stream_id);
        }
    }
}

proof fn server_has_nothing_pending(c: ConnectionView, calls: Seq<Call>)
    requires
        c.is_server,
        c.pending.len() == 0,
    ensures
        after(c, calls).is_server,
        after(c, calls).pending.len() == 0,
    decreases calls.len(),
{
    if calls.len() > 0 {
        let shorter = calls.drop_last();
        server_has_nothing_pending(c, shorter);
        let before = after(c, shorter);
        let call = calls.last();
        if call.op is Poll {
            server_polls_one_at_a_time(before, call.quic, call.quic.readable);
        } else {
            calls_leave_nothing_pending(before, call);
        }
    }
}

proof fn calls_leave_nothing_pending(c: ConnectionView, call: Call)
    requires
        c.is_server,
        c.pending.len() == 0,
        !(call.op is Poll),
    ensures
        called(c, call).doq.is_server,
        called(c, call).doq.pending.len() == 0,
{
}

proof fn server_polls_one_at_a_time(c: ConnectionView, quic: TransportView, ids: Seq<u64>)
    requires
        c.is_server,
        c.pending.len() == 0,
    ensures
        c.poll_streams(quic, ids).doq.is_server,
        c.poll_streams(quic, ids).doq.pending.len() == 0,
    decreases ids.len(),
{
    if ids.len() > 0 {
        let step = c.process_readable_stream(quic, ids[0]);
        server_finds_at_most_one(c, quic, ids[0]);
        if step.result is Ok && step.result->Ok_0.len() == 0 {
            server_polls_one_at_a_time(step.doq, step.quic, ids.drop_first());
        }
    }
}

proof fn server_finds_at_most_one(c: ConnectionView, quic: TransportView, id: u64)
    requires
        c.is_server,
    ensures
        ({
            let o = c.process_readable_stream(quic, id);
            &&& o.doq.is_server
            &&& o.doq.pending == c.pending
            &&& o.result is Ok ==> o.result->Ok_0.len() <= 1
        }),
{
}

/// Over any calls on a server's connection, a query that is surfaced is what was
/// sent: the bytes that were read from its stream in all of these calls are its
/// frame, and nothing more, in however many parts they came.
pub proof fn surfaced_query_is_what_was_read(
    calls: Seq<Call>,
    stream_id: u64,
    data: Seq<u8>,
    is_0rtt: bool,
)
    requires
        stream_id % 4 == 0,
        is_kept(ConnectionView::new(true), calls, stream_id),
        calls.len() > 0,
        last_call(ConnectionView::new(true), calls).event == Some(
            (stream_id, EventView::Query { data, is_0rtt }),
        ),
    ensures
        bytes_received(ConnectionView::new(true), calls, stream_id) == frame(data),
        data.len() <= 65535,
{
    run_holds_all(ConnectionView::new(true), calls, stream_id);
}

} // verus!
