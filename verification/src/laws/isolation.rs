//! Laws of what an operation leaves alone, and of the order of events.

use vstd::prelude::*;

use crate::connection::Error;
use crate::model::{on_stream, ConnectionView, StreamView};
use crate::transport::TransportView;

verus! {

/// Whether a stream is the same before and after, on both layers.
pub open spec fn stream_unchanged(
    c: ConnectionView,
    quic: TransportView,
    c2: ConnectionView,
    quic2: TransportView,
    stream_id: u64,
) -> bool {
    &&& c2.streams.contains_key(stream_id) == c.streams.contains_key(stream_id)
    &&& c2.streams[stream_id] == c.streams[stream_id] || !c.streams.contains_key(stream_id)
    &&& quic2.streams.contains_key(stream_id) == quic.streams.contains_key(stream_id)
    &&& quic2.streams[stream_id] == quic.streams[stream_id] || !quic.streams.contains_key(stream_id)
}

/// Sending and flushing a response leave every other stream as it was.
pub proof fn responses_leave_other_streams_alone(
    c: ConnectionView,
    quic: TransportView,
    stream_id: u64,
    other: u64,
    data: Seq<u8>,
    fin: bool,
)
    requires
        other != stream_id,
    ensures
        ({
            let o = c.send_response(quic, stream_id, data, fin);
            stream_unchanged(c, quic, o.doq, o.quic, other)
        }),
        ({
            let o = c.flush_response(quic, stream_id);
            stream_unchanged(c, quic, o.doq, o.quic, other)
        }),
{
}

/// Sending and flushing a query leave every other stream as it was.
pub proof fn queries_leave_other_streams_alone(
    c: ConnectionView,
    quic: TransportView,
    stream_id: u64,
    other: u64,
    data: Seq<u8>,
)
    requires
        other != stream_id,
    ensures
        ({
            let o = c.flush_query(quic, stream_id);
            stream_unchanged(c, quic, o.doq, o.quic, other)
        }),
        stream_id == c.next_query_stream_id ==> ({
            let o = c.send_query(quic, data);
            stream_unchanged(c, quic, o.doq, o.quic, other)
        }),
{
    flushing_leaves_others(c, quic, stream_id, other);
    let registered = c.with_stream(stream_id, StreamView::query(data));
    let opened = quic.send(stream_id, Seq::empty(), false).0;
    flushing_leaves_others(registered, opened, stream_id, other);
}

proof fn flushing_leaves_others(
    c: ConnectionView,
    quic: TransportView,
    stream_id: u64,
    other: u64,
)
    requires
        other != stream_id,
    ensures
        ({
            let o = c.flush_query(quic, stream_id);
            stream_unchanged(c, quic, o.doq, o.quic, other)
        }),
{
}

/// Abandoning a stream leaves every other stream as it was.
pub proof fn abandoning_leaves_other_streams_alone(
    c: ConnectionView,
    quic: TransportView,
    stream_id: u64,
    other: u64,
    error: u64,
)
    requires
        other != stream_id,
    ensures
        ({
            let o = c.cancel_query(quic, stream_id, error);
            stream_unchanged(c, quic, o.doq, o.quic, other)
        }),
        ({
            let o = c.reset_stream(quic, stream_id, error);
            stream_unchanged(c, quic, o.doq, o.quic, other)
        }),
{
}

/// Processing a readable stream leaves every other stream as it was.
pub proof fn processing_leaves_other_streams_alone(
    c: ConnectionView,
    quic: TransportView,
    stream_id: u64,
    other: u64,
)
    requires
        other != stream_id,
    ensures
        ({
            let o = c.process_readable_stream(quic, stream_id);
            stream_unchanged(c, quic, o.doq, o.quic, other)
        }),
{
}

/// Events that were found together are returned one at a time, in their order,
/// and before anything else is read.
pub proof fn pending_events_come_first(c: ConnectionView, quic: TransportView)
    requires
        c.pending.len() > 0,
        quic.local_error is None,
    ensures
        ({
            let o = c.poll(quic);
            &&& o.result == Ok::<_, Error>(c.pending[0])
            &&& o.doq == (ConnectionView { pending: c.pending.drop_first(), ..c })
            &&& o.quic == quic
        }),
{
}

/// The events of a readable stream are returned in their order: the first at
/// once, the others by the following calls.
pub proof fn events_are_returned_in_order(c: ConnectionView, quic: TransportView, stream_id: u64)
    requires
        c.pending.len() == 0,
        quic.local_error is None,
        quic.readable.len() > 0,
        quic.readable[0] == stream_id,
        c.is_server || !c.streams.contains_key(stream_id) || c.probe(quic, stream_id).result is Ok,
        c.process_readable_stream(quic, stream_id).result is Ok,
        c.process_readable_stream(quic, stream_id).result->Ok_0.len() > 0,
    ensures
        ({
            let events = c.process_readable_stream(quic, stream_id).result->Ok_0;
            let o = c.poll(quic);
            &&& o.result is Ok
            &&& seq![o.result->Ok_0] + o.doq.pending == on_stream(stream_id, events)
        }),
{
    let step = c.process_readable_stream(quic, stream_id);
    let events = step.result->Ok_0;
    let o = c.poll(quic);
    assert(step.doq.pending == c.pending);
    assert(seq![o.result->Ok_0] + o.doq.pending =~= on_stream(stream_id, events));
}

} // verus!
