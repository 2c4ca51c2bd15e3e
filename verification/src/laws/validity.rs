//! What every operation of a connection keeps.

use vstd::prelude::*;

use crate::model::{
    event_of_role, of_other_stream, on_stream, ConnectionView, EventView, StreamView,
};
use crate::transport::{bidi_id, local_id, TransportView};

verus! {

/// A connection is valid from the start.
pub proof fn new_connection_is_valid(is_server: bool)
    ensures
        ConnectionView::new(is_server).valid(),
{
}

/// Sending and flushing a query keep a connection valid.
pub proof fn queries_keep_validity(
    c: ConnectionView,
    quic: TransportView,
    data: Seq<u8>,
    stream_id: u64,
)
    requires
        c.valid(),
    ensures
        c.send_query(quic, data).doq.valid(),
        c.flush_query(quic, stream_id).doq.valid(),
{
    let id = c.next_query_stream_id;
    let registered = c.with_stream(id, StreamView::query(data));
    if !c.is_server {
        assert(registered.valid());
    }
}

/// Sending and flushing a response keep a connection valid.
pub proof fn responses_keep_validity(
    c: ConnectionView,
    quic: TransportView,
    stream_id: u64,
    data: Seq<u8>,
    fin: bool,
)
    requires
        c.valid(),
    ensures
        c.send_response(quic, stream_id, data, fin).doq.valid(),
        c.flush_response(quic, stream_id).doq.valid(),
{
}

/// What is left of pending events without those of one stream was pending, and
/// is of another stream.
pub(crate) proof fn events_of_other_streams(pending: Seq<(u64, EventView)>, stream_id: u64)
    ensures
        forall|i: int|
            0 <= i < pending.filter(of_other_stream(stream_id)).len() ==> {
                let e = #[trigger] pending.filter(of_other_stream(stream_id))[i];
                e.0 != stream_id && pending.contains(e)
            },
        pending.filter(of_other_stream(stream_id)).len() <= pending.len(),
    decreases pending.len(),
{
    reveal(Seq::filter);
    let f = of_other_stream(stream_id);
    if pending.len() > 0 {
        let shorter = pending.drop_last();
        events_of_other_streams(shorter, stream_id);
        assert forall|i: int| 0 <= i < pending.filter(f).len() implies {
            let e = #[trigger] pending.filter(f)[i];
            e.0 != stream_id && pending.contains(e)
        } by {
            let e = pending.filter(f)[i];
            if i < shorter.filter(f).len() {
                assert(e == shorter.filter(f)[i]);
                let k = choose|k: int| 0 <= k < shorter.len() && shorter[k] == e;
                assert(pending[k] == e);
            } else {
                assert(pending[pending.len() - 1] == e);
            }
        }
    }
}

/// Abandoning a stream keeps a connection valid.
pub proof fn abandoning_keeps_validity(
    c: ConnectionView,
    quic: TransportView,
    stream_id: u64,
    error: u64,
)
    requires
        c.valid(),
    ensures
        c.cancel_query(quic, stream_id, error).doq.valid(),
        c.reset_stream(quic, stream_id, error).doq.valid(),
{
    events_of_other_streams(c.pending, stream_id);
    let left = c.pending.filter(of_other_stream(stream_id));
    assert forall|i: int| 0 <= i < left.len() implies event_of_role(
        c.is_server,
        (#[trigger] left[i]).1,
    ) by {
        assert(c.pending.contains(left[i]));
    }
}

/// Processing a readable stream keeps a connection valid, and surfaces only
/// events of its role: queries on a server, one at a time, responses and their
/// end on a client.
pub proof fn processing_keeps_validity(c: ConnectionView, quic: TransportView, stream_id: u64)
    requires
        c.valid(),
    ensures
        c.process_readable_stream(quic, stream_id).doq.valid(),
        c.process_readable_stream(quic, stream_id).doq.is_server == c.is_server,
        match c.process_readable_stream(quic, stream_id).result {
            Ok(events) => {
                &&& c.is_server ==> events.len() <= 1
                &&& forall|i: int|
                    0 <= i < events.len() ==> event_of_role(c.is_server, #[trigger] events[i])
            },
            Err(_) => true,
        },
{
    let read = c.read_stream(quic, stream_id).doq;
    if bidi_id(stream_id) && (c.is_server <==> !local_id(stream_id, c.is_server)) {
        assert(stream_id % 4 == 0);
        assert(read.valid());
        if c.is_server {
            assert(read.drain_server(stream_id).0.valid());
        } else {
            assert(read.drain_client(stream_id).0.valid());
        }
    }
}

/// Polling some streams keeps a connection valid, and surfaces only events of
/// its role.
pub(crate) proof fn polling_streams_keeps_validity(
    c: ConnectionView,
    quic: TransportView,
    ids: Seq<u64>,
)
    requires
        c.valid(),
    ensures
        c.poll_streams(quic, ids).doq.valid(),
        c.poll_streams(quic, ids).doq.is_server == c.is_server,
        match c.poll_streams(quic, ids).result {
            Ok((_, event)) => event_of_role(c.is_server, event),
            Err(_) => true,
        },
    decreases ids.len(),
{
    if ids.len() > 0 {
        let step = c.process_readable_stream(quic, ids[0]);
        processing_keeps_validity(c, quic, ids[0]);
        if let Ok(events) = step.result {
            if events.len() == 0 {
                polling_streams_keeps_validity(step.doq, step.quic, ids.drop_first());
            } else {
                let rest = events.drop_first();
                let queued = on_stream(ids[0], rest);
                let pending = step.doq.pending + queued;
                assert forall|i: int| 0 <= i < pending.len() implies event_of_role(
                    c.is_server,
                    (#[trigger] pending[i]).1,
                ) by {
                    if i >= step.doq.pending.len() {
                        let k = i - step.doq.pending.len();
                        assert(pending[i] == queued[k]);
                        assert(queued[k].1 == events[k + 1]);
                    }
                }
            }
        }
    }
}

/// Polling keeps a connection valid. A server surfaces queries and resets, a
/// client responses, their end and resets.
pub proof fn polling_keeps_validity(c: ConnectionView, quic: TransportView)
    requires
        c.valid(),
    ensures
        c.poll(quic).doq.valid(),
        c.poll(quic).doq.is_server == c.is_server,
        match c.poll(quic).result {
            Ok((_, event)) => event_of_role(c.is_server, event),
            Err(_) => true,
        },
{
    if quic.local_error is None {
        if c.pending.len() > 0 {
            let rest = c.pending.drop_first();
            assert forall|i: int| 0 <= i < rest.len() implies event_of_role(
                c.is_server,
                (#[trigger] rest[i]).1,
            ) by {
                assert(rest[i] == c.pending[i + 1]);
            }
        } else {
            polling_streams_keeps_validity(c, quic, quic.readable);
        }
    }
}

} // verus!
