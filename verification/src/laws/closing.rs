//! Laws of protocol errors and the end of a connection.

use vstd::prelude::*;

use crate::connection::Error;
use crate::model::{protocol_error_reason, ConnectionView, EventView, Outcome};
use crate::transport::{
    bidi_id, local_id, ActionView, ConnectionErrorView, TransportError, TransportView,
};
use crate::wire::DoqError;

verus! {

/// Whether a connection was just closed with `DOQ_PROTOCOL_ERROR`.
pub open spec fn closed_with_protocol_error(before: TransportView, after: TransportView) -> bool {
    let error_code = DoqError::ProtocolError.code();
    let reason = protocol_error_reason();
    &&& !before.closed
    &&& before.local_error is None
    &&& after.local_error == Some(ConnectionErrorView { is_app: true, error_code, reason })
    &&& after.actions.len() > 0
    &&& after.actions.last() == (ActionView::Close { is_app: true, error_code, reason })
}

/// Processing a stream does not close the connection.
proof fn processing_leaves_open(c: ConnectionView, quic: TransportView, stream_id: u64)
    ensures
        ({
            let after = c.process_readable_stream(quic, stream_id).quic;
            after.local_error == quic.local_error && after.closed == quic.closed
        }),
{
}

proof fn polling_streams_closes(c: ConnectionView, quic: TransportView, ids: Seq<u64>)
    ensures
        ({
            let o = c.poll_streams(quic, ids);
            &&& o.result == Err::<(u64, EventView), _>(Error::ProtocolError)
                ==> closed_with_protocol_error(quic, o.quic)
            &&& o.quic.local_error != quic.local_error ==> o.result == Err::<(u64, EventView), _>(
                Error::ProtocolError,
            )
        }),
    decreases ids.len(),
{
    if ids.len() > 0 {
        let step = c.process_readable_stream(quic, ids[0]);
        processing_leaves_open(c, quic, ids[0]);
        if let Ok(events) = step.result {
            if events.len() == 0 {
                polling_streams_closes(step.doq, step.quic, ids.drop_first());
            }
        }
    }
}

/// The QUIC layer closed because the peer has broken the protocol.
pub open spec fn closed_for_protocol_error(quic: TransportView) -> TransportView {
    // "DoQ protocol error"
    let reason = seq![
        0x44u8, 0x6f, 0x51, 0x20, 0x70, 0x72, 0x6f, 0x74, 0x6f, 0x63, 0x6f, 0x6c, 0x20, 0x65, 0x72,
        0x72, 0x6f, 0x72,
    ];
    TransportView {
        local_error: Some(ConnectionErrorView { is_app: true, error_code: 2, reason }),
        actions: quic.actions.push(ActionView::Close { is_app: true, error_code: 2, reason }),
        ..quic
    }
}

/// A protocol error that is reported has closed the connection, with
/// `DOQ_PROTOCOL_ERROR` and a reason; and nothing else closes it.
pub proof fn protocol_error_closes_the_connection(
    c: ConnectionView,
    quic: TransportView,
    data: Seq<u8>,
    stream_id: u64,
)
    ensures
        ({
            let o = c.poll(quic);
            &&& o.result == Err::<(u64, EventView), _>(Error::ProtocolError)
                ==> closed_with_protocol_error(quic, o.quic)
            &&& o.quic.local_error != quic.local_error ==> o.result == Err::<(u64, EventView), _>(
                Error::ProtocolError,
            )
        }),
        ({
            let o = c.send_query(quic, data);
            &&& o.result == Err::<u64, _>(Error::ProtocolError) ==> closed_with_protocol_error(
                quic,
                o.quic,
            )
            &&& o.quic.local_error != quic.local_error ==> o.result == Err::<u64, _>(
                Error::ProtocolError,
            )
        }),
        ({
            let o = c.flush_query(quic, stream_id);
            &&& o.result == Err::<(), _>(Error::ProtocolError) ==> closed_with_protocol_error(
                quic,
                o.quic,
            )
            &&& o.quic.local_error != quic.local_error ==> o.result == Err::<(), _>(
                Error::ProtocolError,
            )
        }),
{
    polling_streams_closes(c, quic, quic.readable);
}

/// A connection that was closed locally is not read any more: polling it
/// changes nothing and has nothing to report.
pub proof fn closed_connection_is_not_read(c: ConnectionView, quic: TransportView)
    requires
        quic.local_error is Some,
    ensures
        c.poll(quic) == (Outcome::<(u64, EventView)> {
            doq: c,
            quic,
            result: Err(Error::Done),
        }),
{
}

/// Polling after a protocol error has nothing to report.
pub proof fn protocol_error_is_reported_once(c: ConnectionView, quic: TransportView)
    requires
        c.poll(quic).result == Err::<(u64, EventView), _>(Error::ProtocolError),
    ensures
        ({
            let o = c.poll(quic);
            o.doq.poll(o.quic).result == Err::<(u64, EventView), _>(Error::Done)
        }),
{
    protocol_error_closes_the_connection(c, quic, Seq::empty(), 0);
}

/// Streams that DoQ does not know break the protocol: one that a server
/// opened, and a unidirectional one that a client opened. The other ones that
/// are not the connection's to read are passed over.
pub proof fn forbidden_stream_is_a_protocol_error(
    c: ConnectionView,
    quic: TransportView,
    stream_id: u64,
)
    requires
        !bidi_id(stream_id) || local_id(stream_id, true),
    ensures
        ({
            let o = c.process_readable_stream(quic, stream_id);
            &&& o.doq == c
            &&& o.quic == quic
            &&& o.result == if local_id(stream_id, c.is_server) {
                Ok(Seq::<EventView>::empty())
            } else {
                Err(Error::ProtocolError)
            }
        }),
{
}

/// A server that asks a client to stop its query (`STOP_SENDING`) breaks the
/// protocol.
pub proof fn stopped_query_is_a_protocol_error(
    c: ConnectionView,
    quic: TransportView,
    stream_id: u64,
)
    requires
        !c.is_server,
        c.is_query_stream(stream_id),
        quic.streams.contains_key(stream_id),
        quic.streams[stream_id].stopped is Some,
        !quic.closed,
        quic.local_error is None,
    ensures
        c.flush_query(quic, stream_id).result == Err::<(), _>(Error::ProtocolError),
        c.poll_streams(quic, seq![stream_id]).result == Err::<(u64, EventView), _>(
            Error::ProtocolError,
        ),
{
    assert(seq![stream_id][0] == stream_id);
}

/// A client that asks a server to stop (`STOP_SENDING`) stops one response: it
/// is reported, and the connection goes on.
pub proof fn stopped_response_is_no_protocol_error(
    c: ConnectionView,
    quic: TransportView,
    stream_id: u64,
    code: u64,
)
    requires
        c.has_unsent(stream_id),
        quic.streams.contains_key(stream_id),
        quic.streams[stream_id].stopped == Some(code),
    ensures
        ({
            let o = c.flush_response(quic, stream_id);
            &&& o.doq == c
            &&& o.quic == quic
            &&& o.result == Err::<(), _>(
                Error::TransportError(TransportError::StreamStopped(code)),
            )
        }),
{
}

proof fn polling_streams_fails_in_three_ways(
    c: ConnectionView,
    quic: TransportView,
    ids: Seq<u64>,
)
    ensures
        c.poll_streams(quic, ids).result matches Err(e) ==> e is Done || e is ProtocolError
            || e is TransportError,
    decreases ids.len(),
{
    if ids.len() > 0 {
        let step = c.process_readable_stream(quic, ids[0]);
        if step.result is Ok && step.result->Ok_0.len() == 0 {
            polling_streams_fails_in_three_ways(step.doq, step.quic, ids.drop_first());
        }
    }
}

/// Polling fails only for want of an event, for a protocol error, or for an
/// error of the QUIC layer.
pub proof fn polling_fails_in_three_ways(c: ConnectionView, quic: TransportView)
    ensures
        c.poll(quic).result matches Err(e) ==> e is Done || e is ProtocolError
            || e is TransportError,
{
    polling_streams_fails_in_three_ways(c, quic, quic.readable);
}

} // verus!
