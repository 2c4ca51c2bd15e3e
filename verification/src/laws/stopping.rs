//! Laws of queries that the peer gives up.

use vstd::prelude::*;

use crate::driver_model::{DriverView, QueryView, ReadyView};
use crate::laws::closing::stopped_response_is_no_protocol_error;
use crate::laws::driving::{
    answering_keeps_consistency, cancelling_keeps_consistency, flushing_keeps_consistency,
    flushing_writable_keeps, not_waited_for, taking_back_keeps_consistency,
};
use crate::model::ConnectionView;
use crate::outside::{of_others, of_stream, Offer};
use crate::responder::ResponderMessageView;
use crate::transport::TransportView;
use crate::waiting::Inbox;
use crate::wire::DoqError;

verus! {

broadcast use vstd::multiset::group_multiset_axioms;

/// A client that stops a response (`STOP_SENDING`) ends that query, not the
/// connection.
pub proof fn stopped_response_ends_its_query(
    d: DriverView,
    quic: TransportView,
    stream_id: u64,
    inbox: Inbox,
    fin: bool,
)
    requires
        d.conn is Some,
        d.conn->0.has_unsent(stream_id),
        quic.streams.contains_key(stream_id),
        quic.streams[stream_id].stopped is Some,
    ensures
        ({
            let step = d.flush_stream(quic, stream_id, inbox, fin);
            &&& step.result is Ok
            &&& step.driver == d.without_query(stream_id)
            &&& step.quic == quic
        }),
{
    let step = d.flush_stream(quic, stream_id, inbox, fin);
    stopped_response_is_no_protocol_error(
        d.conn->0,
        quic,
        stream_id,
        quic.streams[stream_id].stopped->0,
    );
    assert(step.driver =~= d.without_query(stream_id));
}

/// A query that the peer gives up is closed for its consumer: its receiver is
/// dropped, or every wait for it is for a closed channel.
pub proof fn cancelled_query_is_closed(d: DriverView, stream_id: u64)
    requires
        d.consistent(),
    ensures
        ({
            let after = d.cancel_responder(stream_id);
            &&& after.queries.contains_key(stream_id) ==> forall|channel: int|
                after.closing.count((stream_id, channel)) == #[trigger] after.waiting.count(
                    (stream_id, channel),
                )
            &&& !after.queries.contains_key(stream_id) ==> not_waited_for(after, stream_id)
        }),
{
    let after = d.cancel_responder(stream_id);
    assert forall|channel: int| after.queries.contains_key(stream_id) implies after.closing.count(
        (stream_id, channel),
    ) == #[trigger] after.waiting.count((stream_id, channel)) by {
        let others = d.closing.filter(of_others(stream_id));
        let own = d.waiting.filter(of_stream(stream_id));
        assert(others.count((stream_id, channel)) == 0);
        assert(own.count((stream_id, channel)) == d.waiting.count((stream_id, channel)));
    }
    if !after.queries.contains_key(stream_id) {
        assert forall|channel: int| !#[trigger] after.waiting.contains((stream_id, channel)) by {
            if after.waiting.contains((stream_id, channel)) {
                assert(d.waiting.contains((stream_id, channel)));
            }
        }
    }
}

/// Whether the consumer of a stream's query knows, or learns at once, that it
/// is over: the query is not tracked, or every wait for it is for a closed
/// channel.
pub open spec fn closed_for_consumer(d: DriverView, stream_id: u64) -> bool {
    &&& !d.queries.contains_key(stream_id) ==> not_waited_for(d, stream_id)
    &&& d.queries.contains_key(stream_id) ==> {
        &&& d.queries[stream_id].parked is None
        &&& forall|channel: int|
            d.closing.count((stream_id, channel)) == #[trigger] d.waiting.count(
                (stream_id, channel),
            )
    }
}

proof fn cancelling_closes(d: DriverView, cancelled: u64, stream_id: u64)
    requires
        d.consistent(),
        cancelled == stream_id || closed_for_consumer(d, stream_id),
    ensures
        closed_for_consumer(d.cancel_responder(cancelled), stream_id),
{
    let after = d.cancel_responder(cancelled);
    if cancelled == stream_id {
        cancelled_query_is_closed(d, stream_id);
    } else {
        assert forall|channel: int| after.closing.count((stream_id, channel)) == d.closing.count(
            (stream_id, channel),
        ) && #[trigger] after.waiting.count((stream_id, channel)) == d.waiting.count(
            (stream_id, channel),
        ) by {
            let others = d.closing.filter(of_others(cancelled));
            let own = d.waiting.filter(of_stream(cancelled));
            assert(others.count((stream_id, channel)) == d.closing.count((stream_id, channel)));
            assert(own.count((stream_id, channel)) == 0);
        }
        assert(not_waited_for(d, stream_id) ==> not_waited_for(after, stream_id)) by {
            assert forall|channel: int| #[trigger]
                after.waiting.contains((stream_id, channel)) implies d.waiting.contains(
                (stream_id, channel),
            ) by {}
        }
    }
}

proof fn flushing_another_keeps_closed(
    d: DriverView,
    quic: TransportView,
    flushed: u64,
    inbox: Inbox,
    fin: bool,
    stream_id: u64,
)
    requires
        flushed != stream_id,
        closed_for_consumer(d, stream_id),
    ensures
        closed_for_consumer(d.flush_stream(quic, flushed, inbox, fin).driver, stream_id),
{
    let after = d.flush_stream(quic, flushed, inbox, fin).driver;
    assert forall|channel: int| after.closing.count((stream_id, channel)) == d.closing.count(
        (stream_id, channel),
    ) && #[trigger] after.waiting.count((stream_id, channel)) == d.waiting.count(
        (stream_id, channel),
    ) by {}
    assert(not_waited_for(d, stream_id) ==> not_waited_for(after, stream_id)) by {
        assert forall|channel: int| #[trigger]
            after.waiting.contains((stream_id, channel)) implies d.waiting.contains(
            (stream_id, channel),
        ) by {}
    }
}

proof fn flushing_keeps_stopped(
    d: DriverView,
    quic: TransportView,
    flushed: u64,
    inbox: Inbox,
    fin: bool,
    stream_id: u64,
)
    requires
        quic.is_stopped(stream_id),
    ensures
        d.flush_stream(quic, flushed, inbox, fin).quic.is_stopped(stream_id),
{
}

/// A peer that stops a response (`STOP_SENDING`) closes it for its consumer,
/// whether that was about to say something or not: once the stream was reported
/// writable, a round of flushing leaves its query neither parked nor waited for
/// on a channel that is open.
pub proof fn flushing_closes_a_stopped_query(
    d: DriverView,
    quic: TransportView,
    stream_id: u64,
)
    requires
        d.consistent(),
        quic.is_stopped(stream_id),
        quic.writable.contains(stream_id) || closed_for_consumer(d, stream_id),
        d.flush_writable(quic).result is Ok,
    ensures
        closed_for_consumer(d.flush_writable(quic).driver, stream_id),
        d.flush_writable(quic).quic.is_stopped(stream_id),
    decreases quic.writable.len(),
{
    if quic.writable.len() > 0 {
        let first = quic.writable[0];
        let rest = TransportView { writable: quic.writable.drop_first(), ..quic };
        if first != stream_id && quic.writable.contains(stream_id) {
            let i = choose|i: int| 0 <= i < quic.writable.len() && quic.writable[i] == stream_id;
            assert(rest.writable[i - 1] == stream_id);
        }
        if d.queries.contains_key(first) && rest.is_stopped(first) {
            cancelling_keeps_consistency(d, first);
            if first == stream_id || closed_for_consumer(d, stream_id) {
                cancelling_closes(d, first, stream_id);
            }
            flushing_closes_a_stopped_query(d.cancel_responder(first), rest, stream_id);
        } else if d.queries.contains_key(first) && d.queries[first].parked is Some {
            let query = d.queries[first];
            let taken = DriverView {
                queries: d.queries.insert(first, QueryView { parked: None, ..query }),
                ..d
            };
            let step = taken.flush_stream(rest, first, query.parked->0, query.pending_fin);
            flushing_keeps_consistency(d, rest, first);
            flushing_keeps_stopped(
                taken,
                rest,
                first,
                query.parked->0,
                query.pending_fin,
                stream_id,
            );
            if closed_for_consumer(d, stream_id) {
                flushing_another_keeps_closed(
                    taken,
                    rest,
                    first,
                    query.parked->0,
                    query.pending_fin,
                    stream_id,
                );
            }
            flushing_closes_a_stopped_query(step.driver, step.quic, stream_id);
        } else {
            if first == stream_id {
                assert(not_waited_for(d, stream_id)) by {
                    assert forall|channel: int| !#[trigger] d.waiting.contains(
                        (stream_id, channel),
                    ) by {}
                }
            }
            flushing_closes_a_stopped_query(d, rest, stream_id);
        }
    }
}

proof fn answering_keeps_stopped(
    d: DriverView,
    quic: TransportView,
    ready: ReadyView,
    stream_id: u64,
)
    requires
        quic.is_stopped(stream_id),
    ensures
        d.responder_ready(quic, ready).quic.is_stopped(stream_id),
{
    if let Some(c) = d.conn {
        match ready.message {
            None => {
                let code = DoqError::InternalError.code();
                resets_keep_stopped(c, quic, ready.stream_id, code, stream_id);
            },
            Some(ResponderMessageView::Response { data, fin }) => {
                responses_keep_stopped(c, quic, ready.stream_id, data, fin, stream_id);
                let o = c.send_response(quic, ready.stream_id, data, fin);
                let code = DoqError::InternalError.code();
                resets_keep_stopped(o.doq, o.quic, ready.stream_id, code, stream_id);
            },
            Some(ResponderMessageView::Reset { error }) => {
                resets_keep_stopped(c, quic, ready.stream_id, error.code(), stream_id);
            },
        }
    }
}

proof fn resets_keep_stopped(
    c: ConnectionView,
    quic: TransportView,
    id: u64,
    error: u64,
    stream_id: u64,
)
    requires
        quic.is_stopped(stream_id),
    ensures
        c.reset_stream(quic, id, error).quic.is_stopped(stream_id),
{
}

proof fn responses_keep_stopped(
    c: ConnectionView,
    quic: TransportView,
    id: u64,
    data: Seq<u8>,
    fin: bool,
    stream_id: u64,
)
    requires
        quic.is_stopped(stream_id),
    ensures
        ({
            let o = c.send_response(quic, id, data, fin);
            &&& o.quic.is_stopped(stream_id)
            &&& id == stream_id ==> o.result is Err
        }),
{
}

/// What a consumer says about a stopped query ends it.
proof fn answering_ends_a_stopped_query(d: DriverView, quic: TransportView, ready: ReadyView)
    requires
        quic.is_stopped(ready.stream_id),
        d.responder_ready(quic, ready).result is Ok,
    ensures
        ({
            let after = d.responder_ready(quic, ready).driver;
            &&& !after.queries.contains_key(ready.stream_id)
            &&& after.waiting == d.waiting
        }),
{
    if let Some(c) = d.conn {
        if let Some(ResponderMessageView::Response { data, fin }) = ready.message {
            responses_keep_stopped(c, quic, ready.stream_id, data, fin, ready.stream_id);
        }
    }
}

/// What a consumer says about its query does not concern the waits for another.
#[verifier::rlimit(40)]
proof fn answering_leaves_other_waits_alone(
    d: DriverView,
    quic: TransportView,
    ready: ReadyView,
    stream_id: u64,
)
    requires
        ready.stream_id != stream_id,
    ensures
        ({
            let after = d.responder_ready(quic, ready).driver;
            &&& after.queries.contains_key(stream_id) == d.queries.contains_key(stream_id)
            &&& after.queries.contains_key(stream_id) ==> after.queries[stream_id]
                == d.queries[stream_id]
            &&& forall|channel: int|
                after.closing.count((stream_id, channel)) == d.closing.count((stream_id, channel))
                    && #[trigger] after.waiting.count((stream_id, channel)) == d.waiting.count(
                    (stream_id, channel),
                )
        }),
{
}

/// Dealing with what a consumer said leaves a stopped query closed, be it its own
/// or another.
proof fn answering_keeps_closed(
    d: DriverView,
    quic: TransportView,
    ready: ReadyView,
    stream_id: u64,
)
    requires
        d.consistent(),
        d.waits_for(ready.stream_id, ready.inbox),
        quic.is_stopped(stream_id),
        closed_for_consumer(d, stream_id),
        d.take_back(ready).responder_ready(quic, ready).result is Ok,
    ensures
        closed_for_consumer(d.take_back(ready).responder_ready(quic, ready).driver, stream_id),
{
    let taken = d.take_back(ready);
    let after = taken.responder_ready(quic, ready).driver;
    if ready.stream_id == stream_id {
        taking_back_keeps_consistency(d, ready);
        answering_ends_a_stopped_query(taken, quic, ready);
        assert(not_waited_for(after, stream_id));
    } else {
        answering_leaves_other_waits_alone(taken, quic, ready, stream_id);
        assert(not_waited_for(d, stream_id) ==> not_waited_for(after, stream_id)) by {
            assert forall|channel: int| #[trigger]
                after.waiting.contains((stream_id, channel)) implies d.waiting.contains(
                (stream_id, channel),
            ) by {
                assert(after.waiting.count((stream_id, channel)) > 0);
            }
        }
    }
}

proof fn processing_ready_keeps_closed(
    d: DriverView,
    quic: TransportView,
    readies: Seq<ReadyView>,
    stream_id: u64,
)
    requires
        d.consistent(),
        d.were_waiting(quic, readies),
        quic.is_stopped(stream_id),
        closed_for_consumer(d, stream_id),
        d.process_ready(quic, readies).result is Ok,
    ensures
        closed_for_consumer(d.process_ready(quic, readies).driver, stream_id),
    decreases readies.len(),
{
    if readies.len() > 0 {
        let ready = readies[0];
        let step = d.take_back(ready).responder_ready(quic, ready);
        answering_keeps_consistency(d, quic, ready);
        answering_keeps_closed(d, quic, ready, stream_id);
        answering_keeps_stopped(d.take_back(ready), quic, ready, stream_id);
        processing_ready_keeps_closed(step.driver, step.quic, readies.drop_first(), stream_id);
    }
}

/// A peer that stops a response closes it for its consumer in the next round of
/// writing: behind it, the query is not tracked, or waited for on a closed
/// channel only, whatever consumers said in that round.
pub proof fn stopped_query_is_closed(
    d: DriverView,
    quic: TransportView,
    told: Offer,
    readies: Seq<ReadyView>,
    stream_id: u64,
)
    requires
        d.consistent(),
        d.answered_in_turn(quic, told, readies),
        quic.is_stopped(stream_id),
        quic.writable.contains(stream_id) || closed_for_consumer(d, stream_id),
        d.process_writes(quic, told, readies).result is Ok,
    ensures
        closed_for_consumer(d.process_writes(quic, told, readies).driver, stream_id),
{
    let confirmed = d.confirm_handshake(told);
    assert(confirmed.consistent());
    flushing_writable_keeps(confirmed, quic);
    flushing_closes_a_stopped_query(confirmed, quic, stream_id);
    let flushed = confirmed.flush_writable(quic);
    processing_ready_keeps_closed(flushed.driver, flushed.quic, readies, stream_id);
}

} // verus!
