//! Why a driver holds little that waits to be written.

use vstd::prelude::*;

use crate::connection::Error;
use crate::driver_model::{DriverView, QueryView, ReadyView};
use crate::laws::driving::{
    answering_keeps_consistency, answering_keeps_settled, cancelling_keeps_consistency,
    flushing_a_stream_keeps_settled, flushing_keeps_consistency, flushing_writable_keeps, in_hand,
    not_waited_for, one_read_keeps_consistency, taking_back_keeps_consistency,
};
use crate::laws::isolation::processing_leaves_other_streams_alone;
use crate::laws::progress::polling_comes_to_an_end;
use crate::laws::validity::processing_keeps_validity;
use crate::model::ConnectionView;
use crate::outside::Offer;
use crate::responder::ResponderMessageView;
use crate::transport::TransportView;
use crate::waiting::Inbox;
use crate::wire::{DoqError, MAX_DOQ_MESSAGE_LEN};

verus! {

broadcast use vstd::multiset::group_multiset_axioms;

/// Whether what waits to be written on each stream is at most one framed
/// message, of a query that was surfaced.
pub open spec fn small_backlog(c: ConnectionView) -> bool {
    forall|id: u64| #[trigger]
        c.streams.contains_key(id) ==> {
            &&& c.streams[id].send_buf.len() <= MAX_DOQ_MESSAGE_LEN
            &&& c.streams[id].send_buf.len() > 0 ==> c.streams[id].event_triggered
        }
}

/// Whether no stream has come to have bytes waiting to be written.
spec fn no_new_backlog(c: ConnectionView, c2: ConnectionView) -> bool {
    forall|id: u64| #[trigger] c2.has_unsent(id) ==> c.has_unsent(id)
}

proof fn processing_adds_no_backlog(c: ConnectionView, quic: TransportView, stream_id: u64)
    requires
        c.is_server,
        small_backlog(c),
    ensures
        ({
            let o = c.process_readable_stream(quic, stream_id);
            &&& small_backlog(o.doq)
            &&& no_new_backlog(c, o.doq)
            &&& o.result matches Ok(events) ==> events.len() > 0 && events[0] is Query
                ==> !o.doq.has_unsent(stream_id)
        }),
{
    let o = c.process_readable_stream(quic, stream_id);
    assert forall|id: u64| #[trigger] o.doq.streams.contains_key(id) implies {
        &&& o.doq.streams[id].send_buf.len() <= MAX_DOQ_MESSAGE_LEN
        &&& o.doq.streams[id].send_buf.len() > 0 ==> o.doq.streams[id].event_triggered
    } by {
        if id != stream_id {
            processing_leaves_other_streams_alone(c, quic, stream_id, id);
            assert(c.streams.contains_key(id));
        } else if c.streams.contains_key(id) {
        }
    }
    assert forall|id: u64| #[trigger] o.doq.has_unsent(id) implies c.has_unsent(id) by {
        if id != stream_id {
            processing_leaves_other_streams_alone(c, quic, stream_id, id);
        } else if c.streams.contains_key(id) {
        }
    }
}

proof fn polling_streams_adds_no_backlog(c: ConnectionView, quic: TransportView, ids: Seq<u64>)
    requires
        c.is_server,
        c.valid(),
        small_backlog(c),
    ensures
        ({
            let o = c.poll_streams(quic, ids);
            &&& small_backlog(o.doq)
            &&& no_new_backlog(c, o.doq)
            &&& o.result matches Ok((id, event)) ==> event is Query ==> !o.doq.has_unsent(id)
        }),
    decreases ids.len(),
{
    if ids.len() > 0 {
        let o = c.poll_streams(quic, ids);
        let step = c.process_readable_stream(quic, ids[0]);
        processing_adds_no_backlog(c, quic, ids[0]);
        processing_keeps_validity(c, quic, ids[0]);
        if step.result is Ok && step.result->Ok_0.len() == 0 {
            polling_streams_adds_no_backlog(step.doq, step.quic, ids.drop_first());
            assert forall|id: u64| #[trigger] o.doq.has_unsent(id) implies c.has_unsent(id) by {
                assert(step.doq.has_unsent(id));
            }
        } else {
            assert(o.doq.streams == step.doq.streams);
            assert forall|id: u64| #[trigger] o.doq.has_unsent(id) implies c.has_unsent(id) by {
                assert(step.doq.has_unsent(id));
            }
            assert forall|id: u64| #[trigger] o.doq.streams.contains_key(id) implies {
                &&& o.doq.streams[id].send_buf.len() <= MAX_DOQ_MESSAGE_LEN
                &&& o.doq.streams[id].send_buf.len() > 0 ==> o.doq.streams[id].event_triggered
            } by {
                assert(step.doq.streams.contains_key(id));
            }
        }
    }
}

/// Polling adds nothing to what waits to be written, and nothing waits on the
/// stream of a query when it is surfaced.
pub proof fn polling_adds_no_backlog(c: ConnectionView, quic: TransportView)
    requires
        c.is_server,
        c.valid(),
        small_backlog(c),
    ensures
        ({
            let o = c.poll(quic);
            &&& small_backlog(o.doq)
            &&& forall|id: u64| #[trigger] o.doq.has_unsent(id) ==> c.has_unsent(id)
            &&& o.result matches Ok((id, event)) ==> event is Query ==> !o.doq.has_unsent(id)
        }),
{
    if quic.local_error is None {
        polling_streams_adds_no_backlog(c, quic, quic.readable);
    }
}

/// Reading keeps what waits to be written bounded.
pub proof fn reading_keeps_backlog_bounded(
    d: DriverView,
    quic: TransportView,
    offers: Seq<(int, Offer)>,
)
    requires
        d.consistent(),
        d.settled(quic),
        d.bounded(),
    ensures
        d.process_reads(quic, offers).driver.bounded(),
    decreases
            quic.readable.len(),
            (match d.conn {
                Some(c) => c.pending.len(),
                None => 0,
            }),
{
    if let Some(c) = d.conn {
        let o = c.poll(quic);
        let polled = d.with_conn(o.doq);
        polling_adds_no_backlog(c, quic);
        assert(polled.bounded());
        if let Ok((stream_id, event)) = o.result {
            let (next, r) = polled.read_event(stream_id, event, offers[0].0, offers[0].1);
            assert forall|id: u64, channel: int| #[trigger]
                next.waiting.contains((id, channel)) implies !o.doq.has_unsent(id) by {
                if !polled.waiting.contains((id, channel)) {
                    assert(id == stream_id && event is Query);
                }
            }
            assert(next.bounded());
            if r is Ok {
                polling_comes_to_an_end(c, quic);
                one_read_keeps_consistency(d, quic, offers[0].0, offers[0].1);
                reading_keeps_backlog_bounded(next, o.quic, offers.drop_first());
            }
        }
    }
}

/// Whether what waits stayed as it was on every other stream, and is at most
/// one framed message on this one.
spec fn one_message_waits(c: ConnectionView, c2: ConnectionView, stream_id: u64) -> bool {
    &&& forall|id: u64| #[trigger]
        c2.streams.contains_key(id) ==> {
            &&& c.streams.contains_key(id)
            &&& c2.streams[id].event_triggered == c.streams[id].event_triggered
            &&& id != stream_id ==> c2.streams[id].send_buf == c.streams[id].send_buf
            &&& c2.streams[id].send_buf.len() <= MAX_DOQ_MESSAGE_LEN
        }
}

proof fn writing_leaves_one_message(
    c: ConnectionView,
    quic: TransportView,
    stream_id: u64,
    data: Seq<u8>,
    fin: bool,
    error: u64,
)
    requires
        small_backlog(c),
    ensures
        !c.has_unsent(stream_id) ==> one_message_waits(
            c,
            c.send_response(quic, stream_id, data, fin).doq,
            stream_id,
        ),
        one_message_waits(c, c.flush_response(quic, stream_id).doq, stream_id),
        one_message_waits(c, c.reset_stream(quic, stream_id, error).doq, stream_id),
{
}

proof fn ending_a_query_keeps_bounded(
    d: DriverView,
    quic: TransportView,
    stream_id: u64,
    error: DoqError,
)
    requires
        d.bounded(),
        not_waited_for(d, stream_id),
    ensures
        d.without_query(stream_id).bounded(),
        d.without_query(stream_id).reset_stream(quic, stream_id, error).driver.bounded(),
{
    if let Some(c) = d.conn {
        writing_leaves_one_message(c, quic, stream_id, Seq::empty(), false, error.code());
        let after = d.without_query(stream_id).reset_stream(quic, stream_id, error).driver;
        assert forall|id: u64, channel: int| #[trigger]
            after.waiting.contains((id, channel)) implies !after.conn->0.has_unsent(id) by {
            assert(d.waiting.contains((id, channel)));
            assert(!c.has_unsent(id));
        }
    }
}

/// A write on the stream of a query in hand, whatever came of it, keeps what
/// waits to be written bounded.
proof fn write_keeps_bounded(
    d: DriverView,
    c2: ConnectionView,
    quic: TransportView,
    stream_id: u64,
    inbox: Inbox,
    fin: bool,
    result: Result<(), Error>,
)
    requires
        d.bounded(),
        d.conn is Some,
        in_hand(d, stream_id),
        one_message_waits(d.conn->0, c2, stream_id),
        d.conn->0.streams.contains_key(stream_id)
            ==> d.conn->0.streams[stream_id].event_triggered,
    ensures
        d.with_conn(c2).written(stream_id, inbox, fin).bounded(),
        result matches Err(e) ==> d.with_conn(c2).write_failed(
            quic,
            stream_id,
            e,
        ).driver.bounded(),
{
    let c = d.conn->0;
    let d2 = d.with_conn(c2);
    assert forall|id: u64, channel: int| #[trigger]
        d2.waiting.contains((id, channel)) implies !c2.has_unsent(id) by {
        assert(d.waiting.contains((id, channel)));
        assert(!c.has_unsent(id));
        assert(id != stream_id);
    }
    assert forall|id: u64| #[trigger] c2.streams.contains_key(id) implies {
        &&& c2.streams[id].send_buf.len() <= MAX_DOQ_MESSAGE_LEN
        &&& c2.streams[id].send_buf.len() > 0 ==> c2.streams[id].event_triggered
    } by {
        assert(c.streams.contains_key(id));
    }
    assert(d2.bounded());
    assert(not_waited_for(d2, stream_id));
    ending_a_query_keeps_bounded(d2, quic, stream_id, DoqError::InternalError);
    let after = d2.written(stream_id, inbox, fin);
    assert forall|id: u64, channel: int| #[trigger]
        after.waiting.contains((id, channel)) implies !c2.has_unsent(id) by {
        if !d2.waiting.contains((id, channel)) {
            assert(id == stream_id);
        }
    }
}

/// What a consumer says about its query keeps what waits to be written bounded:
/// it is waited for only when all that it said before is written.
pub proof fn answering_keeps_backlog_bounded(d: DriverView, quic: TransportView, ready: ReadyView)
    requires
        d.consistent(),
        d.settled(quic),
        d.bounded(),
        d.waits_for(ready.stream_id, ready.inbox),
    ensures
        d.take_back(ready).responder_ready(quic, ready).driver.bounded(),
{
    taking_back_keeps_consistency(d, ready);
    let taken = d.take_back(ready);
    assert(taken.bounded()) by {
        assert forall|id: u64, channel: int| #[trigger]
            taken.waiting.contains((id, channel)) implies d.waiting.contains((id, channel)) by {}
    }
    match ready.message {
        None => {
            ending_a_query_keeps_bounded(taken, quic, ready.stream_id, DoqError::InternalError);
        },
        Some(ResponderMessageView::Response { data, fin }) => {
            if let Some(c) = d.conn {
                assert(d.waiting.contains((ready.stream_id, ready.inbox.channel)));
                assert(!c.has_unsent(ready.stream_id));
                assert(d.queries.contains_key(ready.stream_id));
                writing_leaves_one_message(c, quic, ready.stream_id, data, fin, 0);
                let o = c.send_response(quic, ready.stream_id, data, fin);
                write_keeps_bounded(
                    taken,
                    o.doq,
                    o.quic,
                    ready.stream_id,
                    ready.inbox,
                    fin,
                    o.result,
                );
            }
        },
        Some(ResponderMessageView::Reset { error }) => {
            ending_a_query_keeps_bounded(taken, quic, ready.stream_id, error);
        },
    }
}

/// Flushing a parked response keeps what waits to be written bounded.
pub proof fn flushing_keeps_backlog_bounded(d: DriverView, quic: TransportView, stream_id: u64)
    requires
        d.consistent(),
        d.settled(quic),
        d.bounded(),
        d.queries.contains_key(stream_id),
        d.queries[stream_id].parked is Some,
    ensures
        ({
            let query = d.queries[stream_id];
            let taken = DriverView {
                queries: d.queries.insert(stream_id, QueryView { parked: None, ..query }),
                ..d
            };
            taken.flush_stream(
                quic,
                stream_id,
                query.parked->0,
                query.pending_fin,
            ).driver.bounded()
        }),
{
    let query = d.queries[stream_id];
    let taken = DriverView {
        queries: d.queries.insert(stream_id, QueryView { parked: None, ..query }),
        ..d
    };
    assert forall|channel: int| !#[trigger] taken.waiting.contains((stream_id, channel)) by {
        if taken.waiting.contains((stream_id, channel)) {
            assert(d.waiting.contains((stream_id, channel)));
        }
    }
    if let Some(c) = d.conn {
        assert(taken.bounded()) by {
            assert forall|id: u64, channel: int| #[trigger]
                taken.waiting.contains((id, channel)) implies d.waiting.contains((id, channel)) by {}
        }
        writing_leaves_one_message(c, quic, stream_id, Seq::empty(), false, 0);
        let o = c.flush_response(quic, stream_id);
        write_keeps_bounded(
            taken,
            o.doq,
            o.quic,
            stream_id,
            query.parked->0,
            query.pending_fin,
            o.result,
        );
    }
}

proof fn flushing_writable_keeps_bounded(d: DriverView, quic: TransportView)
    requires
        d.consistent(),
        d.settled(quic),
        d.bounded(),
        quic.is_server,
    ensures
        d.flush_writable(quic).driver.bounded(),
    decreases quic.writable.len(),
{
    if quic.writable.len() > 0 {
        let stream_id = quic.writable[0];
        let rest = TransportView { writable: quic.writable.drop_first(), ..quic };
        assert(d.settled(rest)) by {
            assert(forall|id: u64| quic.recv_ended(id) ==> #[trigger] rest.recv_ended(id));
        }
        if d.queries.contains_key(stream_id) && rest.is_stopped(stream_id) {
            cancelling_keeps_consistency(d, stream_id);
            let cancelled = d.cancel_responder(stream_id);
            assert(cancelled.settled(rest)) by {
                assert forall|id: u64| #[trigger]
                    cancelled.queries.contains_key(id) implies d.queries.contains_key(id) by {}
            }
            assert(cancelled.bounded()) by {
                assert forall|id: u64, channel: int| #[trigger]
                    cancelled.waiting.contains((id, channel)) implies d.waiting.contains(
                    (id, channel),
                ) by {}
            }
            flushing_writable_keeps_bounded(cancelled, rest);
        } else if d.queries.contains_key(stream_id) && d.queries[stream_id].parked is Some {
            let query = d.queries[stream_id];
            let taken = DriverView {
                queries: d.queries.insert(stream_id, QueryView { parked: None, ..query }),
                ..d
            };
            let step = taken.flush_stream(rest, stream_id, query.parked->0, query.pending_fin);
            flushing_keeps_consistency(d, rest, stream_id);
            flushing_a_stream_keeps_settled(d, rest, stream_id);
            flushing_keeps_backlog_bounded(d, rest, stream_id);
            if step.result is Ok {
                flushing_writable_keeps_bounded(step.driver, step.quic);
            }
        } else {
            flushing_writable_keeps_bounded(d, rest);
        }
    }
}

proof fn processing_ready_keeps_bounded(
    d: DriverView,
    quic: TransportView,
    readies: Seq<ReadyView>,
)
    requires
        d.consistent(),
        d.settled(quic),
        d.bounded(),
        quic.is_server,
        d.were_waiting(quic, readies),
    ensures
        d.process_ready(quic, readies).driver.bounded(),
    decreases readies.len(),
{
    if readies.len() > 0 {
        let ready = readies[0];
        answering_keeps_consistency(d, quic, ready);
        answering_keeps_settled(d, quic, ready);
        answering_keeps_backlog_bounded(d, quic, ready);
        let step = d.take_back(ready).responder_ready(quic, ready);
        if step.result is Ok {
            processing_ready_keeps_bounded(step.driver, step.quic, readies.drop_first());
        }
    }
}

/// A round of writing keeps what waits to be written bounded: a driver never
/// holds more than one framed message for a stream.
pub proof fn writing_rounds_keep_backlog_bounded(
    d: DriverView,
    quic: TransportView,
    told: Offer,
    readies: Seq<ReadyView>,
)
    requires
        d.consistent(),
        d.settled(quic),
        d.bounded(),
        quic.is_server,
        d.answered_in_turn(quic, told, readies),
    ensures
        d.process_writes(quic, told, readies).driver.bounded(),
{
    let confirmed = d.confirm_handshake(told);
    assert(confirmed.consistent());
    assert(confirmed.settled(quic));
    assert(confirmed.bounded());
    flushing_writable_keeps_bounded(confirmed, quic);
    flushing_writable_keeps(confirmed, quic);
    let flushed = confirmed.flush_writable(quic);
    if flushed.result is Ok {
        processing_ready_keeps_bounded(flushed.driver, flushed.quic, readies);
    }
}

} // verus!
