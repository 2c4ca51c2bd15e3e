//! Laws of the server driver.

use vstd::prelude::*;

use crate::connection::Error;
use crate::driver_model::{commanded, DriverView, QueryView, ReadyView, WakeupView};
use crate::laws::closing::{closed_with_protocol_error, protocol_error_closes_the_connection};
use crate::laws::isolation::{
    abandoning_leaves_other_streams_alone, processing_leaves_other_streams_alone,
    responses_leave_other_streams_alone, stream_unchanged,
};
use crate::laws::progress::polling_comes_to_an_end;
use crate::laws::sending::{queued_bytes, response_is_queued_in_its_frame};
use crate::laws::validity::{
    abandoning_keeps_validity, polling_keeps_validity, processing_keeps_validity,
    responses_keep_validity,
};
use crate::model::{ConnectionView, EventView};
use crate::outside::{of_others, of_stream, Offer};
use crate::responder::{DoqCommandView, DoqEventView, ResponderMessageView};
use crate::transport::{ActionView, Shutdown, TransportView};
use crate::waiting::Inbox;
use crate::wire::{frame, DoqError, MAX_DNS_MESSAGE_LEN};

verus! {

broadcast use vstd::multiset::group_multiset_axioms;

/// Whether a query is tracked, and its receiver neither parked nor waited on:
/// it is in the hands of the step that is going on.
pub open spec fn in_hand(d: DriverView, stream_id: u64) -> bool {
    &&& d.queries.contains_key(stream_id)
    &&& d.queries[stream_id].parked is None
    &&& not_waited_for(d, stream_id)
}

/// Whether the query that the end of a wait is about, if it is about one, is in
/// hand.
pub open spec fn brought_in_hand(d: DriverView, wakeup: WakeupView) -> bool {
    wakeup matches WakeupView::Ready(ready) ==> in_hand(d, ready.stream_id)
}

/// Whether no consumer is waited for on account of the stream.
pub open spec fn not_waited_for(d: DriverView, stream_id: u64) -> bool {
    forall|channel: int| !#[trigger] d.waiting.contains((stream_id, channel))
}

/// Waiting for a consumer keeps a driver consistent, unless that one is waited
/// for already.
pub proof fn checking_out_keeps_consistency(d: DriverView, stream_id: u64, inbox: Inbox)
    requires
        d.consistent(),
        not_waited_for(d, stream_id),
    ensures
        d.check_out(stream_id, inbox).consistent(),
{
    let after = d.check_out(stream_id, inbox);
    let future = (stream_id, inbox.channel);
    assert(d.waiting.count(future) == 0) by {
        assert(!d.waiting.contains(future));
    }
    assert forall|id: u64, channel: int| #[trigger]
        after.waiting.contains((id, channel)) implies after.queries.contains_key(id)
        && after.queries[id].parked is None && after.waiting.count((id, channel)) == 1 by {
        if (id, channel) != future {
            assert(d.waiting.contains((id, channel)));
        }
    }
    assert forall|id: u64, a: int, b: int|
        #![trigger after.waiting.contains((id, a)), after.waiting.contains((id, b))]
        after.waiting.contains((id, a)) && after.waiting.contains((id, b)) implies a == b by {
        assert((id, a) == future || d.waiting.contains((id, a)));
        assert((id, b) == future || d.waiting.contains((id, b)));
    }
    assert forall|id: u64, channel: int| #[trigger]
        after.closing.count((id, channel)) <= after.waiting.count((id, channel)) by {
        assert(d.closing.count((id, channel)) <= d.waiting.count((id, channel)));
    }
}

/// Taking the receiver of a query back at the end of a wait keeps a driver
/// consistent, and leaves the query in hand.
pub proof fn taking_back_keeps_consistency(d: DriverView, ready: ReadyView)
    requires
        d.consistent(),
        d.waits_for(ready.stream_id, ready.inbox),
    ensures
        d.take_back(ready).consistent(),
        in_hand(d.take_back(ready), ready.stream_id),
{
    let stream_id = ready.stream_id;
    let after = d.take_back(ready);
    let future = (stream_id, ready.inbox.channel);
    assert forall|id: u64, channel: int| #[trigger]
        after.waiting.contains((id, channel)) implies after.queries.contains_key(id)
        && after.queries[id].parked is None && after.waiting.count((id, channel)) == 1 by {
        assert(d.waiting.contains((id, channel)));
    }
    assert forall|id: u64, a: int, b: int|
        #![trigger after.waiting.contains((id, a)), after.waiting.contains((id, b))]
        after.waiting.contains((id, a)) && after.waiting.contains((id, b)) implies a == b by {
        assert(d.waiting.contains((id, a)));
        assert(d.waiting.contains((id, b)));
    }
    assert forall|id: u64, channel: int| #[trigger]
        after.closing.count((id, channel)) <= after.waiting.count((id, channel)) by {
        assert(d.closing.count((id, channel)) <= d.waiting.count((id, channel)));
    }
    assert forall|channel: int| !#[trigger] after.waiting.contains((stream_id, channel)) by {
        if after.waiting.contains((stream_id, channel)) {
            assert(d.waiting.contains((stream_id, channel)));
            assert(d.waiting.contains(future));
        }
    }
}

/// Ending a query that is in hand keeps a driver consistent.
pub proof fn ending_a_query_keeps_consistency(
    d: DriverView,
    quic: TransportView,
    stream_id: u64,
    error: DoqError,
)
    requires
        d.consistent(),
        not_waited_for(d, stream_id),
    ensures
        d.without_query(stream_id).consistent(),
        d.without_query(stream_id).reset_stream(quic, stream_id, error).driver.consistent(),
{
    let after = d.without_query(stream_id);
    assert forall|id: u64, channel: int| #[trigger]
        after.waiting.contains((id, channel)) implies after.queries.contains_key(id)
        && after.queries[id].parked is None && after.waiting.count((id, channel)) == 1 by {
        assert(d.waiting.contains((id, channel)));
    }
    if let Some(c) = d.conn {
        abandoning_keeps_validity(c, quic, stream_id, error.code());
        reset_keeps_role(c, quic, stream_id, error.code());
    }
}

proof fn reset_keeps_role(
    c: ConnectionView,
    quic: TransportView,
    stream_id: u64,
    error: u64,
)
    ensures
        c.reset_stream(quic, stream_id, error).doq.is_server == c.is_server,
{
}

proof fn written_keeps_consistency(d: DriverView, stream_id: u64, inbox: Inbox, fin: bool)
    requires
        d.consistent(),
        in_hand(d, stream_id),
    ensures
        d.written(stream_id, inbox, fin).consistent(),
{
    checking_out_keeps_consistency(d, stream_id, inbox);
    let parked = DriverView {
        queries: d.queries.insert(
            stream_id,
            QueryView { parked: Some(inbox), pending_fin: fin },
        ),
        ..d
    };
    assert forall|id: u64, channel: int| #[trigger]
        parked.waiting.contains((id, channel)) implies parked.queries.contains_key(id)
        && parked.queries[id].parked is None && parked.waiting.count((id, channel)) == 1 by {
        assert(d.waiting.contains((id, channel)));
    }
    let ended = d.without_query(stream_id);
    assert forall|id: u64, channel: int| #[trigger]
        ended.waiting.contains((id, channel)) implies ended.queries.contains_key(id)
        && ended.queries[id].parked is None && ended.waiting.count((id, channel)) == 1 by {
        assert(d.waiting.contains((id, channel)));
    }
}

proof fn write_failed_keeps_consistency(
    d: DriverView,
    quic: TransportView,
    stream_id: u64,
    error: Error,
)
    requires
        d.consistent(),
        in_hand(d, stream_id),
    ensures
        d.write_failed(quic, stream_id, error).driver.consistent(),
{
    ending_a_query_keeps_consistency(d, quic, stream_id, DoqError::InternalError);
}

/// Writing a response, or what waits of one, for a query in hand keeps a
/// driver consistent.
pub proof fn writing_keeps_consistency(
    d: DriverView,
    quic: TransportView,
    stream_id: u64,
    inbox: Inbox,
    data: Seq<u8>,
    fin: bool,
)
    requires
        d.consistent(),
        in_hand(d, stream_id),
    ensures
        d.send_response(quic, stream_id, inbox, data, fin).driver.consistent(),
        d.flush_stream(quic, stream_id, inbox, fin).driver.consistent(),
{
    if let Some(c) = d.conn {
        responses_keep_validity(c, quic, stream_id, data, fin);
        let sent = c.send_response(quic, stream_id, data, fin);
        let flushed = c.flush_response(quic, stream_id);
        assert(d.with_conn(sent.doq).consistent());
        assert(in_hand(d.with_conn(sent.doq), stream_id));
        assert(d.with_conn(flushed.doq).consistent());
        assert(in_hand(d.with_conn(flushed.doq), stream_id));
        written_keeps_consistency(d.with_conn(sent.doq), stream_id, inbox, fin);
        written_keeps_consistency(d.with_conn(flushed.doq), stream_id, inbox, fin);
        if let Err(e) = sent.result {
            write_failed_keeps_consistency(d.with_conn(sent.doq), sent.quic, stream_id, e);
        }
        if let Err(e) = flushed.result {
            write_failed_keeps_consistency(d.with_conn(flushed.doq), flushed.quic, stream_id, e);
        }
    }
}

/// Dealing with what a consumer said about a query that is in hand keeps a
/// driver consistent.
pub proof fn answer_in_hand_keeps_consistency(d: DriverView, quic: TransportView, ready: ReadyView)
    requires
        d.consistent(),
        in_hand(d, ready.stream_id),
    ensures
        d.responder_ready(quic, ready).driver.consistent(),
{
    match ready.message {
        None => {
            ending_a_query_keeps_consistency(d, quic, ready.stream_id, DoqError::InternalError);
        },
        Some(ResponderMessageView::Response { data, fin }) => {
            writing_keeps_consistency(d, quic, ready.stream_id, ready.inbox, data, fin);
        },
        Some(ResponderMessageView::Reset { error }) => {
            ending_a_query_keeps_consistency(d, quic, ready.stream_id, error);
        },
    }
}

/// What a consumer says about its query, or that it says nothing more, keeps a
/// driver consistent.
pub proof fn answering_keeps_consistency(d: DriverView, quic: TransportView, ready: ReadyView)
    requires
        d.consistent(),
        d.waits_for(ready.stream_id, ready.inbox),
    ensures
        d.take_back(ready).queries.contains_key(ready.stream_id),
        d.take_back(ready).responder_ready(quic, ready).driver.consistent(),
{
    taking_back_keeps_consistency(d, ready);
    answer_in_hand_keeps_consistency(d.take_back(ready), quic, ready);
}

/// Flushing the first stream that has become writable keeps a driver
/// consistent.
pub proof fn flushing_keeps_consistency(d: DriverView, quic: TransportView, stream_id: u64)
    requires
        d.consistent(),
        d.queries.contains_key(stream_id),
        d.queries[stream_id].parked is Some,
    ensures
        ({
            let query = d.queries[stream_id];
            let taken = DriverView {
                queries: d.queries.insert(stream_id, QueryView { parked: None, ..query }),
                ..d
            };
            taken.flush_stream(
                quic,
                stream_id,
                query.parked->0,
                query.pending_fin,
            ).driver.consistent()
        }),
{
    let query = d.queries[stream_id];
    let taken = DriverView {
        queries: d.queries.insert(stream_id, QueryView { parked: None, ..query }),
        ..d
    };
    assert forall|id: u64, channel: int| #[trigger]
        taken.waiting.contains((id, channel)) implies taken.queries.contains_key(id)
        && taken.queries[id].parked is None && taken.waiting.count((id, channel)) == 1 by {
        assert(d.waiting.contains((id, channel)));
    }
    assert forall|channel: int| !#[trigger] taken.waiting.contains((stream_id, channel)) by {
        if taken.waiting.contains((stream_id, channel)) {
            assert(d.waiting.contains((stream_id, channel)));
        }
    }
    writing_keeps_consistency(
        taken,
        quic,
        stream_id,
        query.parked->0,
        Seq::empty(),
        query.pending_fin,
    );
}

/// Whether the peer has ended a stream, and its query was surfaced.
spec fn spent(c: ConnectionView, quic: TransportView, stream_id: u64) -> bool {
    &&& quic.recv_ended(stream_id)
    &&& c.streams.contains_key(stream_id) ==> c.streams[stream_id].event_triggered
}

proof fn processing_keeps_spent(c: ConnectionView, quic: TransportView, stream_id: u64, id: u64)
    requires
        c.is_server,
        c.ends_agree(quic),
    ensures
        ({
            let o = c.process_readable_stream(quic, stream_id);
            &&& o.doq.ends_agree(o.quic)
            &&& spent(c, quic, id) ==> spent(o.doq, o.quic, id)
            &&& match o.result {
                Ok(events) => {
                    &&& events.len() > 0 && events[0] is Query ==> spent(o.doq, o.quic, stream_id)
                    &&& spent(c, quic, stream_id) ==> events.len() == 0
                },
                Err(_) => true,
            }
        }),
{
    let o = c.process_readable_stream(quic, stream_id);
    if id != stream_id {
        processing_leaves_other_streams_alone(c, quic, stream_id, id);
    }
    assert forall|other: u64| #[trigger]
        o.doq.streams.contains_key(other)
            && o.doq.streams[other].fin_received implies o.quic.recv_ended(other) by {
        if other != stream_id {
            processing_leaves_other_streams_alone(c, quic, stream_id, other);
            assert(c.streams.contains_key(other));
        } else if c.streams.contains_key(other) {
        }
    }
}

proof fn polling_streams_keeps_spent(
    c: ConnectionView,
    quic: TransportView,
    ids: Seq<u64>,
    id: u64,
)
    requires
        c.is_server,
        c.valid(),
        c.ends_agree(quic),
    ensures
        ({
            let o = c.poll_streams(quic, ids);
            &&& o.doq.ends_agree(o.quic)
            &&& spent(c, quic, id) ==> spent(o.doq, o.quic, id)
            &&& match o.result {
                Ok((found, event)) => {
                    &&& event is Query ==> spent(o.doq, o.quic, found)
                    &&& spent(c, quic, id) ==> found != id
                },
                Err(_) => true,
            }
        }),
    decreases ids.len(),
{
    if ids.len() > 0 {
        let step = c.process_readable_stream(quic, ids[0]);
        processing_keeps_spent(c, quic, ids[0], id);
        processing_keeps_validity(c, quic, ids[0]);
        if step.result is Ok && step.result->Ok_0.len() == 0 {
            polling_streams_keeps_spent(step.doq, step.quic, ids.drop_first(), id);
        }
        let o = c.poll_streams(quic, ids);
        assert forall|other: u64| #[trigger]
            o.doq.streams.contains_key(other)
                && o.doq.streams[other].fin_received implies o.quic.recv_ended(other) by {
            assert(step.doq.ends_agree(step.quic));
            assert(step.result is Ok && step.result->Ok_0.len() == 0
                || step.doq.streams.contains_key(other));
        }
    }
}

proof fn polling_keeps_spent(c: ConnectionView, quic: TransportView, id: u64)
    requires
        c.is_server,
        c.valid(),
        c.ends_agree(quic),
    ensures
        ({
            let o = c.poll(quic);
            &&& o.doq.ends_agree(o.quic)
            &&& spent(c, quic, id) ==> spent(o.doq, o.quic, id)
            &&& match o.result {
                Ok((found, event)) => {
                    &&& event is Query ==> spent(o.doq, o.quic, found)
                    &&& spent(c, quic, id) ==> found != id
                },
                Err(_) => true,
            }
        }),
{
    if quic.local_error is None {
        polling_streams_keeps_spent(c, quic, quic.readable, id);
    }
}

/// Cancelling the query of a stream keeps a driver consistent.
pub proof fn cancelling_keeps_consistency(d: DriverView, stream_id: u64)
    requires
        d.consistent(),
    ensures
        d.cancel_responder(stream_id).consistent(),
{
    let after = d.cancel_responder(stream_id);
    assert forall|id: u64, channel: int| #[trigger]
        after.waiting.contains((id, channel)) implies after.queries.contains_key(id)
        && after.queries[id].parked is None && after.waiting.count((id, channel)) == 1 by {
        assert(d.waiting.contains((id, channel)));
    }
    assert forall|id: u64, a: int, b: int|
        #![trigger after.waiting.contains((id, a)), after.waiting.contains((id, b))]
        after.waiting.contains((id, a)) && after.waiting.contains((id, b)) implies a == b by {
        assert(d.waiting.contains((id, a)));
        assert(d.waiting.contains((id, b)));
    }
    assert forall|id: u64, channel: int| #[trigger]
        after.closing.count((id, channel)) <= after.waiting.count((id, channel)) by {
        assert(d.closing.count((id, channel)) <= d.waiting.count((id, channel)));
        let others = d.closing.filter(of_others(stream_id));
        let own = d.waiting.filter(of_stream(stream_id));
        assert(others.count((id, channel)) == if id != stream_id {
            d.closing.count((id, channel))
        } else {
            0
        });
        assert(own.count((id, channel)) == if id == stream_id {
            d.waiting.count((id, channel))
        } else {
            0
        });
    }
}

/// An event keeps a driver consistent, if it is no query of a stream that is
/// waited for.
pub proof fn reading_an_event_keeps_consistency(
    d: DriverView,
    stream_id: u64,
    event: EventView,
    channel: int,
    offer: Offer,
)
    requires
        d.consistent(),
        event is Query ==> not_waited_for(d, stream_id),
    ensures
        d.read_event(stream_id, event, channel, offer).0.consistent(),
{
    match event {
        EventView::Query { data, is_0rtt } => {
            let offered = d.and_offer(
                DoqEventView::Query { data, is_0rtt, channel, capacity: d.responder_capacity },
                offer,
            );
            assert(offered.consistent());
            checking_out_keeps_consistency(offered, stream_id, Inbox { channel, closed: false });
        },
        _ => {
            cancelling_keeps_consistency(d, stream_id);
        },
    }
}

/// One event read keeps a driver consistent and settled.
pub proof fn one_read_keeps_consistency(
    d: DriverView,
    quic: TransportView,
    channel: int,
    offer: Offer,
)
    requires
        d.consistent(),
        d.settled(quic),
        d.conn is Some,
    ensures
        ({
            let o = d.conn->0.poll(quic);
            let polled = d.with_conn(o.doq);
            &&& polled.consistent()
            &&& polled.settled(o.quic)
            &&& o.result matches Ok((stream_id, event)) ==> {
                let next = polled.read_event(stream_id, event, channel, offer).0;
                &&& next.consistent()
                &&& next.settled(o.quic)
            }
        }),
{
    let c = d.conn->0;
    let o = c.poll(quic);
    let polled = d.with_conn(o.doq);
    polling_keeps_validity(c, quic);
    assert(polled.consistent());
    polling_keeps_spent(c, quic, 0);
    assert forall|id: u64| #[trigger] polled.queries.contains_key(id) implies spent(
        o.doq,
        o.quic,
        id,
    ) by {
        assert(d.queries.contains_key(id));
        assert(spent(c, quic, id));
        polling_keeps_spent(c, quic, id);
    }
    assert(polled.settled(o.quic));
    if let Ok((stream_id, event)) = o.result {
        polling_keeps_spent(c, quic, stream_id);
        assert(event is Query ==> not_waited_for(polled, stream_id)) by {
            if event is Query && !not_waited_for(polled, stream_id) {
                let channel = choose|channel: int|
                    #[trigger] polled.waiting.contains((stream_id, channel));
                assert(d.waiting.contains((stream_id, channel)));
                assert(d.queries.contains_key(stream_id));
                assert(spent(c, quic, stream_id));
            }
        }
        let next = polled.read_event(stream_id, event, channel, offer).0;
        reading_an_event_keeps_consistency(polled, stream_id, event, channel, offer);
        assert forall|id: u64| #[trigger] next.queries.contains_key(id) implies spent(
            o.doq,
            o.quic,
            id,
        ) by {
            if id != stream_id || !(event is Query) {
                assert(polled.queries.contains_key(id));
            }
        }
        assert(next.settled(o.quic));
    }
}

/// Reading keeps a driver consistent: while the peer has ended the stream of
/// every tracked query, queries come on other streams only, and the peer has
/// ended theirs.
pub proof fn reading_keeps_consistency(
    d: DriverView,
    quic: TransportView,
    offers: Seq<(int, Offer)>,
)
    requires
        d.consistent(),
        d.settled(quic),
    ensures
        d.process_reads(quic, offers).driver.consistent(),
        d.process_reads(quic, offers).driver.settled(d.process_reads(quic, offers).quic),
    decreases
            quic.readable.len(),
            (match d.conn {
                Some(c) => c.pending.len(),
                None => 0,
            }),
{
    if let Some(c) = d.conn {
        let o = c.poll(quic);
        let polled = d.with_conn(o.doq);
        one_read_keeps_consistency(d, quic, offers[0].0, offers[0].1);
        if let Ok((stream_id, event)) = o.result {
            polling_comes_to_an_end(c, quic);
            let (next, r) = polled.read_event(stream_id, event, offers[0].0, offers[0].1);
            if r is Ok {
                reading_keeps_consistency(next, o.quic, offers.drop_first());
            }
        }
    }
}

/// Whether what was received, and what is known of it, stayed as it was on
/// every stream that is still tracked.
spec fn receiving_untouched(
    c: ConnectionView,
    quic: TransportView,
    c2: ConnectionView,
    quic2: TransportView,
) -> bool {
    &&& forall|id: u64| #[trigger]
        c2.streams.contains_key(id) ==> {
            &&& c.streams.contains_key(id)
            &&& c2.streams[id].fin_received == c.streams[id].fin_received
            &&& c2.streams[id].event_triggered == c.streams[id].event_triggered
        }
    &&& forall|id: u64| quic.recv_ended(id) ==> #[trigger] quic2.recv_ended(id)
}

proof fn writing_leaves_receiving_alone(
    c: ConnectionView,
    quic: TransportView,
    stream_id: u64,
    data: Seq<u8>,
    fin: bool,
    error: u64,
)
    requires
        c.valid(),
        c.is_server,
        quic.is_server,
    ensures
        ({
            let o = c.send_response(quic, stream_id, data, fin);
            receiving_untouched(c, quic, o.doq, o.quic) && o.quic.is_server
        }),
        ({
            let o = c.flush_response(quic, stream_id);
            receiving_untouched(c, quic, o.doq, o.quic) && o.quic.is_server
        }),
        ({
            let o = c.reset_stream(quic, stream_id, error);
            receiving_untouched(c, quic, o.doq, o.quic) && o.quic.is_server
        }),
{
}

/// Ending a query keeps a driver settled.
proof fn ending_a_query_keeps_settled(
    d: DriverView,
    quic: TransportView,
    stream_id: u64,
    error: DoqError,
)
    requires
        d.consistent(),
        d.settled(quic),
        quic.is_server,
    ensures
        d.without_query(stream_id).settled(quic),
        ({
            let step = d.without_query(stream_id).reset_stream(quic, stream_id, error);
            step.driver.settled(step.quic) && step.quic.is_server
        }),
{
    let step = d.without_query(stream_id).reset_stream(quic, stream_id, error);
    if let Some(c) = d.conn {
        writing_leaves_receiving_alone(c, quic, stream_id, Seq::empty(), false, error.code());
    }
    assert forall|id: u64| #[trigger]
        step.driver.queries.contains_key(id) implies step.quic.recv_ended(id) by {
        assert(d.queries.contains_key(id));
    }
}

proof fn written_keeps_settled(
    d: DriverView,
    quic: TransportView,
    stream_id: u64,
    inbox: Inbox,
    fin: bool,
)
    requires
        d.settled(quic),
        d.queries.contains_key(stream_id),
    ensures
        d.written(stream_id, inbox, fin).settled(quic),
{
    let after = d.written(stream_id, inbox, fin);
    assert forall|id: u64| #[trigger]
        after.queries.contains_key(id) implies d.queries.contains_key(id) by {}
}

/// Writing a response, or what waits of one, keeps a driver settled.
proof fn writing_keeps_settled(
    d: DriverView,
    quic: TransportView,
    stream_id: u64,
    inbox: Inbox,
    data: Seq<u8>,
    fin: bool,
)
    requires
        d.consistent(),
        d.settled(quic),
        quic.is_server,
        in_hand(d, stream_id),
    ensures
        ({
            let step = d.send_response(quic, stream_id, inbox, data, fin);
            step.driver.settled(step.quic) && step.quic.is_server
        }),
        ({
            let step = d.flush_stream(quic, stream_id, inbox, fin);
            step.driver.settled(step.quic) && step.quic.is_server
        }),
{
    if let Some(c) = d.conn {
        writing_leaves_receiving_alone(c, quic, stream_id, data, fin, 0);
        responses_keep_validity(c, quic, stream_id, data, fin);
        let sent = c.send_response(quic, stream_id, data, fin);
        let flushed = c.flush_response(quic, stream_id);
        let d1 = d.with_conn(sent.doq);
        let d2 = d.with_conn(flushed.doq);
        assert forall|id: u64| #[trigger]
            d1.queries.contains_key(id) implies sent.quic.recv_ended(id) by {
            assert(d.queries.contains_key(id));
        }
        assert forall|id: u64| #[trigger]
            d2.queries.contains_key(id) implies flushed.quic.recv_ended(id) by {
            assert(d.queries.contains_key(id));
        }
        assert(d1.settled(sent.quic));
        assert(d2.settled(flushed.quic));
        assert(d1.consistent());
        assert(d2.consistent());
        written_keeps_settled(d1, sent.quic, stream_id, inbox, fin);
        written_keeps_settled(d2, flushed.quic, stream_id, inbox, fin);
        ending_a_query_keeps_settled(d1, sent.quic, stream_id, DoqError::InternalError);
        ending_a_query_keeps_settled(d2, flushed.quic, stream_id, DoqError::InternalError);
    }
}

proof fn answer_in_hand_keeps_settled(d: DriverView, quic: TransportView, ready: ReadyView)
    requires
        d.consistent(),
        d.settled(quic),
        quic.is_server,
        in_hand(d, ready.stream_id),
    ensures
        ({
            let step = d.responder_ready(quic, ready);
            step.driver.settled(step.quic) && step.quic.is_server
        }),
{
    match ready.message {
        None => {
            ending_a_query_keeps_settled(d, quic, ready.stream_id, DoqError::InternalError);
        },
        Some(ResponderMessageView::Response { data, fin }) => {
            writing_keeps_settled(d, quic, ready.stream_id, ready.inbox, data, fin);
        },
        Some(ResponderMessageView::Reset { error }) => {
            ending_a_query_keeps_settled(d, quic, ready.stream_id, error);
        },
    }
}

pub(crate) proof fn answering_keeps_settled(d: DriverView, quic: TransportView, ready: ReadyView)
    requires
        d.consistent(),
        d.settled(quic),
        quic.is_server,
        d.waits_for(ready.stream_id, ready.inbox),
    ensures
        ({
            let step = d.take_back(ready).responder_ready(quic, ready);
            step.driver.settled(step.quic) && step.quic.is_server
        }),
{
    taking_back_keeps_consistency(d, ready);
    let taken = d.take_back(ready);
    assert forall|id: u64| #[trigger]
        taken.queries.contains_key(id) implies d.queries.contains_key(id) by {}
    assert(taken.settled(quic));
    answer_in_hand_keeps_settled(taken, quic, ready);
}

proof fn commands_keep_settled(d: DriverView, quic: TransportView, command: DoqCommandView)
    requires
        d.settled(quic),
    ensures
        d.settled(commanded(quic, command)),
{
    let after = commanded(quic, command);
    assert forall|id: u64| quic.recv_ended(id) implies #[trigger] after.recv_ended(id) by {}
}

/// Dealing with the end of a wait keeps a driver consistent, and settled on the
/// connection of a server, where a query that its consumer said something about
/// is in hand.
pub proof fn waking_up_keeps_consistency(
    d: DriverView,
    quic: TransportView,
    wakeup: WakeupView,
    command: Option<DoqCommandView>,
)
    requires
        d.consistent(),
        brought_in_hand(d, wakeup),
    ensures
        ({
            let step = d.after_wait(quic, wakeup, command);
            &&& step.driver.consistent()
            &&& d.settled(quic) && quic.is_server ==> step.driver.settled(step.quic)
                && step.quic.is_server
        }),
{
    let woken = d.wake(quic, wakeup);
    match wakeup {
        WakeupView::Ready(ready) => {
            answer_in_hand_keeps_consistency(d, quic, ready);
            if d.settled(quic) && quic.is_server {
                answer_in_hand_keeps_settled(d, quic, ready);
            }
        },
        WakeupView::Command(command) => {
            if d.settled(quic) {
                commands_keep_settled(d, quic, command);
            }
        },
        WakeupView::EventReceiverGone => {
            assert(d.settled(quic) ==> woken.driver.settled(woken.quic)) by {
                assert forall|id: u64| quic.recv_ended(id) implies #[trigger] woken.quic.recv_ended(
                    id,
                ) by {}
            }
        },
    }
    if let Some(command) = command {
        if woken.driver.settled(woken.quic) {
            commands_keep_settled(woken.driver, woken.quic, command);
        }
    }
}

pub(crate) proof fn flushing_a_stream_keeps_settled(
    d: DriverView,
    quic: TransportView,
    stream_id: u64,
)
    requires
        d.consistent(),
        d.settled(quic),
        quic.is_server,
        d.queries.contains_key(stream_id),
        d.queries[stream_id].parked is Some,
    ensures
        ({
            let query = d.queries[stream_id];
            let taken = DriverView {
                queries: d.queries.insert(stream_id, QueryView { parked: None, ..query }),
                ..d
            };
            let step = taken.flush_stream(quic, stream_id, query.parked->0, query.pending_fin);
            step.driver.settled(step.quic) && step.quic.is_server
        }),
{
    let query = d.queries[stream_id];
    let taken = DriverView {
        queries: d.queries.insert(stream_id, QueryView { parked: None, ..query }),
        ..d
    };
    assert forall|id: u64, channel: int| #[trigger]
        taken.waiting.contains((id, channel)) implies taken.queries.contains_key(id)
        && taken.queries[id].parked is None && taken.waiting.count((id, channel)) == 1 by {
        assert(d.waiting.contains((id, channel)));
    }
    assert forall|channel: int| !#[trigger] taken.waiting.contains((stream_id, channel)) by {
        if taken.waiting.contains((stream_id, channel)) {
            assert(d.waiting.contains((stream_id, channel)));
        }
    }
    assert forall|id: u64| #[trigger]
        taken.queries.contains_key(id) implies d.queries.contains_key(id) by {}
    assert(taken.settled(quic));
    writing_keeps_settled(
        taken,
        quic,
        stream_id,
        query.parked->0,
        Seq::empty(),
        query.pending_fin,
    );
}

/// What a round of writing does not touch, and what it keeps: it offers the
/// consumer nothing, and leaves the driver consistent and settled.
pub(crate) proof fn flushing_writable_keeps(d: DriverView, quic: TransportView)
    requires
        d.consistent(),
    ensures
        ({
            let step = d.flush_writable(quic);
            &&& step.driver.consistent()
            &&& d.settled(quic) && quic.is_server ==> step.driver.settled(step.quic)
                && step.quic.is_server
            &&& step.driver.offered == d.offered
            &&& step.driver.handshake_confirmed == d.handshake_confirmed
        }),
    decreases quic.writable.len(),
{
    if quic.writable.len() > 0 {
        let stream_id = quic.writable[0];
        let rest = TransportView { writable: quic.writable.drop_first(), ..quic };
        assert(d.settled(quic) ==> d.settled(rest)) by {
            assert(forall|id: u64| quic.recv_ended(id) ==> #[trigger] rest.recv_ended(id));
        }
        if d.queries.contains_key(stream_id) && rest.is_stopped(stream_id) {
            cancelling_keeps_consistency(d, stream_id);
            let cancelled = d.cancel_responder(stream_id);
            assert(d.settled(rest) ==> cancelled.settled(rest)) by {
                assert forall|id: u64| #[trigger]
                    cancelled.queries.contains_key(id) implies d.queries.contains_key(id) by {}
            }
            flushing_writable_keeps(cancelled, rest);
        } else if d.queries.contains_key(stream_id) && d.queries[stream_id].parked is Some {
            let query = d.queries[stream_id];
            let taken = DriverView {
                queries: d.queries.insert(stream_id, QueryView { parked: None, ..query }),
                ..d
            };
            let step = taken.flush_stream(rest, stream_id, query.parked->0, query.pending_fin);
            flushing_keeps_consistency(d, rest, stream_id);
            if d.settled(quic) && quic.is_server {
                flushing_a_stream_keeps_settled(d, rest, stream_id);
            }
            if step.result is Ok {
                flushing_writable_keeps(step.driver, step.quic);
            }
        } else {
            flushing_writable_keeps(d, rest);
        }
    }
}

proof fn processing_ready_keeps(d: DriverView, quic: TransportView, readies: Seq<ReadyView>)
    requires
        d.consistent(),
        d.were_waiting(quic, readies),
    ensures
        ({
            let step = d.process_ready(quic, readies);
            &&& step.driver.consistent()
            &&& d.settled(quic) && quic.is_server ==> step.driver.settled(step.quic)
                && step.quic.is_server
            &&& step.driver.offered == d.offered
            &&& step.driver.handshake_confirmed == d.handshake_confirmed
        }),
    decreases readies.len(),
{
    if readies.len() > 0 {
        let ready = readies[0];
        answering_keeps_consistency(d, quic, ready);
        if d.settled(quic) && quic.is_server {
            answering_keeps_settled(d, quic, ready);
        }
        let step = d.take_back(ready).responder_ready(quic, ready);
        if step.result is Ok {
            processing_ready_keeps(step.driver, step.quic, readies.drop_first());
        }
    }
}

/// A round of writing keeps a driver consistent, and settled on the
/// connection of a server.
pub proof fn writing_rounds_keep_consistency(
    d: DriverView,
    quic: TransportView,
    told: Offer,
    readies: Seq<ReadyView>,
)
    requires
        d.consistent(),
        d.answered_in_turn(quic, told, readies),
    ensures
        d.process_writes(quic, told, readies).driver.consistent(),
        d.settled(quic) && quic.is_server ==> d.process_writes(quic, told, readies).driver.settled(
            d.process_writes(quic, told, readies).quic,
        ),
{
    let confirmed = d.confirm_handshake(told);
    assert(confirmed.consistent());
    assert(d.settled(quic) ==> confirmed.settled(quic));
    flushing_writable_keeps(confirmed, quic);
    let flushed = confirmed.flush_writable(quic);
    if flushed.result is Ok {
        processing_ready_keeps(flushed.driver, flushed.quic, readies);
    }
}

/// The consumer is told once that the handshake is confirmed: a round of
/// writing offers it that if it is the first, and nothing else.
pub proof fn handshake_is_announced_once(
    d: DriverView,
    quic: TransportView,
    told: Offer,
    readies: Seq<ReadyView>,
)
    requires
        d.consistent(),
        d.answered_in_turn(quic, told, readies),
    ensures
        d.process_writes(quic, told, readies).driver.handshake_confirmed,
        d.process_writes(quic, told, readies).driver.offered == if d.handshake_confirmed {
            d.offered
        } else {
            d.offered.push(DoqEventView::HandshakeConfirmed)
        },
{
    let confirmed = d.confirm_handshake(told);
    assert(confirmed.consistent());
    flushing_writable_keeps(confirmed, quic);
    let flushed = confirmed.flush_writable(quic);
    if flushed.result is Ok {
        processing_ready_keeps(flushed.driver, flushed.quic, readies);
    }
}

/// A responder is bound to the stream of its query: a query that the consumer
/// accepted comes with a responder on a channel, and it is that channel, and no
/// other, that is waited on for the stream.
pub proof fn responder_is_bound_to_its_stream(
    d: DriverView,
    stream_id: u64,
    data: Seq<u8>,
    is_0rtt: bool,
    channel: int,
)
    requires
        d.consistent(),
        not_waited_for(d, stream_id),
    ensures
        ({
            let (after, r) = d.read_event(
                stream_id,
                EventView::Query { data, is_0rtt },
                channel,
                Offer::Accepted,
            );
            &&& r is Ok
            &&& after.offered == d.offered.push(
                DoqEventView::Query { data, is_0rtt, channel, capacity: d.responder_capacity },
            )
            &&& after.queries.contains_key(stream_id)
            &&& forall|other: int| #[trigger]
                after.waiting.contains((stream_id, other)) <==> other == channel
        }),
{
    let (after, r) = d.read_event(
        stream_id,
        EventView::Query { data, is_0rtt },
        channel,
        Offer::Accepted,
    );
    assert forall|other: int| #[trigger]
        after.waiting.contains((stream_id, other)) <==> other == channel by {
        assert(!d.waiting.contains((stream_id, other)));
    }
}

/// What a consumer says about its query touches the stream of that query, and
/// no other.
pub proof fn answer_goes_to_its_stream(
    d: DriverView,
    quic: TransportView,
    ready: ReadyView,
    other: u64,
)
    requires
        d.conn is Some,
        other != ready.stream_id,
    ensures
        ({
            let step = d.responder_ready(quic, ready);
            &&& step.driver.conn is Some
            &&& stream_unchanged(d.conn->0, quic, step.driver.conn->0, step.quic, other)
            &&& step.driver.queries.contains_key(other) == d.queries.contains_key(other)
            &&& d.queries.contains_key(other) ==> step.driver.queries[other] == d.queries[other]
        }),
{
    let c = d.conn->0;
    match ready.message {
        None => {
            abandoning_leaves_other_streams_alone(
                c,
                quic,
                ready.stream_id,
                other,
                DoqError::InternalError.code(),
            );
        },
        Some(ResponderMessageView::Response { data, fin }) => {
            responses_leave_other_streams_alone(c, quic, ready.stream_id, other, data, fin);
            let o = c.send_response(quic, ready.stream_id, data, fin);
            abandoning_leaves_other_streams_alone(
                o.doq,
                o.quic,
                ready.stream_id,
                other,
                DoqError::InternalError.code(),
            );
        },
        Some(ResponderMessageView::Reset { error }) => {
            abandoning_leaves_other_streams_alone(c, quic, ready.stream_id, other, error.code());
        },
    }
}

/// A response that a consumer sends is written to the stream of its query, in
/// its frame and behind what was queued before.
pub proof fn answer_is_queued_in_its_frame(
    d: DriverView,
    quic: TransportView,
    ready: ReadyView,
    data: Seq<u8>,
    fin: bool,
)
    requires
        d.conn is Some,
        d.conn->0.streams.contains_key(ready.stream_id),
        !d.conn->0.streams[ready.stream_id].send_fin,
        data.len() <= MAX_DNS_MESSAGE_LEN,
        ready.message == Some(ResponderMessageView::Response { data, fin }),
    ensures
        ({
            let step = d.responder_ready(quic, ready);
            queued_bytes(step.driver.conn->0, step.quic, ready.stream_id) == queued_bytes(
                d.conn->0,
                quic,
                ready.stream_id,
            ) + frame(data)
        }),
{
    response_is_queued_in_its_frame(d.conn->0, quic, ready.stream_id, data, fin);
}

/// A query whose consumer has dropped the responder, or sends a response that
/// is too large to frame, is abandoned: its stream is reset with
/// `DOQ_INTERNAL_ERROR`, and neither layer tracks it any more.
pub proof fn failed_consumer_abandons_its_query(
    d: DriverView,
    quic: TransportView,
    ready: ReadyView,
)
    requires
        d.conn is Some,
        d.conn->0.streams.contains_key(ready.stream_id),
        !d.conn->0.streams[ready.stream_id].send_fin,
        quic.streams.contains_key(ready.stream_id),
        match ready.message {
            None => true,
            Some(ResponderMessageView::Response { data, .. }) => data.len() > MAX_DNS_MESSAGE_LEN,
            Some(ResponderMessageView::Reset { .. }) => false,
        },
    ensures
        ({
            let step = d.responder_ready(quic, ready);
            let s = quic.streams[ready.stream_id];
            &&& step.result is Ok
            &&& !step.driver.queries.contains_key(ready.stream_id)
            &&& step.driver.conn == Some(d.conn->0.without_stream(ready.stream_id))
            &&& step.quic.actions == if s.stopped is None && !(s.send_end is Reset) {
                quic.actions.push(
                    ActionView::Shutdown {
                        stream_id: ready.stream_id,
                        direction: Shutdown::Write,
                        error: DoqError::InternalError.code(),
                    },
                )
            } else {
                quic.actions
            }
        }),
{
}

/// A protocol error closes the connection, and is no error of the driver.
pub proof fn protocol_error_is_no_driver_error(
    d: DriverView,
    quic: TransportView,
    offers: Seq<(int, Offer)>,
)
    requires
        d.conn is Some,
        d.conn->0.poll(quic).result == Err::<(u64, EventView), _>(Error::ProtocolError),
    ensures
        d.process_reads(quic, offers).result is Ok,
        closed_with_protocol_error(quic, d.process_reads(quic, offers).quic),
{
    protocol_error_closes_the_connection(d.conn->0, quic, Seq::empty(), 0);
}

} // verus!
