//! Laws of whole rounds of reading and writing of a server driver.

use vstd::prelude::*;

use crate::connection::Error;
use crate::driver::DriverError;
use crate::driver_model::{DriverView, QueryView, ReadyView, Step};
use crate::laws::closing::protocol_error_closes_the_connection;
use crate::laws::driving::{answering_keeps_consistency, flushing_writable_keeps};
use crate::laws::isolation::{
    abandoning_leaves_other_streams_alone, responses_leave_other_streams_alone, stream_unchanged,
};
use crate::laws::polling::{nothing_to_report_stays_so, polling_does_not_end_a_connection};
use crate::laws::progress::polling_comes_to_an_end;
use crate::model::{ConnectionView, EventView, StreamView};
use crate::outside::{of_others, of_stream, Offer};
use crate::responder::{DoqEventView, ResponderMessageView};
use crate::transport::TransportView;
use crate::waiting::Inbox;
use crate::wire::{frame, DoqError};

verus! {

broadcast use vstd::multiset::group_multiset_axioms;

/// Whether the receiver of a query is parked, because bytes of its response wait.
pub open spec fn is_parked(d: DriverView, stream_id: u64) -> bool {
    d.queries.contains_key(stream_id) && d.queries[stream_id].parked is Some
}

/// Whether the window of a stream, or that of the connection, is used up.
pub open spec fn is_out_of_room(quic: TransportView, stream_id: u64) -> bool {
    &&& quic.streams.contains_key(stream_id)
    &&& quic.streams[stream_id].send_window == 0 || quic.send_capacity == 0
}

proof fn writes_use_up_room(
    c: ConnectionView,
    quic: TransportView,
    id: u64,
    data: Seq<u8>,
    fin: bool,
    error: u64,
    x: u64,
)
    ensures
        ({
            let o = c.flush_response(quic, id);
            &&& is_out_of_room(quic, x) ==> is_out_of_room(o.quic, x)
            &&& o.result is Ok && o.doq.has_unsent(id) ==> is_out_of_room(o.quic, id)
        }),
        ({
            let o = c.send_response(quic, id, data, fin);
            &&& is_out_of_room(quic, x) ==> is_out_of_room(o.quic, x)
            &&& o.result is Ok && o.doq.has_unsent(id) ==> is_out_of_room(o.quic, id)
        }),
        is_out_of_room(quic, x) ==> is_out_of_room(c.reset_stream(quic, id, error).quic, x),
{
    flush_uses_up_room(c, quic, id, x);
    let s = c.streams[id];
    let queued = c.with_stream(
        id,
        StreamView { send_buf: s.send_buf + frame(data), send_fin: fin, ..s },
    );
    flush_uses_up_room(queued, quic, id, x);
}

proof fn flush_uses_up_room(c: ConnectionView, quic: TransportView, id: u64, x: u64)
    ensures
        ({
            let o = c.flush_response(quic, id);
            &&& is_out_of_room(quic, x) ==> is_out_of_room(o.quic, x)
            &&& o.result is Ok && o.doq.has_unsent(id) ==> is_out_of_room(o.quic, id)
        }),
{
}

/// Whether a response is parked only for want of room.
spec fn parked_for_want_of_room(d: DriverView, quic: TransportView, x: u64) -> bool {
    is_parked(d, x) ==> is_out_of_room(quic, x)
}

proof fn flushing_a_stream_parks_rightly(
    d: DriverView,
    quic: TransportView,
    id: u64,
    inbox: Inbox,
    fin: bool,
    x: u64,
)
    requires
        d.flush_stream(quic, id, inbox, fin).result is Ok,
        id == x || parked_for_want_of_room(d, quic, x),
        id == x ==> !is_parked(d, x),
    ensures
        ({
            let step = d.flush_stream(quic, id, inbox, fin);
            parked_for_want_of_room(step.driver, step.quic, x)
        }),
{
    let c = d.conn->0;
    writes_use_up_room(c, quic, id, Seq::empty(), false, 0, x);
    let o = c.flush_response(quic, id);
    writes_use_up_room(o.doq, o.quic, id, Seq::empty(), false, DoqError::InternalError.code(), x);
}

proof fn flushing_another_changes_little(
    d: DriverView,
    quic: TransportView,
    id: u64,
    inbox: Inbox,
    fin: bool,
    x: u64,
)
    requires
        id != x,
    ensures
        ({
            let step = d.flush_stream(quic, id, inbox, fin);
            &&& step.driver.queries.contains_key(x) == d.queries.contains_key(x)
            &&& d.queries.contains_key(x) ==> step.driver.queries[x] == d.queries[x]
        }),
{
}

proof fn answering_parks_rightly(d: DriverView, quic: TransportView, ready: ReadyView, x: u64)
    requires
        d.responder_ready(quic, ready).result is Ok,
        ready.stream_id == x ==> !is_parked(d, x),
        parked_for_want_of_room(d, quic, x),
    ensures
        ({
            let step = d.responder_ready(quic, ready);
            parked_for_want_of_room(step.driver, step.quic, x)
        }),
{
    let c = d.conn->0;
    let id = ready.stream_id;
    match ready.message {
        None => {
            writes_use_up_room(
                c,
                quic,
                id,
                Seq::empty(),
                false,
                DoqError::InternalError.code(),
                x,
            );
        },
        Some(ResponderMessageView::Response { data, fin }) => {
            writes_use_up_room(c, quic, id, data, fin, 0, x);
            let o = c.send_response(quic, id, data, fin);
            writes_use_up_room(o.doq, o.quic, id, data, fin, DoqError::InternalError.code(), x);
        },
        Some(ResponderMessageView::Reset { error }) => {
            writes_use_up_room(c, quic, id, Seq::empty(), false, error.code(), x);
        },
    }
}

proof fn cancelling_parks_nothing(d: DriverView, id: u64, x: u64)
    ensures
        is_parked(d.cancel_responder(id), x) ==> is_parked(d, x) && id != x,
        !d.queries.contains_key(id) ==> d.cancel_responder(id) == d,
{
}

/// A round of flushing writes on wherever there is room: behind it a response
/// that was parked is parked still only where its stream was not reported
/// writable, or is out of room.
pub proof fn flushing_writes_on_where_there_is_room(
    d: DriverView,
    quic: TransportView,
    stream_id: u64,
)
    requires
        d.flush_writable(quic).result is Ok,
        is_parked(d, stream_id) ==> quic.writable.contains(stream_id) || is_out_of_room(
            quic,
            stream_id,
        ),
    ensures
        ({
            let step = d.flush_writable(quic);
            is_parked(step.driver, stream_id) ==> is_out_of_room(step.quic, stream_id)
        }),
    decreases quic.writable.len(),
{
    if quic.writable.len() > 0 {
        let id = quic.writable[0];
        let rest = TransportView { writable: quic.writable.drop_first(), ..quic };
        if id != stream_id && quic.writable.contains(stream_id) {
            let i = choose|i: int| 0 <= i < quic.writable.len() && quic.writable[i] == stream_id;
            assert(rest.writable[i - 1] == stream_id);
        }
        if d.queries.contains_key(id) && rest.is_stopped(id) {
            cancelling_parks_nothing(d, id, stream_id);
            flushing_writes_on_where_there_is_room(d.cancel_responder(id), rest, stream_id);
        } else if is_parked(d, id) {
            let query = d.queries[id];
            let taken = DriverView {
                queries: d.queries.insert(id, QueryView { parked: None, ..query }),
                ..d
            };
            let step = taken.flush_stream(rest, id, query.parked->0, query.pending_fin);
            if id == stream_id || parked_for_want_of_room(taken, rest, stream_id) {
                flushing_a_stream_parks_rightly(
                    taken,
                    rest,
                    id,
                    query.parked->0,
                    query.pending_fin,
                    stream_id,
                );
            } else {
                flushing_another_changes_little(
                    taken,
                    rest,
                    id,
                    query.parked->0,
                    query.pending_fin,
                    stream_id,
                );
                flushing_keeps_the_writable(taken, rest, id, query.parked->0, query.pending_fin);
            }
            flushing_writes_on_where_there_is_room(step.driver, step.quic, stream_id);
        } else {
            flushing_writes_on_where_there_is_room(d, rest, stream_id);
        }
    }
}

proof fn flushing_keeps_the_writable(
    d: DriverView,
    quic: TransportView,
    id: u64,
    inbox: Inbox,
    fin: bool,
)
    ensures
        d.flush_stream(quic, id, inbox, fin).quic.writable == quic.writable,
{
}

proof fn answers_park_rightly(
    d: DriverView,
    quic: TransportView,
    readies: Seq<ReadyView>,
    x: u64,
)
    requires
        d.consistent(),
        d.were_waiting(quic, readies),
        d.process_ready(quic, readies).result is Ok,
        parked_for_want_of_room(d, quic, x),
    ensures
        ({
            let step = d.process_ready(quic, readies);
            parked_for_want_of_room(step.driver, step.quic, x)
        }),
    decreases readies.len(),
{
    if readies.len() > 0 {
        let ready = readies[0];
        let taken = d.take_back(ready);
        let step = taken.responder_ready(quic, ready);
        assert(d.waiting.contains((ready.stream_id, ready.inbox.channel)));
        answering_parks_rightly(taken, quic, ready, x);
        answering_keeps_consistency(d, quic, ready);
        answers_park_rightly(step.driver, step.quic, readies.drop_first(), x);
    }
}

/// A round of writing writes on wherever there is room: behind it, and whatever
/// consumers said in it, a response is parked only where its stream is out of
/// room, or was parked before and not reported writable.
pub proof fn writing_rounds_write_on_where_there_is_room(
    d: DriverView,
    quic: TransportView,
    told: Offer,
    readies: Seq<ReadyView>,
    stream_id: u64,
)
    requires
        d.consistent(),
        d.answered_in_turn(quic, told, readies),
        d.process_writes(quic, told, readies).result is Ok,
        is_parked(d, stream_id) ==> quic.writable.contains(stream_id) || is_out_of_room(
            quic,
            stream_id,
        ),
    ensures
        ({
            let step = d.process_writes(quic, told, readies);
            is_parked(step.driver, stream_id) ==> is_out_of_room(step.quic, stream_id)
        }),
{
    let confirmed = d.confirm_handshake(told);
    assert(confirmed.consistent());
    flushing_writable_keeps(confirmed, quic);
    flushing_writes_on_where_there_is_room(confirmed, quic, stream_id);
    let flushed = confirmed.flush_writable(quic);
    answers_park_rightly(flushed.driver, flushed.quic, readies, stream_id);
}

/// Whether a query and its stream are the same on all layers, and so are the
/// waits for its consumer.
pub open spec fn query_unchanged(
    d: DriverView,
    quic: TransportView,
    d2: DriverView,
    quic2: TransportView,
    stream_id: u64,
) -> bool {
    &&& d2.queries.contains_key(stream_id) == d.queries.contains_key(stream_id)
    &&& d.queries.contains_key(stream_id) ==> d2.queries[stream_id] == d.queries[stream_id]
    &&& (d2.conn is Some) == (d.conn is Some)
    &&& d.conn is Some ==> stream_unchanged(d.conn->0, quic, d2.conn->0, quic2, stream_id)
    &&& forall|channel: int| #[trigger]
        d2.waiting.count((stream_id, channel)) == d.waiting.count((stream_id, channel))
    &&& forall|channel: int| #[trigger]
        d2.closing.count((stream_id, channel)) == d.closing.count((stream_id, channel))
}

proof fn flushing_a_stream_leaves_others_alone(
    d: DriverView,
    quic: TransportView,
    id: u64,
    inbox: Inbox,
    fin: bool,
    x: u64,
)
    requires
        id != x,
    ensures
        ({
            let step = d.flush_stream(quic, id, inbox, fin);
            query_unchanged(d, quic, step.driver, step.quic, x)
        }),
{
    if let Some(c) = d.conn {
        responses_leave_other_streams_alone(c, quic, id, x, Seq::empty(), false);
        let o = c.flush_response(quic, id);
        abandoning_leaves_other_streams_alone(
            o.doq,
            o.quic,
            id,
            x,
            DoqError::InternalError.code(),
        );
    }
}

proof fn unchanged_twice(
    d: DriverView,
    quic: TransportView,
    d2: DriverView,
    quic2: TransportView,
    d3: DriverView,
    quic3: TransportView,
    stream_id: u64,
)
    requires
        query_unchanged(d, quic, d2, quic2, stream_id),
        query_unchanged(d2, quic2, d3, quic3, stream_id),
    ensures
        query_unchanged(d, quic, d3, quic3, stream_id),
{
    assert forall|channel: int| #[trigger]
        d3.waiting.count((stream_id, channel)) == d.waiting.count((stream_id, channel)) by {
        assert(d2.waiting.count((stream_id, channel)) == d.waiting.count((stream_id, channel)));
    }
    assert forall|channel: int| #[trigger]
        d3.closing.count((stream_id, channel)) == d.closing.count((stream_id, channel)) by {
        assert(d2.closing.count((stream_id, channel)) == d.closing.count((stream_id, channel)));
    }
}

/// A round of flushing leaves alone every query whose stream was not reported
/// writable.
pub proof fn flushing_leaves_other_queries_alone(
    d: DriverView,
    quic: TransportView,
    stream_id: u64,
)
    requires
        !quic.writable.contains(stream_id),
    ensures
        ({
            let step = d.flush_writable(quic);
            query_unchanged(d, quic, step.driver, step.quic, stream_id)
        }),
    decreases quic.writable.len(),
{
    if quic.writable.len() > 0 {
        let id = quic.writable[0];
        let rest = TransportView { writable: quic.writable.drop_first(), ..quic };
        assert(!rest.writable.contains(stream_id)) by {
            if rest.writable.contains(stream_id) {
                let i = choose|i: int|
                    0 <= i < rest.writable.len() && rest.writable[i] == stream_id;
                assert(quic.writable[i + 1] == stream_id);
            }
        }
        if d.queries.contains_key(id) && rest.is_stopped(id) {
            cancelling_leaves_others_alone(d, rest, id, stream_id);
            let cancelled = d.cancel_responder(id);
            flushing_leaves_other_queries_alone(cancelled, rest, stream_id);
            let last = cancelled.flush_writable(rest);
            unchanged_twice(d, rest, cancelled, rest, last.driver, last.quic, stream_id);
        } else if is_parked(d, id) {
            let query = d.queries[id];
            let taken = DriverView {
                queries: d.queries.insert(id, QueryView { parked: None, ..query }),
                ..d
            };
            let step = taken.flush_stream(rest, id, query.parked->0, query.pending_fin);
            flushing_a_stream_leaves_others_alone(
                taken,
                rest,
                id,
                query.parked->0,
                query.pending_fin,
                stream_id,
            );
            flushing_keeps_the_writable(taken, rest, id, query.parked->0, query.pending_fin);
            assert(query_unchanged(d, quic, step.driver, step.quic, stream_id));
            if step.result is Ok {
                flushing_leaves_other_queries_alone(step.driver, step.quic, stream_id);
                let last = step.driver.flush_writable(step.quic);
                unchanged_twice(
                    d,
                    quic,
                    step.driver,
                    step.quic,
                    last.driver,
                    last.quic,
                    stream_id,
                );
            }
        } else {
            flushing_leaves_other_queries_alone(d, rest, stream_id);
        }
    }
}

proof fn cancelling_leaves_others_alone(d: DriverView, quic: TransportView, id: u64, x: u64)
    requires
        id != x,
    ensures
        query_unchanged(d, quic, d.cancel_responder(id), quic, x),
{
    let after = d.cancel_responder(id);
    assert forall|channel: int| #[trigger]
        after.closing.count((x, channel)) == d.closing.count((x, channel)) by {
        let others = d.closing.filter(of_others(id));
        let own = d.waiting.filter(of_stream(id));
        assert(others.count((x, channel)) == d.closing.count((x, channel)));
        assert(own.count((x, channel)) == 0);
    }
}

/// What consumers said is dealt with in its order: one after the other, each as
/// if it were alone, up to the first failure.
pub proof fn answers_are_dealt_with_in_order(
    d: DriverView,
    quic: TransportView,
    first: Seq<ReadyView>,
    ready: ReadyView,
)
    ensures
        d.process_ready(quic, Seq::empty()) == (Step { driver: d, quic, result: Ok(()) }),
        ({
            let step = d.process_ready(quic, first);
            d.process_ready(quic, first.push(ready)) == if step.result is Ok {
                step.driver.take_back(ready).responder_ready(step.quic, ready)
            } else {
                step
            }
        }),
    decreases first.len(),
{
    let all = first.push(ready);
    if first.len() == 0 {
        let step = d.take_back(ready).responder_ready(quic, ready);
        assert(all[0] == ready);
        assert(all.drop_first() =~= Seq::empty());
        if step.result is Ok {
            assert(step.driver.process_ready(step.quic, all.drop_first()) == (Step {
                driver: step.driver,
                quic: step.quic,
                result: Ok(()),
            }));
        }
    } else {
        assert(all[0] == first[0]);
        assert(all.drop_first() =~= first.drop_first().push(ready));
        let step = d.take_back(first[0]).responder_ready(quic, first[0]);
        if step.result is Ok {
            answers_are_dealt_with_in_order(step.driver, step.quic, first.drop_first(), ready);
        }
    }
}

/// A round of writing is a flush of what has become writable, and behind it, if
/// that has succeeded, what the consumers said. The first one also tells the
/// consumer that the handshake is confirmed.
pub proof fn writing_round_is_flush_and_answers(
    d: DriverView,
    quic: TransportView,
    told: Offer,
    readies: Seq<ReadyView>,
)
    ensures
        ({
            let start = if d.handshake_confirmed {
                d
            } else {
                DriverView {
                    handshake_confirmed: true,
                    offered: d.offered.push(DoqEventView::HandshakeConfirmed),
                    outcomes: d.outcomes.push(told),
                    ..d
                }
            };
            let flushed = start.flush_writable(quic);
            d.process_writes(quic, told, readies) == if flushed.result is Ok {
                flushed.driver.process_ready(flushed.quic, readies)
            } else {
                flushed
            }
        }),
{
}

/// A stream that has become writable is flushed before the others, if its query
/// is parked, and closed for its consumer if the peer has stopped it. Else it is
/// passed over.
pub proof fn writable_streams_are_flushed_in_order(d: DriverView, quic: TransportView)
    ensures
        quic.writable.len() == 0 ==> d.flush_writable(quic) == (Step {
            driver: d,
            quic,
            result: Ok(()),
        }),
        quic.writable.len() > 0 ==> ({
            let id = quic.writable[0];
            let rest = TransportView { writable: quic.writable.drop_first(), ..quic };
            let is_stopped = quic.streams.contains_key(id) && quic.streams[id].stopped is Some;
            let query = d.queries[id];
            let in_hand = DriverView {
                queries: d.queries.insert(
                    id,
                    QueryView { parked: None, pending_fin: query.pending_fin },
                ),
                ..d
            };
            let step = in_hand.flush_stream(rest, id, query.parked->0, query.pending_fin);
            d.flush_writable(quic) == if is_parked(d, id) && !is_stopped {
                if step.result is Ok {
                    step.driver.flush_writable(step.quic)
                } else {
                    step
                }
            } else if is_stopped {
                d.cancel_responder(id).flush_writable(rest)
            } else {
                d.flush_writable(rest)
            }
        }),
{
}

/// A round of reading takes one event after the other from the connection, as
/// polling it gives them, and hands each on before the next, until there is no
/// more or one cannot be handed on. A broken protocol ends the round, and the
/// connection is closed for it.
pub proof fn reading_round_takes_event_after_event(
    d: DriverView,
    quic: TransportView,
    offers: Seq<(int, Offer)>,
)
    ensures
        d.process_reads(quic, offers) == match d.conn {
            None => Step { driver: d, quic, result: Err(DriverError::NotEstablished) },
            Some(c) => {
                let o = c.poll(quic);
                let read = DriverView { conn: Some(o.doq), ..d };
                match o.result {
                    Ok((id, event)) => {
                        let (next, r) = read.read_event(id, event, offers[0].0, offers[0].1);
                        if r is Ok {
                            next.process_reads(o.quic, offers.drop_first())
                        } else {
                            Step { driver: next, quic: o.quic, result: r }
                        }
                    },
                    Err(e) => Step {
                        driver: read,
                        quic: o.quic,
                        result: if e is Done || e is ProtocolError {
                            Ok(())
                        } else {
                            Err(DriverError::Doq(e))
                        },
                    },
                }
            },
        },
{
    if let Some(c) = d.conn {
        let o = c.poll(quic);
        if o.result is Ok {
            polling_comes_to_an_end(c, quic);
        } else {
            protocol_error_closes_the_connection(c, quic, Seq::empty(), 0);
        }
    }
}

/// A successful round of reading leaves nothing to report: polling the connection
/// once more gives no event.
pub proof fn reading_round_leaves_nothing_to_report(
    d: DriverView,
    quic: TransportView,
    offers: Seq<(int, Offer)>,
)
    requires
        d.conn matches Some(c) ==> c.is_server,
        !quic.closed,
        d.process_reads(quic, offers).result is Ok,
    ensures
        ({
            let step = d.process_reads(quic, offers);
            &&& step.driver.conn is Some
            &&& step.driver.conn->0.poll(step.quic).result == Err::<(u64, EventView), _>(
                Error::Done,
            )
        }),
    decreases
            quic.readable.len(),
            (match d.conn {
                Some(c) => c.pending.len(),
                None => 0,
            }),
{
    reading_round_takes_event_after_event(d, quic, offers);
    if let Some(c) = d.conn {
        let o = c.poll(quic);
        let read = DriverView { conn: Some(o.doq), ..d };
        polling_does_not_end_a_connection(c, quic);
        match o.result {
            Ok((id, event)) => {
                polling_comes_to_an_end(c, quic);
                let (next, r) = read.read_event(id, event, offers[0].0, offers[0].1);
                assert(next.conn == read.conn);
                reading_round_leaves_nothing_to_report(next, o.quic, offers.drop_first());
            },
            Err(Error::Done) => {
                if quic.local_error is None {
                    nothing_to_report_stays_so(c, quic);
                }
            },
            Err(_) => {
                protocol_error_closes_the_connection(c, quic, Seq::empty(), 0);
            },
        }
    }
}

} // verus!
