//! The law that a driver forgets no query.

use vstd::prelude::*;

use crate::connection::Error;
use crate::driver_model::{DriverView, QueryView, ReadyView, WakeupView};
use crate::laws::progress::polling_comes_to_an_end;
use crate::model::EventView;
use crate::outside::Offer;
use crate::responder::{DoqCommandView, ResponderMessageView};
use crate::transport::TransportView;
use crate::waiting::Inbox;
use crate::wire::DoqError;

verus! {

broadcast use vstd::multiset::group_multiset_axioms;

/// Whether the same consumers are waited for, but for those of one stream.
spec fn others_waited_for(d: DriverView, after: DriverView, stream_id: u64) -> bool {
    forall|id: u64, channel: int|
        id != stream_id && d.waiting.contains((id, channel)) ==> #[trigger] after.waiting.contains(
            (id, channel),
        )
}

proof fn others_stay_attended(d: DriverView, after: DriverView, stream_id: u64)
    requires
        d.attended_but(Some(stream_id)),
        others_waited_for(d, after, stream_id),
        forall|id: u64| #[trigger]
            after.queries.contains_key(id) && id != stream_id ==> d.queries.contains_key(id)
                && d.queries[id] == after.queries[id],
    ensures
        after.attended_but(Some(stream_id)),
{
    assert forall|id: u64| #[trigger]
        after.queries.contains_key(id) && after.queries[id].parked is None && id
            != stream_id implies after.is_waited_for(id) by {
        assert(d.is_waited_for(id));
        let channel = choose|channel: int| #[trigger] d.waiting.contains((id, channel));
        assert(after.waiting.contains((id, channel)));
    }
}

proof fn checking_out_attends(d: DriverView, stream_id: u64, inbox: Inbox)
    requires
        d.attended_but(Some(stream_id)),
    ensures
        d.check_out(stream_id, inbox).attended(),
{
    let after = d.check_out(stream_id, inbox);
    others_stay_attended(d, after, stream_id);
    assert(after.waiting.contains((stream_id, inbox.channel)));
    assert(after.is_waited_for(stream_id));
}

proof fn ending_a_query_attends(
    d: DriverView,
    quic: TransportView,
    stream_id: u64,
    error: DoqError,
)
    requires
        d.attended_but(Some(stream_id)),
    ensures
        d.without_query(stream_id).attended(),
        d.without_query(stream_id).reset_stream(quic, stream_id, error).driver.attended(),
{
    others_stay_attended(d, d.without_query(stream_id), stream_id);
    others_stay_attended(
        d,
        d.without_query(stream_id).reset_stream(quic, stream_id, error).driver,
        stream_id,
    );
}

proof fn written_attends(d: DriverView, stream_id: u64, inbox: Inbox, fin: bool)
    requires
        d.attended_but(Some(stream_id)),
    ensures
        d.written(stream_id, inbox, fin).attended(),
{
    checking_out_attends(d, stream_id, inbox);
    if d.conn->0.has_unsent(stream_id) || fin {
        others_stay_attended(d, d.written(stream_id, inbox, fin), stream_id);
    }
}

proof fn write_failed_attends(d: DriverView, quic: TransportView, stream_id: u64, error: Error)
    requires
        d.attended_but(Some(stream_id)),
        d.write_failed(quic, stream_id, error).result is Ok,
    ensures
        d.write_failed(quic, stream_id, error).driver.attended(),
{
    ending_a_query_attends(d, quic, stream_id, DoqError::InternalError);
}

proof fn writing_attends(
    d: DriverView,
    quic: TransportView,
    stream_id: u64,
    inbox: Inbox,
    data: Seq<u8>,
    fin: bool,
)
    requires
        d.attended_but(Some(stream_id)),
    ensures
        ({
            let step = d.send_response(quic, stream_id, inbox, data, fin);
            step.result is Ok ==> step.driver.attended()
        }),
        ({
            let step = d.flush_stream(quic, stream_id, inbox, fin);
            step.result is Ok ==> step.driver.attended()
        }),
{
    if let Some(c) = d.conn {
        let sent = c.send_response(quic, stream_id, data, fin);
        let flushed = c.flush_response(quic, stream_id);
        let d1 = d.with_conn(sent.doq);
        let d2 = d.with_conn(flushed.doq);
        others_stay_attended(d, d1, stream_id);
        others_stay_attended(d, d2, stream_id);
        written_attends(d1, stream_id, inbox, fin);
        written_attends(d2, stream_id, inbox, fin);
        if let Err(e) = sent.result {
            if d1.write_failed(sent.quic, stream_id, e).result is Ok {
                write_failed_attends(d1, sent.quic, stream_id, e);
            }
        }
        if let Err(e) = flushed.result {
            if d2.write_failed(flushed.quic, stream_id, e).result is Ok {
                write_failed_attends(d2, flushed.quic, stream_id, e);
            }
        }
    }
}

/// Answering a query forgets none: once what its consumer said is dealt with,
/// the query is parked or waited for again, or is no longer tracked.
pub proof fn answered_query_is_not_forgotten(d: DriverView, quic: TransportView, ready: ReadyView)
    requires
        d.attended_but(Some(ready.stream_id)),
        d.responder_ready(quic, ready).result is Ok,
    ensures
        d.responder_ready(quic, ready).driver.attended(),
{
    match ready.message {
        None => {
            ending_a_query_attends(d, quic, ready.stream_id, DoqError::InternalError);
        },
        Some(ResponderMessageView::Response { data, fin }) => {
            writing_attends(d, quic, ready.stream_id, ready.inbox, data, fin);
        },
        Some(ResponderMessageView::Reset { error }) => {
            ending_a_query_attends(d, quic, ready.stream_id, error);
        },
    }
}

/// At the end of a wait all queries but that one are parked or waited for.
pub proof fn ended_wait_leaves_others_attended(d: DriverView, ready: ReadyView)
    requires
        d.attended(),
    ensures
        d.take_back(ready).attended_but(Some(ready.stream_id)),
{
    others_stay_attended(d, d.take_back(ready), ready.stream_id);
}

proof fn cancelling_attends(d: DriverView, stream_id: u64)
    requires
        d.attended(),
    ensures
        d.cancel_responder(stream_id).attended(),
{
    let after = d.cancel_responder(stream_id);
    assert forall|id: u64| #[trigger]
        after.queries.contains_key(id) && after.queries[id].parked
            is None implies after.is_waited_for(id) by {
        assert(d.queries.contains_key(id));
        assert(d.is_waited_for(id));
        let channel = choose|channel: int| #[trigger] d.waiting.contains((id, channel));
        assert(after.waiting.contains((id, channel)));
    }
}

proof fn reading_an_event_attends(
    d: DriverView,
    stream_id: u64,
    event: EventView,
    channel: int,
    offer: Offer,
)
    requires
        d.attended(),
    ensures
        d.read_event(stream_id, event, channel, offer).0.attended(),
{
    match event {
        EventView::Query { .. } => {
            let after = d.read_event(stream_id, event, channel, offer).0;
            if offer is Accepted {
                let said = after.offered.last();
                let offered = d.and_offer(said, offer);
                assert(after == offered.check_out(stream_id, Inbox { channel, closed: false }));
                others_stay_attended(d, offered, stream_id);
                checking_out_attends(offered, stream_id, Inbox { channel, closed: false });
            } else {
                same_is_attended(d, after);
            }
        },
        _ => {
            cancelling_attends(d, stream_id);
        },
    }
}

proof fn same_is_attended(d: DriverView, after: DriverView)
    requires
        d.attended(),
        after.queries == d.queries,
        after.waiting == d.waiting,
    ensures
        after.attended(),
{
    assert forall|id: u64| #[trigger]
        after.queries.contains_key(id) && after.queries[id].parked
            is None implies after.is_waited_for(id) by {
        assert(d.is_waited_for(id));
    }
}

/// Reading forgets no query.
pub proof fn reading_forgets_no_query(
    d: DriverView,
    quic: TransportView,
    offers: Seq<(int, Offer)>,
)
    requires
        d.attended(),
    ensures
        d.process_reads(quic, offers).driver.attended(),
    decreases
            quic.readable.len(),
            (match d.conn {
                Some(c) => c.pending.len(),
                None => 0,
            }),
{
    if let Some(c) = d.conn {
        let o = c.poll(quic);
        let polled = d.with_conn(o.doq);
        same_is_attended(d, polled);
        if let Ok((stream_id, event)) = o.result {
            polling_comes_to_an_end(c, quic);
            reading_an_event_attends(polled, stream_id, event, offers[0].0, offers[0].1);
            let (next, r) = polled.read_event(stream_id, event, offers[0].0, offers[0].1);
            if r is Ok {
                reading_forgets_no_query(next, o.quic, offers.drop_first());
            }
        }
    }
}

/// Flushing what has become writable forgets no query.
pub proof fn flushing_forgets_no_query(d: DriverView, quic: TransportView)
    requires
        d.attended(),
        d.flush_writable(quic).result is Ok,
    ensures
        d.flush_writable(quic).driver.attended(),
    decreases quic.writable.len(),
{
    if quic.writable.len() > 0 {
        let stream_id = quic.writable[0];
        let rest = TransportView { writable: quic.writable.drop_first(), ..quic };
        if d.queries.contains_key(stream_id) && rest.is_stopped(stream_id) {
            cancelling_attends(d, stream_id);
            flushing_forgets_no_query(d.cancel_responder(stream_id), rest);
        } else if d.queries.contains_key(stream_id) && d.queries[stream_id].parked is Some {
            let query = d.queries[stream_id];
            let taken = DriverView {
                queries: d.queries.insert(stream_id, QueryView { parked: None, ..query }),
                ..d
            };
            let step = taken.flush_stream(rest, stream_id, query.parked->0, query.pending_fin);
            others_stay_attended(d, taken, stream_id);
            writing_attends(
                taken,
                rest,
                stream_id,
                query.parked->0,
                Seq::empty(),
                query.pending_fin,
            );
            flushing_forgets_no_query(step.driver, step.quic);
        } else {
            flushing_forgets_no_query(d, rest);
        }
    }
}

/// Dealing with what consumers said forgets no query.
pub proof fn answering_forgets_no_query(
    d: DriverView,
    quic: TransportView,
    readies: Seq<ReadyView>,
)
    requires
        d.attended(),
        d.process_ready(quic, readies).result is Ok,
    ensures
        d.process_ready(quic, readies).driver.attended(),
    decreases readies.len(),
{
    if readies.len() > 0 {
        let ready = readies[0];
        let step = d.take_back(ready).responder_ready(quic, ready);
        ended_wait_leaves_others_attended(d, ready);
        answered_query_is_not_forgotten(d.take_back(ready), quic, ready);
        answering_forgets_no_query(step.driver, step.quic, readies.drop_first());
    }
}

/// A round of writing forgets no query: behind it each one that is tracked is
/// either parked or waited for.
pub proof fn writing_rounds_forget_no_query(
    d: DriverView,
    quic: TransportView,
    told: Offer,
    readies: Seq<ReadyView>,
)
    requires
        d.attended(),
        d.process_writes(quic, told, readies).result is Ok,
    ensures
        d.process_writes(quic, told, readies).driver.attended(),
{
    let confirmed = d.confirm_handshake(told);
    same_is_attended(d, confirmed);
    flushing_forgets_no_query(confirmed, quic);
    let flushed = confirmed.flush_writable(quic);
    answering_forgets_no_query(flushed.driver, flushed.quic, readies);
}

/// The stream of the query that a wait has put into the hands of the driver, if
/// any.
pub open spec fn held_by(wakeup: WakeupView) -> Option<u64> {
    match wakeup {
        WakeupView::Ready(ready) => Some(ready.stream_id),
        _ => None,
    }
}

/// Dealing with the end of a wait forgets no query.
pub proof fn waking_up_forgets_no_query(
    d: DriverView,
    quic: TransportView,
    wakeup: WakeupView,
    command: Option<DoqCommandView>,
)
    requires
        d.attended_but(held_by(wakeup)),
        d.after_wait(quic, wakeup, command).result is Ok,
    ensures
        d.after_wait(quic, wakeup, command).driver.attended(),
{
    let woken = d.wake(quic, wakeup);
    match wakeup {
        WakeupView::Ready(ready) => {
            answered_query_is_not_forgotten(d, quic, ready);
        },
        _ => {
            same_is_attended(d, woken.driver);
        },
    }
    same_is_attended(woken.driver, d.after_wait(quic, wakeup, command).driver);
}

} // verus!
