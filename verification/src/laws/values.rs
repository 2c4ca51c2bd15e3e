//! Laws of what the values say that the library takes and gives.

use vstd::prelude::*;

use crate::connection::{polled, processed, Connection, Error, Event, StreamState};
use crate::driver::{DoqServerDriver, QueryState, Wakeup};
use crate::driver_model::WakeupView;
use crate::model::{ConnectionView, EventView, StreamView};
use crate::outside::{
    bytes_contents, closing_futures, event_capacity, event_channel, found_end,
    offer_outcomes, offered_events, received_messages, receiver_channel, receiver_closed,
    resolved_futures, responder_capacity, responder_channel, taken_commands, waiting_futures,
};
use crate::responder::{
    DoqCommand, DoqCommandView, DoqEvent, DoqEventView, ResponderMessage, ResponderMessageView,
};
use crate::transport::{Action, ActionView, ConnectionError, Transport, TransportStream};
use crate::waiting::{inbox, ResponderReady, WaitForResponder, WaitView};

verus! {

/// An event carries the message, the mark and the code that it says.
pub proof fn events_say_what_they_carry(event: Event)
    ensures
        match event {
            Event::Query { data, is_0rtt } => event@ == (EventView::Query { data: data@, is_0rtt }),
            Event::Response { data } => event@ == (EventView::Response { data: data@ }),
            Event::Finished => event@ == EventView::Finished,
            Event::Reset(code) => event@ == EventView::Reset(code),
        },
{
}

/// What a poll, or the processing of a stream, returns is events and errors as
/// they are.
pub proof fn results_say_what_they_carry(
    r: Result<(u64, Event), Error>,
    p: Result<Vec<Event>, Error>,
    i: int,
)
    ensures
        match r {
            Ok((stream_id, event)) => polled(r) == Ok::<_, Error>((stream_id, event@)),
            Err(e) => polled(r) == Err::<(u64, EventView), _>(e),
        },
        match p {
            Ok(events) => {
                &&& processed(p) is Ok
                &&& processed(p)->Ok_0.len() == events@.len()
                &&& 0 <= i < events@.len() ==> processed(p)->Ok_0[i] == events@[i]@
            },
            Err(e) => processed(p) == Err::<Seq<EventView>, _>(e),
        },
{
}

/// A connection holds its streams, with their bytes and marks, and the events that
/// are pending, as they are.
pub proof fn connection_holds_what_it_says(c: Connection, s: StreamState, id: u64, i: int)
    ensures
        c@.is_server == c.is_server,
        c@.next_query_stream_id == c.next_query_stream_id,
        c@.streams.contains_key(id) == c.streams@.contains_key(id),
        c.streams@.contains_key(id) ==> c@.streams[id] == c.streams@[id]@,
        c@.pending.len() == c.pending@.len(),
        0 <= i < c.pending@.len() ==> c@.pending[i] == (c.pending@[i].0, c.pending@[i].1@),
        s@ == (StreamView {
            recv_buf: s.recv_buf@,
            fin_received: s.fin_received,
            is_0rtt: s.is_0rtt,
            is_local: s.is_local,
            event_triggered: s.event_triggered,
            send_buf: s.send_buf@,
            send_fin: s.send_fin,
        }),
{
}

/// Bytes wait on a stream that is tracked and holds some to send, and a query is
/// one that the connection itself has opened.
pub proof fn waiting_bytes_are_those_held(c: ConnectionView, id: u64)
    ensures
        c.has_unsent(id) <==> c.streams.contains_key(id) && c.streams[id].send_buf.len() > 0,
        c.is_query_stream(id) <==> c.streams.contains_key(id) && c.streams[id].is_local,
{
}

/// A connection begins with nothing, and the first query takes stream 0.
pub proof fn new_connection_holds_nothing(is_server: bool, id: u64)
    ensures
        ConnectionView::new(is_server).is_server == is_server,
        ConnectionView::new(is_server).next_query_stream_id == 0,
        !ConnectionView::new(is_server).streams.contains_key(id),
        ConnectionView::new(is_server).pending.len() == 0,
{
}

/// The QUIC layer holds its streams, and what is to be done, as they are.
pub proof fn transport_holds_what_it_says(
    t: Transport,
    s: TransportStream,
    e: ConnectionError,
    id: u64,
    i: int,
)
    ensures
        t@.is_server == t.is_server,
        t@.in_early_data == t.in_early_data,
        t@.closed == t.closed,
        t@.local_error is Some <==> t.local_error is Some,
        t.local_error matches Some(why) ==> t@.local_error == Some(why@),
        t@.send_capacity == t.send_capacity,
        t@.streams_left_bidi == t.streams_left_bidi,
        t@.streams_left_uni == t.streams_left_uni,
        t@.initial_window == t.initial_window,
        t@.streams.contains_key(id) == t.streams@.contains_key(id),
        t.streams@.contains_key(id) ==> t@.streams[id] == t.streams@[id]@,
        t@.readable == t.readable@,
        t@.writable == t.writable@,
        t@.actions.len() == t.actions@.len(),
        0 <= i < t.actions@.len() ==> t@.actions[i] == t.actions@[i]@,
        s@.recv_data == s.recv_data@,
        s@.recv_end == s.recv_end,
        s@.arrived_early == s.arrived_early,
        s@.send_window == s.send_window,
        s@.stopped == s.stopped,
        s@.send_end == s.send_end,
        e@.is_app == e.is_app,
        e@.error_code == e.error_code,
        e@.reason == e.reason@,
{
}

/// An action asks for what it carries.
pub proof fn actions_ask_for_what_they_carry(action: Action)
    ensures
        match action {
            Action::Open { stream_id } => action@ == (ActionView::Open { stream_id }),
            Action::Send { stream_id, data, fin } => action@ == (ActionView::Send {
                stream_id,
                data: data@,
                fin,
            }),
            Action::Shutdown { stream_id, direction, error } => action@ == (ActionView::Shutdown {
                stream_id,
                direction,
                error,
            }),
            Action::Close { is_app, error_code, reason } => action@ == (ActionView::Close {
                is_app,
                error_code,
                reason: reason@,
            }),
        },
{
}

/// What a driver and its consumer tell each other is what their messages carry.
pub proof fn messages_say_what_they_carry(
    event: DoqEvent,
    message: ResponderMessage,
    command: DoqCommand,
)
    ensures
        match event {
            DoqEvent::Query { data, is_0rtt, responder } => event@ == (DoqEventView::Query {
                data: bytes_contents(data),
                is_0rtt,
                channel: responder_channel(responder.tx),
                capacity: responder_capacity(responder.tx),
            }),
            DoqEvent::HandshakeConfirmed => event@ == DoqEventView::HandshakeConfirmed,
            DoqEvent::ConnectionClosed => event@ == DoqEventView::ConnectionClosed,
        },
        match message {
            ResponderMessage::Response { data, fin } => message@ == (
            ResponderMessageView::Response { data: bytes_contents(data), fin }),
            ResponderMessage::Reset { error } => message@ == (ResponderMessageView::Reset {
                error,
            }),
        },
        match command {
            DoqCommand::CloseConnection { error, reason } => command@ == (
            DoqCommandView::CloseConnection { error, reason: reason@ }),
        },
{
}

/// What ends a wait is told as it came.
pub proof fn wakeups_say_what_they_carry(wakeup: Wakeup, ready: ResponderReady)
    ensures
        match wakeup {
            Wakeup::Ready(r) => wakeup@ == WakeupView::Ready(r@),
            Wakeup::Command(cmd) => wakeup@ == WakeupView::Command(cmd@),
            Wakeup::EventReceiverGone => wakeup@ == WakeupView::EventReceiverGone,
        },
        ready@.stream_id == ready.stream_id,
        ready@.inbox.channel == receiver_channel(ready.rx),
        ready@.inbox.closed == receiver_closed(ready.rx),
        ready@.message is Some <==> ready.message is Some,
        ready.message matches Some(m) ==> ready@.message == Some(m@),
{
}

/// A driver holds its connection, its queries and its ends of the channels as they
/// are.
pub proof fn driver_holds_what_it_says(d: DoqServerDriver, q: QueryState, id: u64)
    ensures
        d@.conn is Some <==> d.conn is Some,
        d.conn matches Some(c) ==> d@.conn == Some(c@),
        d@.event_channel == event_channel(d.event_sender),
        d@.event_capacity == event_capacity(d.event_sender),
        d@.offered == offered_events(d.event_sender),
        d@.outcomes == offer_outcomes(d.event_sender),
        d@.commands == taken_commands(d.cmd_recv),
        d@.queries.contains_key(id) == d.streams@.contains_key(id),
        d.streams@.contains_key(id) ==> d@.queries[id] == d.streams@[id]@,
        d@.waiting == waiting_futures(d.waiting),
        d@.closing == closing_futures(d.waiting),
        d@.resolved == resolved_futures(d.waiting),
        d@.handshake_confirmed == d.handshake_confirmed,
        d@.event_receiver_dropped == d.event_receiver_dropped,
        q@.parked is Some <==> q.rx is Some,
        q.rx matches Some(rx) ==> q@.parked == Some(inbox(rx)),
        q@.pending_fin == q.pending_fin,
{
}

/// A future that resolves hands over its receiver and the message that was just
/// received through it, for its stream; one that does not keeps its receiver and
/// has received nothing.
pub proof fn resolved_future_hands_its_message_over(
    w: WaitForResponder,
    ready: ResponderReady,
    after: WaitView,
)
    ensures
        w@.polled(std::task::Poll::Ready(ready), after) ==> {
            &&& w.rx is Some
            &&& ready.stream_id == w.stream_id
            &&& receiver_channel(ready.rx) == receiver_channel(w.rx->0)
            &&& receiver_closed(ready.rx) == receiver_closed(w.rx->0)
            &&& ready.message matches Some(m) ==> received_messages(ready.rx)
                == received_messages(w.rx->0).push(m@)
            &&& ready.message is None ==> received_messages(ready.rx) == received_messages(w.rx->0)
                && found_end(ready.rx)
            &&& after.inbox is None
        },
        w@.polled(std::task::Poll::Pending, after) ==> {
            &&& after.inbox == w@.inbox
            &&& after.received == w@.received
            &&& after.stream_id == w.stream_id
            &&& w.rx is Some ==> after.in_vain
        },
{
}

} // verus!
