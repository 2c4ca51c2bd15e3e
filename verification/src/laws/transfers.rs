//! Laws of whole responses, over any number of calls.

use vstd::prelude::*;

use crate::laws::framing::frames;
use crate::laws::runs::{after, called, last_call, Call, Op};
use crate::laws::sending::{
    frames_of_one_more, one_more_action, sent_bytes, sent_fin, unsent_bytes,
};
use crate::model::{ConnectionView, StreamView};
use crate::transport::{ActionView, TransportView};
use crate::wire::frame;

verus! {

/// What the QUIC layer was asked to do between two states of it.
pub open spec fn new_actions(before: TransportView, after: TransportView) -> Seq<ActionView> {
    after.actions.skip(before.actions.len() as int)
}

/// The bytes of a stream that the QUIC layer has taken in some calls.
pub open spec fn taken_bytes(c: ConnectionView, calls: Seq<Call>, stream_id: u64) -> Seq<u8>
    decreases calls.len(),
{
    if calls.len() == 0 {
        Seq::empty()
    } else {
        taken_bytes(c, calls.drop_last(), stream_id) + sent_bytes(
            new_actions(calls.last().quic, last_call(c, calls).quic),
            stream_id,
        )
    }
}

/// Whether the QUIC layer has taken STREAM FIN for a stream in the last of some
/// calls.
pub open spec fn fin_taken_last(c: ConnectionView, calls: Seq<Call>, stream_id: u64) -> bool {
    calls.len() > 0 && sent_fin(
        new_actions(calls.last().quic, last_call(c, calls).quic),
        stream_id,
    )
}

/// In how many of some calls the QUIC layer has taken STREAM FIN for a stream.
pub open spec fn fins_taken(c: ConnectionView, calls: Seq<Call>, stream_id: u64) -> nat
    decreases calls.len(),
{
    if calls.len() == 0 {
        0
    } else {
        fins_taken(c, calls.drop_last(), stream_id) + if fin_taken_last(c, calls, stream_id) {
            1nat
        } else {
            0
        }
    }
}

/// Whether the QUIC layer takes nothing for a stream in the calls that follow one
/// in which it has taken STREAM FIN.
pub open spec fn nothing_behind_fin(c: ConnectionView, calls: Seq<Call>, stream_id: u64) -> bool
    decreases calls.len(),
{
    calls.len() > 0 ==> {
        &&& nothing_behind_fin(c, calls.drop_last(), stream_id)
        &&& fins_taken(c, calls.drop_last(), stream_id) > 0 ==> sent_bytes(
            new_actions(calls.last().quic, last_call(c, calls).quic),
            stream_id,
        ).len() == 0
    }
}

/// The messages that some calls queue as responses on a stream.
pub open spec fn queued_messages(calls: Seq<Call>, stream_id: u64) -> Seq<Seq<u8>>
    decreases calls.len(),
{
    if calls.len() == 0 {
        Seq::empty()
    } else {
        let before = queued_messages(calls.drop_last(), stream_id);
        match calls.last().op {
            Op::SendResponse { stream_id: id, data, .. } if id == stream_id => before.push(data),
            _ => before,
        }
    }
}

/// Whether one of them was queued as the final response.
pub open spec fn final_queued(calls: Seq<Call>, stream_id: u64) -> bool
    decreases calls.len(),
{
    calls.len() > 0 && (final_queued(calls.drop_last(), stream_id) || (
    calls.last().op matches Op::SendResponse { stream_id: id, fin, .. } && id == stream_id && fin))
}

/// Whether a call sends or flushes a response on a stream.
pub open spec fn is_response_call(op: Op, stream_id: u64) -> bool {
    match op {
        Op::SendResponse { stream_id: id, .. } => id == stream_id,
        Op::FlushResponse { stream_id: id } => id == stream_id,
        _ => false,
    }
}

/// Whether some calls get on with the responses of a stream: those that send or
/// flush one succeed, and no other of them drops the stream or begins to track
/// it.
pub open spec fn undisturbed(c: ConnectionView, calls: Seq<Call>, stream_id: u64) -> bool
    decreases calls.len(),
{
    calls.len() > 0 ==> {
        let before = after(c, calls.drop_last());
        let o = last_call(c, calls);
        &&& undisturbed(c, calls.drop_last(), stream_id)
        &&& if is_response_call(calls.last().op, stream_id) {
            o.ok
        } else {
            o.doq.streams.contains_key(stream_id) == before.streams.contains_key(stream_id)
        }
    }
}

proof fn no_more_actions(actions: Seq<ActionView>, stream_id: u64)
    ensures
        sent_bytes(actions.skip(actions.len() as int), stream_id).len() == 0,
        !sent_fin(actions.skip(actions.len() as int), stream_id),
{
}

/// What a write adds to the actions: the beginning of the bytes that is taken,
/// and STREAM FIN with the last of them.
proof fn write_adds(quic: TransportView, stream_id: u64, data: Seq<u8>, fin: bool)
    ensures
        ({
            let (after, r) = quic.send(stream_id, data, fin);
            let n = if r is Ok {
                r->Ok_0 as int
            } else {
                0
            };
            &&& 0 <= n <= data.len()
            &&& sent_bytes(new_actions(quic, after), stream_id) == data.take(n)
            &&& sent_fin(new_actions(quic, after), stream_id) == (r is Ok && fin && n
                == data.len())
        }),
{
    let (after, r) = quic.send(stream_id, data, fin);
    let n = if r is Ok {
        r->Ok_0 as int
    } else {
        0
    };
    let new = new_actions(quic, after);
    let none = Seq::<ActionView>::empty();
    let open = ActionView::Open { stream_id };
    let last = r is Ok && fin && n == data.len();
    let send = ActionView::Send { stream_id, data: data.take(n), fin: last };
    assert(sent_bytes(none, stream_id) =~= Seq::empty());
    assert(!sent_fin(none, stream_id));
    one_more_action(none, open, stream_id);
    one_more_action(none, send, stream_id);
    one_more_action(none.push(open), send, stream_id);
    assert(data.take(0) =~= Seq::empty());
    assert(Seq::<u8>::empty() + data.take(n) =~= data.take(n));
    if let Ok(t) = quic.opened(stream_id) {
        if t.actions.len() == quic.actions.len() {
            assert(new =~= none || new =~= none.push(send));
        } else {
            assert(new =~= none.push(open) || new =~= none.push(open).push(send));
        }
    } else {
        assert(new =~= none);
    }
}

/// What a flush of a response adds to the actions, where it succeeds.
proof fn flush_adds(c: ConnectionView, quic: TransportView, stream_id: u64)
    requires
        c.flush_response(quic, stream_id).result is Ok,
    ensures
        ({
            let o = c.flush_response(quic, stream_id);
            let new = new_actions(quic, o.quic);
            &&& c.streams.contains_key(stream_id)
            &&& sent_bytes(new, stream_id) + unsent_bytes(o.doq, stream_id) == unsent_bytes(
                c,
                stream_id,
            )
            &&& sent_fin(new, stream_id) <==> !o.doq.streams.contains_key(stream_id)
            &&& sent_fin(new, stream_id) ==> c.streams[stream_id].send_fin
            &&& o.doq.streams.contains_key(stream_id) ==> {
                &&& o.doq.streams[stream_id].send_fin == c.streams[stream_id].send_fin
                &&& c.streams[stream_id].send_fin && c.has_unsent(stream_id)
                    ==> o.doq.has_unsent(stream_id)
            }
        }),
{
    let s = c.streams[stream_id];
    write_adds(quic, stream_id, s.send_buf, s.send_fin);
    no_more_actions(quic.actions, stream_id);
    let o = c.flush_response(quic, stream_id);
    let new = new_actions(quic, o.quic);
    let (_, r) = quic.send(stream_id, s.send_buf, s.send_fin);
    let n = if r is Ok {
        r->Ok_0 as int
    } else {
        0
    };
    assert(s.send_buf.take(n) + s.send_buf.skip(n) =~= s.send_buf);
    assert(s.send_buf.take(0) =~= Seq::empty());
    assert(n == s.send_buf.len() ==> s.send_buf.take(n) =~= s.send_buf);
    assert(sent_bytes(new, stream_id) + unsent_bytes(o.doq, stream_id) =~= unsent_bytes(
        c,
        stream_id,
    ));
}

/// What waits on a stream once a call has queued its response, if it does.
spec fn waits_then(unsent: Seq<u8>, op: Op) -> Seq<u8> {
    match op {
        Op::SendResponse { data, .. } => unsent + frame(data),
        _ => unsent,
    }
}

/// Whether the final response is queued once a call has queued its response, if
/// it does.
spec fn final_then(c: ConnectionView, op: Op, stream_id: u64) -> bool {
    match op {
        Op::SendResponse { fin, .. } => fin,
        _ => c.streams[stream_id].send_fin,
    }
}

/// What a call that sends or flushes a response adds to the actions, where it
/// succeeds.
proof fn response_call_adds(c: ConnectionView, call: Call, stream_id: u64)
    requires
        called(c, call).ok,
        is_response_call(call.op, stream_id),
    ensures
        ({
            let o = called(c, call);
            let new = new_actions(call.quic, o.quic);
            let waits = waits_then(unsent_bytes(c, stream_id), call.op);
            &&& c.streams.contains_key(stream_id)
            &&& call.op is SendResponse ==> !c.streams[stream_id].send_fin
            &&& sent_bytes(new, stream_id) + unsent_bytes(o.doq, stream_id) == waits
            &&& sent_fin(new, stream_id) <==> !o.doq.streams.contains_key(stream_id)
            &&& sent_fin(new, stream_id) ==> final_then(c, call.op, stream_id)
            &&& o.doq.streams.contains_key(stream_id) ==> {
                &&& o.doq.streams[stream_id].send_fin == final_then(c, call.op, stream_id)
                &&& final_then(c, call.op, stream_id) && waits.len() > 0 ==> o.doq.has_unsent(
                    stream_id,
                )
            }
            &&& !o.doq.has_unsent(stream_id) ==> unsent_bytes(o.doq, stream_id)
                == Seq::<u8>::empty()
        }),
{
    let o = called(c, call);
    match call.op {
        Op::SendResponse { data, fin, .. } => {
            let s = c.streams[stream_id];
            let queued = c.with_stream(
                stream_id,
                StreamView { send_buf: s.send_buf + frame(data), send_fin: fin, ..s },
            );
            flush_adds(queued, call.quic, stream_id);
        },
        _ => {
            flush_adds(c, call.quic, stream_id);
        },
    }
    if !o.doq.has_unsent(stream_id) {
        assert(unsent_bytes(o.doq, stream_id) =~= Seq::empty());
    }
}

/// Whether the actions have grown, if at all, by others than writes to a stream.
spec fn nothing_sent(before: TransportView, after: TransportView, stream_id: u64) -> bool {
    &&& before.actions.is_prefix_of(after.actions)
    &&& forall|i: int|
        before.actions.len() <= i < after.actions.len() ==> !(
        #[trigger] after.actions[i] matches ActionView::Send { stream_id: id, .. } && id
            == stream_id)
}

proof fn nothing_sent_adds_nothing(actions: Seq<ActionView>, stream_id: u64)
    requires
        forall|i: int|
            0 <= i < actions.len() ==> !(#[trigger] actions[i] matches ActionView::Send {
                stream_id: id,
                ..
            } && id == stream_id),
    ensures
        sent_bytes(actions, stream_id) == Seq::<u8>::empty(),
        !sent_fin(actions, stream_id),
    decreases actions.len(),
{
    if actions.len() > 0 {
        let shorter = actions.drop_last();
        assert forall|i: int| 0 <= i < shorter.len() implies #[trigger] shorter[i]
            == actions[i] by {}
        nothing_sent_adds_nothing(shorter, stream_id);
        assert(actions.last() == actions[actions.len() - 1]);
    }
}

/// What the processing of a readable stream by a server leaves alone.
proof fn processing_sends_nothing(c: ConnectionView, quic: TransportView, id: u64, stream_id: u64)
    requires
        c.is_server,
    ensures
        ({
            let o = c.process_readable_stream(quic, id);
            &&& o.doq.is_server
            &&& nothing_sent(quic, o.quic, stream_id)
            &&& o.result is Ok && o.result->Ok_0.len() == 0 && c.streams.contains_key(stream_id)
                ==> o.doq.streams.contains_key(stream_id)
            &&& c.streams.contains_key(stream_id) && o.doq.streams.contains_key(stream_id)
                ==> same_sending(c, o.doq, stream_id)
        }),
{
}

/// Whether what waits to be sent on a stream is the same.
spec fn same_sending(c: ConnectionView, c2: ConnectionView, stream_id: u64) -> bool {
    &&& c2.streams[stream_id].send_buf == c.streams[stream_id].send_buf
    &&& c2.streams[stream_id].send_fin == c.streams[stream_id].send_fin
}

proof fn polling_streams_sends_nothing(
    c: ConnectionView,
    quic: TransportView,
    ids: Seq<u64>,
    stream_id: u64,
)
    requires
        c.is_server,
    ensures
        ({
            let o = c.poll_streams(quic, ids);
            &&& o.doq.is_server
            &&& nothing_sent(quic, o.quic, stream_id)
            &&& c.streams.contains_key(stream_id) && o.doq.streams.contains_key(stream_id)
                ==> same_sending(c, o.doq, stream_id)
        }),
    decreases ids.len(),
{
    if ids.len() > 0 {
        let step = c.process_readable_stream(quic, ids[0]);
        processing_sends_nothing(c, quic, ids[0], stream_id);
        if step.result is Ok && step.result->Ok_0.len() == 0 {
            polling_streams_sends_nothing(step.doq, step.quic, ids.drop_first(), stream_id);
        }
    }
}

/// What a call that neither sends nor flushes a response of a stream leaves
/// alone.
proof fn other_call_sends_nothing(c: ConnectionView, call: Call, stream_id: u64)
    requires
        c.is_server,
        !is_response_call(call.op, stream_id),
    ensures
        ({
            let o = called(c, call);
            &&& o.doq.is_server
            &&& sent_bytes(new_actions(call.quic, o.quic), stream_id) == Seq::<u8>::empty()
            &&& !sent_fin(new_actions(call.quic, o.quic), stream_id)
            &&& c.streams.contains_key(stream_id) && o.doq.streams.contains_key(stream_id)
                ==> same_sending(c, o.doq, stream_id)
        }),
{
    let o = called(c, call);
    if call.op is Poll {
        polling_streams_sends_nothing(c, call.quic, call.quic.readable, stream_id);
    }
    assert(nothing_sent(call.quic, o.quic, stream_id));
    nothing_sent_adds_nothing(new_actions(call.quic, o.quic), stream_id);
}

/// How far some calls have come with the responses that they queue on a stream.
spec fn on_the_way(c: ConnectionView, calls: Seq<Call>, stream_id: u64) -> bool {
    let end = after(c, calls);
    let held = end.streams.contains_key(stream_id);
    &&& end.is_server
    &&& taken_bytes(c, calls, stream_id) + unsent_bytes(end, stream_id) == frames(
        queued_messages(calls, stream_id),
    )
    &&& held ==> {
        &&& end.streams[stream_id].send_fin == final_queued(calls, stream_id)
        &&& final_queued(calls, stream_id) ==> end.has_unsent(stream_id)
    }
    &&& !held ==> final_queued(calls, stream_id)
    &&& nothing_behind_fin(c, calls, stream_id)
    &&& fins_taken(c, calls, stream_id) == if held {
        0nat
    } else {
        1
    }
}

proof fn responses_on_the_way(c: ConnectionView, calls: Seq<Call>, stream_id: u64)
    requires
        c.is_server,
        c.streams.contains_key(stream_id),
        c.streams[stream_id].send_buf.len() == 0,
        !c.streams[stream_id].send_fin,
        undisturbed(c, calls, stream_id),
    ensures
        on_the_way(c, calls, stream_id),
    decreases calls.len(),
{
    if calls.len() == 0 {
        assert(unsent_bytes(c, stream_id) =~= Seq::empty());
        assert(taken_bytes(c, calls, stream_id) + unsent_bytes(c, stream_id) =~= Seq::empty());
        assert(frames(queued_messages(calls, stream_id)) =~= Seq::empty());
    } else {
        let shorter = calls.drop_last();
        let call = calls.last();
        responses_on_the_way(c, shorter, stream_id);
        assert(shorter.push(call) =~= calls);
        if is_response_call(call.op, stream_id) {
            one_more_response_call(c, shorter, call, stream_id);
        } else {
            one_more_other_call(c, shorter, call, stream_id);
        }
    }
}

proof fn one_more_other_call(c: ConnectionView, calls: Seq<Call>, call: Call, stream_id: u64)
    requires
        on_the_way(c, calls, stream_id),
        !is_response_call(call.op, stream_id),
        undisturbed(c, calls.push(call), stream_id),
    ensures
        on_the_way(c, calls.push(call), stream_id),
{
    let more = calls.push(call);
    assert(more.drop_last() =~= calls);
    let before = after(c, calls);
    let end = after(c, more);
    other_call_sends_nothing(before, call, stream_id);
    assert(taken_bytes(c, more, stream_id) =~= taken_bytes(c, calls, stream_id));
    assert(unsent_bytes(end, stream_id) == unsent_bytes(before, stream_id));
}

/// What a call that sends or flushes a response adds to what was queued.
proof fn one_more_queued(
    calls: Seq<Call>,
    call: Call,
    taken: Seq<u8>,
    unsent: Seq<u8>,
    stream_id: u64,
)
    requires
        is_response_call(call.op, stream_id),
        taken + unsent == frames(queued_messages(calls, stream_id)),
    ensures
        taken + waits_then(unsent, call.op) == frames(
            queued_messages(calls.push(call), stream_id),
        ),
        final_queued(calls.push(call), stream_id) == (final_queued(calls, stream_id) || (
        call.op matches Op::SendResponse { fin, .. } && fin)),
{
    let more = calls.push(call);
    assert(more.drop_last() =~= calls);
    if let Op::SendResponse { data, .. } = call.op {
        frames_of_one_more(queued_messages(calls, stream_id), data);
        assert(taken + (unsent + frame(data)) =~= (taken + unsent) + frame(data));
    }
}

proof fn one_more_response_call(c: ConnectionView, calls: Seq<Call>, call: Call, stream_id: u64)
    requires
        on_the_way(c, calls, stream_id),
        is_response_call(call.op, stream_id),
        called(after(c, calls), call).ok,
    ensures
        on_the_way(c, calls.push(call), stream_id),
{
    let more = calls.push(call);
    assert(more.drop_last() =~= calls);
    let before = after(c, calls);
    let end = after(c, more);
    response_call_adds(before, call, stream_id);
    let o = called(before, call);
    assert(end == o.doq);
    let new = sent_bytes(new_actions(call.quic, o.quic), stream_id);
    let earlier = taken_bytes(c, calls, stream_id);
    let left = unsent_bytes(end, stream_id);
    one_more_queued(calls, call, earlier, unsent_bytes(before, stream_id), stream_id);
    assert(taken_bytes(c, more, stream_id) == earlier + new);
    assert(earlier + new + left =~= earlier + (new + left));
}

/// Responses that are sent on a stream, and flushed until nothing waits, reach
/// the QUIC layer in their order, each in its frame and none twice, in however
/// many parts they are taken and whatever else is called in between. STREAM FIN
/// is sent once where the final response was queued, and else not; nothing is
/// sent behind it, and the stream is then not tracked.
pub proof fn responses_are_sent_in_order(c: ConnectionView, calls: Seq<Call>, stream_id: u64)
    requires
        c.is_server,
        c.streams.contains_key(stream_id),
        c.streams[stream_id].send_buf.len() == 0,
        !c.streams[stream_id].send_fin,
        undisturbed(c, calls, stream_id),
        !after(c, calls).has_unsent(stream_id),
    ensures
        taken_bytes(c, calls, stream_id) == frames(queued_messages(calls, stream_id)),
        fins_taken(c, calls, stream_id) == if final_queued(calls, stream_id) {
            1nat
        } else {
            0
        },
        nothing_behind_fin(c, calls, stream_id),
        after(c, calls).streams.contains_key(stream_id) <==> !final_queued(calls, stream_id),
{
    responses_on_the_way(c, calls, stream_id);
    let taken = taken_bytes(c, calls, stream_id);
    assert(unsent_bytes(after(c, calls), stream_id) =~= Seq::empty());
    assert(taken + Seq::<u8>::empty() =~= taken);
}

} // verus!
