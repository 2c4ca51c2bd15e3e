//! The law of whole responses at the client, over any number of calls.

use vstd::prelude::*;

use crate::connection::Error;
use crate::laws::framing::{all_fit, bytes_are_messages_and_remainder, frames};
use crate::laws::isolation::processing_leaves_other_streams_alone;
use crate::laws::runs::{
    after, called, ended, ends_once, last_call, polling_streams_keeps_over, recv_over, silent,
    Call, Op,
};
use crate::laws::sending::frames_of_one_more;
use crate::laws::validity::{
    abandoning_keeps_validity, events_of_other_streams, polling_keeps_validity,
    processing_keeps_validity, queries_keep_validity, responses_keep_validity,
};
use crate::model::{
    event_of_role, messages, of_other_stream, on_stream, remainder, responses, ConnectionView,
    EventView, StreamView,
};
use crate::transport::TransportView;
use crate::wire::{frame, front};

verus! {

/// The bytes by which the received data of a stream has become shorter, where
/// the peer has not abandoned the stream.
pub open spec fn bytes_read(
    before: TransportView,
    after: TransportView,
    stream_id: u64,
) -> Seq<u8> {
    let data = before.streams[stream_id].recv_data;
    if before.streams.contains_key(stream_id) && !(before.streams[stream_id].recv_end is Reset) {
        data.take(data.len() - after.streams[stream_id].recv_data.len())
    } else {
        Seq::empty()
    }
}

/// The bytes that are read from a stream while some streams are polled, up to
/// the first event.
pub open spec fn read_in_streams(
    c: ConnectionView,
    quic: TransportView,
    ids: Seq<u64>,
    stream_id: u64,
) -> Seq<u8>
    decreases ids.len(),
{
    if ids.len() == 0 {
        Seq::empty()
    } else {
        let id = ids[0];
        let step = c.process_readable_stream(quic, id);
        let now = if id == stream_id {
            bytes_read(quic, step.quic, stream_id)
        } else {
            Seq::empty()
        };
        if !c.is_server && c.streams.contains_key(id) && c.probe(quic, id).result is Err {
            Seq::empty()
        } else if step.result is Ok && step.result->Ok_0.len() == 0 {
            now + read_in_streams(step.doq, step.quic, ids.drop_first(), stream_id)
        } else {
            now
        }
    }
}

/// The bytes that a poll reads from a stream.
pub open spec fn read_in_poll(c: ConnectionView, quic: TransportView, stream_id: u64) -> Seq<u8> {
    if quic.local_error is Some || c.pending.len() > 0 {
        Seq::empty()
    } else {
        read_in_streams(c, quic, quic.readable, stream_id)
    }
}

/// The bytes that some calls read from a stream.
pub open spec fn bytes_received(c: ConnectionView, calls: Seq<Call>, stream_id: u64) -> Seq<u8>
    decreases calls.len(),
{
    if calls.len() == 0 {
        Seq::empty()
    } else {
        let before = bytes_received(c, calls.drop_last(), stream_id);
        if calls.last().op is Poll {
            before + read_in_poll(after(c, calls.drop_last()), calls.last().quic, stream_id)
        } else {
            before
        }
    }
}

/// The response that an event is for a stream, if it is one.
pub open spec fn answer(event: Option<(u64, EventView)>, stream_id: u64) -> Seq<Seq<u8>> {
    match event {
        Some((id, EventView::Response { data })) if id == stream_id => seq![data],
        _ => Seq::empty(),
    }
}

/// The responses that some calls return for a stream, oldest first.
pub open spec fn answers(c: ConnectionView, calls: Seq<Call>, stream_id: u64) -> Seq<Seq<u8>>
    decreases calls.len(),
{
    if calls.len() == 0 {
        Seq::empty()
    } else {
        answers(c, calls.drop_last(), stream_id) + answer(last_call(c, calls).event, stream_id)
    }
}

/// Whether some calls leave the answer to a query alone: nothing but polls, and
/// flushes of the query, concern its stream.
pub open spec fn only_polled(calls: Seq<Call>, stream_id: u64) -> bool {
    forall|k: int|
        0 <= k < calls.len() ==> match (#[trigger] calls[k]).op {
            Op::CancelQuery { stream_id: id, .. } => id != stream_id,
            Op::SendResponse { stream_id: id, .. } => id != stream_id,
            Op::FlushResponse { stream_id: id } => id != stream_id,
            Op::ResetStream { stream_id: id, .. } => id != stream_id,
            _ => true,
        }
}

/// The responses of a stream among pending events.
spec fn pending_answers(pending: Seq<(u64, EventView)>, stream_id: u64) -> Seq<Seq<u8>>
    decreases pending.len(),
{
    if pending.len() == 0 {
        Seq::empty()
    } else {
        pending_answers(pending.drop_last(), stream_id) + answer(
            Some(pending.last()),
            stream_id,
        )
    }
}

proof fn frames_of_both(a: Seq<Seq<u8>>, b: Seq<Seq<u8>>)
    ensures
        frames(a + b) == frames(a) + frames(b),
    decreases b.len(),
{
    if b.len() == 0 {
        assert(a + b =~= a);
        assert(frames(a) + frames(b) =~= frames(a));
    } else {
        frames_of_both(a, b.drop_last());
        frames_of_one_more(a + b.drop_last(), b.last());
        frames_of_one_more(b.drop_last(), b.last());
        assert((a + b.drop_last()).push(b.last()) =~= a + b);
        assert(b.drop_last().push(b.last()) =~= b);
        assert(frames(a) + frames(b) =~= frames(a) + frames(b.drop_last()) + frame(
            b.last(),
        ));
    }
}

proof fn first_pending_answer(pending: Seq<(u64, EventView)>, stream_id: u64)
    requires
        pending.len() > 0,
    ensures
        pending_answers(pending, stream_id) == answer(Some(pending[0]), stream_id)
            + pending_answers(pending.drop_first(), stream_id),
    decreases pending.len(),
{
    let first = answer(Some(pending[0]), stream_id);
    let rest = pending.drop_first();
    if pending.len() == 1 {
        assert(pending_answers(pending.drop_last(), stream_id) =~= Seq::empty());
        assert(pending_answers(rest, stream_id) =~= Seq::empty());
        assert(pending_answers(pending, stream_id) =~= first + pending_answers(rest, stream_id));
    } else {
        first_pending_answer(pending.drop_last(), stream_id);
        assert(pending.drop_last().drop_first() =~= rest.drop_last());
        assert(pending_answers(pending, stream_id) =~= first + pending_answers(rest, stream_id));
    }
}

proof fn answers_found(stream_id: u64, id: u64, msgs: Seq<Seq<u8>>)
    ensures
        pending_answers(on_stream(id, responses(msgs)), stream_id) == if id == stream_id {
            msgs
        } else {
            Seq::empty()
        },
        pending_answers(
            on_stream(id, responses(msgs).push(EventView::Finished)),
            stream_id,
        ) == if id == stream_id {
            msgs
        } else {
            Seq::empty()
        },
    decreases msgs.len(),
{
    let p = on_stream(id, responses(msgs));
    let q = on_stream(id, responses(msgs).push(EventView::Finished));
    assert(q.drop_last() =~= p);
    if msgs.len() == 0 {
        assert(pending_answers(p, stream_id) =~= Seq::empty());
    } else {
        answers_found(stream_id, id, msgs.drop_last());
        assert(p.drop_last() =~= on_stream(id, responses(msgs.drop_last())));
        assert(msgs.drop_last().push(msgs.last()) =~= msgs);
        assert(p.last() == (id, EventView::Response { data: msgs.last() }));
        assert(pending_answers(p, stream_id) =~= if id == stream_id {
            msgs
        } else {
            Seq::empty()
        });
    }
    assert(pending_answers(q, stream_id) =~= pending_answers(p, stream_id));
}

proof fn other_answers_kept(pending: Seq<(u64, EventView)>, dropped: u64, stream_id: u64)
    requires
        dropped != stream_id,
    ensures
        pending_answers(pending.filter(of_other_stream(dropped)), stream_id) == pending_answers(
            pending,
            stream_id,
        ),
        pending.len() > 0 && pending.last().0 == stream_id ==> pending.filter(
            of_other_stream(dropped),
        ).len() > 0 && pending.filter(of_other_stream(dropped)).last() == pending.last(),
    decreases pending.len(),
{
    reveal(Seq::filter);
    let f = of_other_stream(dropped);
    if pending.len() > 0 {
        let shorter = pending.drop_last();
        other_answers_kept(shorter, dropped, stream_id);
        if f(pending.last()) {
            assert(pending.filter(f).drop_last() =~= shorter.filter(f));
        } else {
            assert(pending_answers(pending, stream_id) =~= pending_answers(shorter, stream_id));
        }
    }
}

/// Whether every pending event of a stream is a response.
spec fn only_answers(pending: Seq<(u64, EventView)>, stream_id: u64) -> bool {
    forall|i: int|
        0 <= i < pending.len() && (#[trigger] pending[i]).0 == stream_id ==> pending[i].1
            is Response
}

/// A query whose answer is going on: what was read is the responses, returned or
/// pending, and the beginning of another.
spec fn going_on(c: ConnectionView, got: Seq<u8>, told: Seq<Seq<u8>>, stream_id: u64) -> bool {
    let s = c.streams[stream_id];
    &&& c.streams.contains_key(stream_id)
    &&& !s.fin_received
    &&& !(front(s.recv_buf) is Message)
    &&& only_answers(c.pending, stream_id)
    &&& all_fit(told)
    &&& got == frames(told) + s.recv_buf
    &&& s.event_triggered <==> told.len() > 0
}

/// A query whose answer has ended, which is still to be returned: what was read
/// is the responses.
spec fn ending(c: ConnectionView, got: Seq<u8>, told: Seq<Seq<u8>>, stream_id: u64) -> bool {
    &&& !c.streams.contains_key(stream_id)
    &&& c.pending.len() > 0
    &&& c.pending.last() == (stream_id, EventView::Finished)
    &&& only_answers(c.pending.drop_last(), stream_id)
    &&& all_fit(told)
    &&& got == frames(told)
    &&& told.len() > 0
}

/// A query whose answer breaks the protocol.
spec fn broken(c: ConnectionView, stream_id: u64) -> bool {
    let s = c.streams[stream_id];
    &&& c.streams.contains_key(stream_id)
    &&& s.fin_received
    &&& !(front(s.recv_buf) is Message)
    &&& !s.event_triggered || s.recv_buf.len() > 0
    &&& forall|i: int| 0 <= i < c.pending.len() ==> (#[trigger] c.pending[i]).0 != stream_id
}

/// How the bytes read and the responses returned are accounted for.
spec fn accounted(
    c: ConnectionView,
    has_ended: bool,
    got: Seq<u8>,
    out: Seq<Seq<u8>>,
    stream_id: u64,
) -> bool {
    let told = out + pending_answers(c.pending, stream_id);
    &&& c.valid()
    &&& !c.is_server
    &&& stream_id % 4 == 0
    &&& stream_id < c.next_query_stream_id
    &&& {
        ||| going_on(c, got, told, stream_id)
        ||| has_ended && ending(c, got, told, stream_id)
        ||| has_ended && silent(c, stream_id)
        ||| has_ended && broken(c, stream_id)
    }
}

/// Whether received bytes are the frames of exactly these messages, at least one.
pub open spec fn all_told(received: Seq<u8>, msgs: Seq<Seq<u8>>) -> bool {
    &&& msgs.len() > 0
    &&& all_fit(msgs)
    &&& received == frames(msgs)
}

/// What the processing of a stream makes of the account.
spec fn processed_account(
    c: ConnectionView,
    quic: TransportView,
    id: u64,
    has_ended: bool,
    got: Seq<u8>,
    out: Seq<Seq<u8>>,
    stream_id: u64,
) -> bool {
    let o = c.process_readable_stream(quic, id);
    let ended_now = has_ended || recv_over(o.quic, stream_id);
    let got2 = if id == stream_id {
        got + bytes_read(quic, o.quic, stream_id)
    } else {
        got
    };
    &&& ended_now ==> o.quic.recv_ended(stream_id)
    &&& match o.result {
        Ok(events) => if events.len() == 0 {
            accounted(o.doq, ended_now, got2, out, stream_id)
        } else {
            let c2 = ConnectionView {
                pending: o.doq.pending + on_stream(id, events.drop_first()),
                ..o.doq
            };
            &&& accounted(
                c2,
                ended_now,
                got2,
                out + answer(Some((id, events[0])), stream_id),
                stream_id,
            )
            &&& id == stream_id && events[0] is Finished ==> all_told(got2, out)
        },
        Err(_) => accounted(o.doq, ended_now, got2, out, stream_id),
    }
}

proof fn processing_another_accounts(
    c: ConnectionView,
    quic: TransportView,
    id: u64,
    has_ended: bool,
    got: Seq<u8>,
    out: Seq<Seq<u8>>,
    stream_id: u64,
)
    requires
        accounted(c, has_ended, got, out, stream_id),
        c.pending.len() == 0,
        has_ended ==> quic.recv_ended(stream_id),
        id != stream_id,
    ensures
        processed_account(c, quic, id, has_ended, got, out, stream_id),
{
    let o = c.process_readable_stream(quic, id);
    processing_keeps_validity(c, quic, id);
    processing_leaves_other_streams_alone(c, quic, id, stream_id);
    processing_keeps_the_rest(c, quic, id);
    if let Ok(found) = o.result {
        if found.len() > 0 {
            let queued = on_stream(id, found.drop_first());
            let c2 = ConnectionView { pending: o.doq.pending + queued, ..o.doq };
            assert(c2.pending =~= queued);
            assert forall|i: int| 0 <= i < queued.len() implies (#[trigger] queued[i]).0 == id by {}
            no_answers_of_another(queued, id, stream_id);
            queued_is_valid(c, quic, id);
            assert(out + answer(Some((id, found[0])), stream_id) =~= out);
        }
    }
}

proof fn processing_keeps_the_rest(c: ConnectionView, quic: TransportView, id: u64)
    ensures
        ({
            let o = c.process_readable_stream(quic, id);
            &&& o.doq.pending == c.pending
            &&& o.doq.next_query_stream_id == c.next_query_stream_id
            &&& o.doq.is_server == c.is_server
        }),
{
}

/// Queuing what was found keeps a connection valid.
proof fn queued_is_valid(c: ConnectionView, quic: TransportView, id: u64)
    requires
        c.valid(),
        !c.is_server,
    ensures
        ({
            let o = c.process_readable_stream(quic, id);
            o.result matches Ok(found) ==> found.len() > 0 ==> (ConnectionView {
                pending: o.doq.pending + on_stream(id, found.drop_first()),
                ..o.doq
            }).valid()
        }),
{
    let o = c.process_readable_stream(quic, id);
    processing_keeps_validity(c, quic, id);
    if let Ok(found) = o.result {
        if found.len() > 0 {
            let queued = on_stream(id, found.drop_first());
            let pending = o.doq.pending + queued;
            assert forall|i: int| 0 <= i < pending.len() implies event_of_role(
                false,
                (#[trigger] pending[i]).1,
            ) by {
                if i >= o.doq.pending.len() {
                    let k = i - o.doq.pending.len();
                    assert(queued[k].1 == found[k + 1]);
                }
            }
        }
    }
}

proof fn no_answers_of_another(pending: Seq<(u64, EventView)>, id: u64, stream_id: u64)
    requires
        id != stream_id,
        forall|i: int| 0 <= i < pending.len() ==> (#[trigger] pending[i]).0 == id,
    ensures
        pending_answers(pending, stream_id) == Seq::<Seq<u8>>::empty(),
    decreases pending.len(),
{
    if pending.len() > 0 {
        let shorter = pending.drop_last();
        assert forall|i: int| 0 <= i < shorter.len() implies (#[trigger] shorter[i]).0 == id by {
            assert(shorter[i] == pending[i]);
        }
        no_answers_of_another(shorter, id, stream_id);
        assert(pending.last() == pending[pending.len() - 1]);
        assert(pending_answers(pending, stream_id) =~= Seq::empty());
    }
}

proof fn no_message_no_messages(buf: Seq<u8>)
    ensures
        front(buf) is Message <==> messages(buf).len() > 0,
        !(front(buf) is Message) ==> remainder(buf) == buf && messages(buf) == Seq::<
            Seq<u8>,
        >::empty(),
{
}

proof fn processing_an_ended_one_accounts(
    c: ConnectionView,
    quic: TransportView,
    got: Seq<u8>,
    out: Seq<Seq<u8>>,
    stream_id: u64,
)
    requires
        accounted(c, true, got, out, stream_id),
        silent(c, stream_id) || broken(c, stream_id),
        c.pending.len() == 0,
        quic.recv_ended(stream_id),
    ensures
        processed_account(c, quic, stream_id, true, got, out, stream_id),
{
    let o = c.process_readable_stream(quic, stream_id);
    processing_keeps_validity(c, quic, stream_id);
    processing_keeps_the_rest(c, quic, stream_id);
    no_message_no_messages(c.streams[stream_id].recv_buf);
    assert(quic.recv_ended(stream_id) ==> o.quic.recv_ended(stream_id));
}

/// What a client makes of bytes that are read.
proof fn processing_accounts(
    c: ConnectionView,
    quic: TransportView,
    has_ended: bool,
    got: Seq<u8>,
    out: Seq<Seq<u8>>,
    stream_id: u64,
)
    requires
        accounted(c, has_ended, got, out, stream_id),
        going_on(c, got, out, stream_id),
        c.pending.len() == 0,
        has_ended ==> quic.recv_ended(stream_id),
    ensures
        processed_account(c, quic, stream_id, has_ended, got, out, stream_id),
{
    let o = c.process_readable_stream(quic, stream_id);
    processing_keeps_validity(c, quic, stream_id);
    processing_keeps_the_rest(c, quic, stream_id);
    queued_is_valid(c, quic, stream_id);
    let s = c.streams[stream_id];
    let q = quic.streams[stream_id];
    no_message_no_messages(s.recv_buf);
    assert(pending_answers(c.pending, stream_id) =~= Seq::empty());
    assert(out + Seq::<Seq<u8>>::empty() =~= out);
    if !quic.streams.contains_key(stream_id) {
        assert(got + bytes_read(quic, o.quic, stream_id) =~= got);
    } else if q.recv_end is Reset {
        assert(got + bytes_read(quic, o.quic, stream_id) =~= got);
        let found = seq![EventView::Reset(q.recv_end->Reset_0)];
        assert(o.result == Ok::<_, Error>(found));
        assert(on_stream(stream_id, found.drop_first()) =~= Seq::empty());
    } else if q.recv_data.len() == 0 && !(q.recv_end is Fin) {
        assert(got + bytes_read(quic, o.quic, stream_id) =~= got);
        assert(responses(messages(s.recv_buf)) =~= Seq::empty());
    } else {
        let buf = s.recv_buf + q.recv_data;
        let fin = q.recv_end is Fin;
        assert(q.recv_data.take(q.recv_data.len() as int) =~= q.recv_data);
        assert(bytes_read(quic, o.quic, stream_id) =~= q.recv_data);
        assert(c.read_stream(quic, stream_id).doq.streams[stream_id] == s.received(
            q.recv_data,
            fin,
        ));
        drained_accounts(c, quic, has_ended, got, out, stream_id);
    }
}

/// The case in which bytes, or the end, are there to be read.
proof fn drained_accounts(
    c: ConnectionView,
    quic: TransportView,
    has_ended: bool,
    got: Seq<u8>,
    out: Seq<Seq<u8>>,
    stream_id: u64,
)
    requires
        accounted(c, has_ended, got, out, stream_id),
        going_on(c, got, out, stream_id),
        c.pending.len() == 0,
        has_ended ==> quic.recv_ended(stream_id),
        quic.streams.contains_key(stream_id),
        !(quic.streams[stream_id].recv_end is Reset),
        quic.streams[stream_id].recv_data.len() > 0 || quic.streams[stream_id].recv_end is Fin,
    ensures
        processed_account(c, quic, stream_id, has_ended, got, out, stream_id),
{
    let o = c.process_readable_stream(quic, stream_id);
    processing_keeps_validity(c, quic, stream_id);
    processing_keeps_the_rest(c, quic, stream_id);
    queued_is_valid(c, quic, stream_id);
    let s = c.streams[stream_id];
    let q = quic.streams[stream_id];
    let fin = q.recv_end is Fin;
    let buf = s.recv_buf + q.recv_data;
    let found = messages(buf);
    let left = remainder(buf);
    let got2 = got + q.recv_data;
    assert(q.recv_data.take(q.recv_data.len() as int) =~= q.recv_data);
    assert(bytes_read(quic, o.quic, stream_id) =~= q.recv_data);
    bytes_are_messages_and_remainder(buf);
    no_message_no_messages(left);
    frames_of_both(out, found);
    assert(got == frames(out) + s.recv_buf);
    assert(got2 =~= frames(out) + buf);
    assert(frames(out) + (frames(found) + left) =~= frames(out) + frames(found) + left);
    assert(got2 == frames(out + found) + left);
    assert((out + found).len() == out.len() + found.len());
    let read = c.with_stream(stream_id, s.received(q.recv_data, fin));
    assert(c.read_stream(quic, stream_id).doq == read);
    assert(read.streams[stream_id].recv_buf == buf);
    assert(fin ==> recv_over(o.quic, stream_id));
    let drained = StreamView {
        recv_buf: left,
        event_triggered: s.event_triggered || found.len() > 0,
        ..s.received(q.recv_data, fin)
    };
    if fin && (!drained.event_triggered || left.len() > 0) {
        assert(o.result == Err::<Seq<EventView>, _>(Error::ProtocolError));
        assert(o.doq.streams[stream_id] == drained);
        assert(broken(o.doq, stream_id));
    } else {
        let all = if fin {
            responses(found).push(EventView::Finished)
        } else {
            responses(found)
        };
        assert(o.result == Ok::<_, Error>(all));
        if all.len() == 0 {
            assert(found =~= Seq::empty());
            assert(out + found =~= out);
            let told = out + pending_answers(o.doq.pending, stream_id);
            assert(going_on(o.doq, got2, told, stream_id)) by {
                assert(pending_answers(o.doq.pending, stream_id) =~= Seq::empty());
                assert(out + Seq::<Seq<u8>>::empty() =~= out);
            }
        } else {
            let queued = on_stream(stream_id, all.drop_first());
            let c2 = ConnectionView { pending: o.doq.pending + queued, ..o.doq };
            assert(c2.pending =~= queued);
            if found.len() == 0 {
                assert(all[0] is Finished);
                assert(queued =~= Seq::empty());
                assert(out + found =~= out);
                assert(got2 =~= frames(out));
                assert(silent(c2, stream_id));
            } else {
                let later = found.drop_first();
                assert(all[0] == EventView::Response { data: found[0] });
                assert(seq![found[0]] + later =~= found);
                let out2 = out + answer(Some((stream_id, all[0])), stream_id);
                assert(out2 =~= out.push(found[0]));
                assert(out2 + later =~= out + found);
                answers_found(stream_id, stream_id, later);
                let told = out2 + pending_answers(c2.pending, stream_id);
                if fin {
                    assert(all.drop_first() =~= responses(later).push(EventView::Finished));
                    assert(left.len() == 0);
                    assert(got2 =~= frames(out + found));
                    assert(queued.drop_last() =~= on_stream(stream_id, responses(later)));
                    assert(ending(c2, got2, told, stream_id));
                } else {
                    assert(all.drop_first() =~= responses(later));
                    assert(going_on(c2, got2, told, stream_id));
                }
            }
        }
    }
}

proof fn any_processing_accounts(
    c: ConnectionView,
    quic: TransportView,
    id: u64,
    has_ended: bool,
    got: Seq<u8>,
    out: Seq<Seq<u8>>,
    stream_id: u64,
)
    requires
        accounted(c, has_ended, got, out, stream_id),
        c.pending.len() == 0,
        has_ended ==> quic.recv_ended(stream_id),
    ensures
        processed_account(c, quic, id, has_ended, got, out, stream_id),
{
    assert(pending_answers(c.pending, stream_id) =~= Seq::empty());
    assert(out + Seq::<Seq<u8>>::empty() =~= out);
    if id != stream_id {
        processing_another_accounts(c, quic, id, has_ended, got, out, stream_id);
    } else if going_on(c, got, out, stream_id) {
        processing_accounts(c, quic, has_ended, got, out, stream_id);
    } else {
        processing_an_ended_one_accounts(c, quic, got, out, stream_id);
    }
}

proof fn polling_streams_accounts(
    c: ConnectionView,
    quic: TransportView,
    ids: Seq<u64>,
    has_ended: bool,
    got: Seq<u8>,
    out: Seq<Seq<u8>>,
    stream_id: u64,
)
    requires
        accounted(c, has_ended, got, out, stream_id),
        c.pending.len() == 0,
        has_ended ==> quic.recv_ended(stream_id),
    ensures
        ({
            let o = c.poll_streams(quic, ids);
            let ended_now = has_ended || recv_over(o.quic, stream_id);
            let got2 = got + read_in_streams(c, quic, ids, stream_id);
            match o.result {
                Ok((id, event)) => {
                    &&& accounted(
                        o.doq,
                        ended_now,
                        got2,
                        out + answer(Some((id, event)), stream_id),
                        stream_id,
                    )
                    &&& id == stream_id && event is Finished ==> all_told(got2, out)
                },
                Err(_) => accounted(o.doq, ended_now, got2, out, stream_id),
            }
        }),
    decreases ids.len(),
{
    let read = read_in_streams(c, quic, ids, stream_id);
    if ids.len() == 0 {
        assert(got + read =~= got);
    } else {
        let o = c.poll_streams(quic, ids);
        let id = ids[0];
        let step = c.process_readable_stream(quic, id);
        let ended_now = has_ended || recv_over(step.quic, stream_id);
        let now = if id == stream_id {
            bytes_read(quic, step.quic, stream_id)
        } else {
            Seq::empty()
        };
        if !c.is_server && c.streams.contains_key(id) && c.probe(quic, id).result is Err {
            assert(got + read =~= got);
        } else {
            any_processing_accounts(c, quic, id, has_ended, got, out, stream_id);
            processing_keeps_the_rest(c, quic, id);
            assert(id != stream_id ==> got + now =~= got);
            if step.result is Ok && step.result->Ok_0.len() == 0 {
                polling_streams_accounts(
                    step.doq,
                    step.quic,
                    ids.drop_first(),
                    ended_now,
                    got + now,
                    out,
                    stream_id,
                );
                let rest = read_in_streams(step.doq, step.quic, ids.drop_first(), stream_id);
                assert(got + (now + rest) =~= (got + now) + rest);
                if recv_over(step.quic, stream_id) {
                    polling_streams_keeps_over(step.doq, step.quic, ids.drop_first(), stream_id);
                }
            }
        }
    }
}

/// What a poll makes of the account.
proof fn polling_accounts(
    c: ConnectionView,
    quic: TransportView,
    has_ended: bool,
    got: Seq<u8>,
    out: Seq<Seq<u8>>,
    stream_id: u64,
)
    requires
        accounted(c, has_ended, got, out, stream_id),
        has_ended ==> quic.recv_ended(stream_id),
    ensures
        ({
            let o = c.poll(quic);
            let ended_now = has_ended || recv_over(o.quic, stream_id);
            let got2 = got + read_in_poll(c, quic, stream_id);
            match o.result {
                Ok((id, event)) => {
                    &&& accounted(
                        o.doq,
                        ended_now,
                        got2,
                        out + answer(Some((id, event)), stream_id),
                        stream_id,
                    )
                    &&& id == stream_id && event is Finished ==> all_told(got2, out)
                },
                Err(_) => accounted(o.doq, ended_now, got2, out, stream_id),
            }
        }),
{
    if quic.local_error is Some {
        assert(got + read_in_poll(c, quic, stream_id) =~= got);
    } else if c.pending.len() == 0 {
        polling_streams_accounts(c, quic, quic.readable, has_ended, got, out, stream_id);
    } else {
        assert(got + read_in_poll(c, quic, stream_id) =~= got);
        polling_keeps_validity(c, quic);
        let first = c.pending[0];
        let rest = c.pending.drop_first();
        let told = out + pending_answers(c.pending, stream_id);
        let out2 = out + answer(Some(first), stream_id);
        first_pending_answer(c.pending, stream_id);
        assert(out2 + pending_answers(rest, stream_id) =~= told);
        assert forall|i: int| 0 <= i < rest.len() implies #[trigger] rest[i]
            == c.pending[i + 1] by {}
        let o = c.poll(quic);
        if going_on(c, got, told, stream_id) {
            assert(going_on(o.doq, got, told, stream_id));
        } else if has_ended && ending(c, got, told, stream_id) {
            if rest.len() > 0 {
                let p = c.pending.drop_last();
                assert(p[0] == first);
                assert(rest.last() == c.pending.last());
                assert forall|i: int| 0 <= i < rest.drop_last().len() implies #[trigger]
                    rest.drop_last()[i] == p[i + 1] by {}
                assert(ending(o.doq, got, told, stream_id));
            } else {
                assert(first == c.pending.last());
                assert(pending_answers(rest, stream_id) =~= Seq::empty());
                assert(out2 =~= out);
                assert(told =~= out);
                assert(silent(o.doq, stream_id));
            }
        } else if silent(c, stream_id) {
            assert(first.0 != stream_id);
            assert(silent(o.doq, stream_id));
        } else {
            assert(broken(o.doq, stream_id));
        }
    }
}

/// Whether what was received on a stream is as it was.
spec fn untouched(c: ConnectionView, c2: ConnectionView, stream_id: u64) -> bool {
    &&& c2.is_server == c.is_server
    &&& c2.next_query_stream_id >= c.next_query_stream_id
    &&& c2.streams.contains_key(stream_id) == c.streams.contains_key(stream_id)
    &&& c.streams.contains_key(stream_id) ==> {
        &&& c2.streams[stream_id].fin_received == c.streams[stream_id].fin_received
        &&& c2.streams[stream_id].recv_buf == c.streams[stream_id].recv_buf
        &&& c2.streams[stream_id].event_triggered == c.streams[stream_id].event_triggered
    }
}

proof fn untouched_is_accounted(
    c: ConnectionView,
    c2: ConnectionView,
    has_ended: bool,
    got: Seq<u8>,
    out: Seq<Seq<u8>>,
    stream_id: u64,
)
    requires
        accounted(c, has_ended, got, out, stream_id),
        untouched(c, c2, stream_id),
        c2.valid(),
        c2.pending == c.pending,
    ensures
        accounted(c2, has_ended, got, out, stream_id),
{
    let told = out + pending_answers(c.pending, stream_id);
    if going_on(c, got, told, stream_id) {
        assert(going_on(c2, got, told, stream_id));
    } else if ending(c, got, told, stream_id) {
        assert(ending(c2, got, told, stream_id));
    } else if silent(c, stream_id) {
        assert(silent(c2, stream_id));
    } else {
        assert(broken(c2, stream_id));
    }
}

proof fn flushing_leaves_untouched(c: ConnectionView, quic: TransportView, id: u64, stream_id: u64)
    ensures
        untouched(c, c.flush_query(quic, id).doq, stream_id),
        c.flush_query(quic, id).doq.pending == c.pending,
{
}

proof fn queries_leave_untouched(
    c: ConnectionView,
    quic: TransportView,
    data: Seq<u8>,
    stream_id: u64,
)
    requires
        stream_id != c.next_query_stream_id,
    ensures
        untouched(c, c.send_query(quic, data).doq, stream_id),
        c.send_query(quic, data).doq.pending == c.pending,
{
    let id = c.next_query_stream_id;
    let registered = c.with_stream(id, StreamView::query(data));
    let opened = quic.send(id, Seq::empty(), false).0;
    flushing_leaves_untouched(registered, opened, id, stream_id);
}

proof fn others_leave_untouched(
    c: ConnectionView,
    quic: TransportView,
    id: u64,
    data: Seq<u8>,
    fin: bool,
    error: u64,
    stream_id: u64,
)
    requires
        id != stream_id,
    ensures
        untouched(c, c.send_response(quic, id, data, fin).doq, stream_id),
        c.send_response(quic, id, data, fin).doq.pending == c.pending,
        untouched(c, c.flush_response(quic, id).doq, stream_id),
        c.flush_response(quic, id).doq.pending == c.pending,
        untouched(c, c.reset_stream(quic, id, error).doq, stream_id),
        c.reset_stream(quic, id, error).doq.pending == c.pending,
        untouched(c, c.cancel_query(quic, id, error).doq, stream_id),
        c.cancel_query(quic, id, error).doq.pending == c.pending || c.cancel_query(
            quic,
            id,
            error,
        ).doq.pending == c.pending.filter(of_other_stream(id)),
{
}

/// The account does not change when the pending events of another stream are
/// dropped.
proof fn dropping_others_accounts(
    c: ConnectionView,
    c2: ConnectionView,
    id: u64,
    has_ended: bool,
    got: Seq<u8>,
    out: Seq<Seq<u8>>,
    stream_id: u64,
)
    requires
        accounted(c, has_ended, got, out, stream_id),
        untouched(c, c2, stream_id),
        c2.valid(),
        c2.pending == c.pending.filter(of_other_stream(id)),
        id != stream_id,
    ensures
        accounted(c2, has_ended, got, out, stream_id),
{
    let f = of_other_stream(id);
    let p = c.pending;
    let told = out + pending_answers(p, stream_id);
    other_answers_kept(p, id, stream_id);
    events_of_other_streams(p, id);
    if going_on(c, got, told, stream_id) {
        assert forall|i: int|
            0 <= i < c2.pending.len() && (#[trigger] c2.pending[i]).0
                == stream_id implies c2.pending[i].1 is Response by {
            assert(p.contains(c2.pending[i]));
        }
        assert(going_on(c2, got, told, stream_id));
    } else if has_ended && ending(c, got, told, stream_id) {
        events_of_other_streams(p.drop_last(), id);
        assert(c2.pending.drop_last() =~= p.drop_last().filter(f)) by {
            reveal(Seq::filter);
        }
        let q = c2.pending.drop_last();
        assert forall|i: int| 0 <= i < q.len() && (#[trigger] q[i]).0 == stream_id implies q[i].1
            is Response by {
            assert(p.drop_last().contains(q[i]));
        }
        assert(ending(c2, got, told, stream_id));
    } else {
        assert forall|i: int| 0 <= i < c2.pending.len() implies (#[trigger] c2.pending[i]).0
            != stream_id by {
            assert(p.contains(c2.pending[i]));
        }
        if silent(c, stream_id) {
            assert(silent(c2, stream_id));
        } else {
            assert(broken(c2, stream_id));
        }
    }
}

proof fn calling_accounts(
    c: ConnectionView,
    call: Call,
    has_ended: bool,
    got: Seq<u8>,
    out: Seq<Seq<u8>>,
    stream_id: u64,
)
    requires
        accounted(c, has_ended, got, out, stream_id),
        only_polled(seq![call], stream_id),
        !(call.op is Poll),
    ensures
        accounted(called(c, call).doq, has_ended, got, out, stream_id),
{
    let quic = call.quic;
    let c2 = called(c, call).doq;
    let none = Seq::<u8>::empty();
    assert(seq![call][0] == call);
    match call.op {
        Op::Poll => {},
        Op::SendQuery { data } => {
            queries_keep_validity(c, quic, data, 0);
            queries_leave_untouched(c, quic, data, stream_id);
            untouched_is_accounted(c, c2, has_ended, got, out, stream_id);
        },
        Op::FlushQuery { stream_id: id } => {
            queries_keep_validity(c, quic, none, id);
            flushing_leaves_untouched(c, quic, id, stream_id);
            untouched_is_accounted(c, c2, has_ended, got, out, stream_id);
        },
        Op::CancelQuery { stream_id: id, error } => {
            abandoning_keeps_validity(c, quic, id, error);
            others_leave_untouched(c, quic, id, none, false, error, stream_id);
            if c2.pending == c.pending {
                untouched_is_accounted(c, c2, has_ended, got, out, stream_id);
            } else {
                dropping_others_accounts(c, c2, id, has_ended, got, out, stream_id);
            }
        },
        Op::SendResponse { stream_id: id, data, fin } => {
            responses_keep_validity(c, quic, id, data, fin);
            others_leave_untouched(c, quic, id, data, fin, 0, stream_id);
            untouched_is_accounted(c, c2, has_ended, got, out, stream_id);
        },
        Op::FlushResponse { stream_id: id } => {
            responses_keep_validity(c, quic, id, none, false);
            others_leave_untouched(c, quic, id, none, false, 0, stream_id);
            untouched_is_accounted(c, c2, has_ended, got, out, stream_id);
        },
        Op::ResetStream { stream_id: id, error } => {
            abandoning_keeps_validity(c, quic, id, error);
            others_leave_untouched(c, quic, id, none, false, error, stream_id);
            untouched_is_accounted(c, c2, has_ended, got, out, stream_id);
        },
    }
}

proof fn run_accounts(c: ConnectionView, calls: Seq<Call>, stream_id: u64)
    requires
        accounted(c, false, Seq::empty(), Seq::empty(), stream_id),
        ends_once(c, calls, stream_id),
        only_polled(calls, stream_id),
    ensures
        accounted(
            after(c, calls),
            ended(c, calls, stream_id),
            bytes_received(c, calls, stream_id),
            answers(c, calls, stream_id),
            stream_id,
        ),
        calls.len() > 0 && last_call(c, calls).event == Some((stream_id, EventView::Finished))
            ==> all_told(
            bytes_received(c, calls, stream_id),
            answers(c, calls, stream_id),
        ),
    decreases calls.len(),
{
    if calls.len() > 0 {
        let shorter = calls.drop_last();
        assert(only_polled(shorter, stream_id)) by {
            assert forall|k: int| 0 <= k < shorter.len() implies #[trigger] shorter[k]
                == calls[k] by {}
        }
        run_accounts(c, shorter, stream_id);
        let before = after(c, shorter);
        let has_ended = ended(c, shorter, stream_id);
        let got = bytes_received(c, shorter, stream_id);
        let out = answers(c, shorter, stream_id);
        let call = calls.last();
        let o = last_call(c, calls);
        assert(call == calls[calls.len() - 1]);
        if call.op is Poll {
            polling_accounts(before, call.quic, has_ended, got, out, stream_id);
            assert(o.event is None || o.event == Some((stream_id, EventView::Finished)) ==> out
                + answer(o.event, stream_id) =~= out);
        } else {
            assert(only_polled(seq![call], stream_id));
            calling_accounts(before, call, has_ended, got, out, stream_id);
            assert(out + answer(o.event, stream_id) =~= out);
        }
    }
}

/// When a client is told that an answer is finished, it was told all of it: the
/// bytes that were read from the stream of the query are the frames of exactly
/// the responses that were returned for it, in their order and at least one.
/// (That no event of the stream follows is
/// [`events_end_their_stream`](crate::laws::runs::events_end_their_stream).)
pub proof fn finished_answer_is_what_was_read(
    before: ConnectionView,
    quic: TransportView,
    data: Seq<u8>,
    calls: Seq<Call>,
)
    requires
        ({
            let stream_id = before.next_query_stream_id;
            let c = before.send_query(quic, data).doq;
            &&& before.valid()
            &&& before.send_query(quic, data).result is Ok
            &&& forall|i: int|
                0 <= i < before.pending.len() ==> (#[trigger] before.pending[i]).0 != stream_id
            &&& ends_once(c, calls, stream_id)
            &&& only_polled(calls, stream_id)
            &&& calls.len() > 0
            &&& last_call(c, calls).event == Some((stream_id, EventView::Finished))
        }),
    ensures
        ({
            let stream_id = before.next_query_stream_id;
            let c = before.send_query(quic, data).doq;
            all_told(bytes_received(c, calls, stream_id), answers(c, calls, stream_id))
        }),
{
    query_starts_an_account(before, quic, data);
    run_accounts(before.send_query(quic, data).doq, calls, before.next_query_stream_id);
}

proof fn query_starts_an_account(before: ConnectionView, quic: TransportView, data: Seq<u8>)
    requires
        before.valid(),
        before.send_query(quic, data).result is Ok,
        forall|i: int|
            0 <= i < before.pending.len() ==> (#[trigger] before.pending[i]).0
                != before.next_query_stream_id,
    ensures
        accounted(
            before.send_query(quic, data).doq,
            false,
            Seq::empty(),
            Seq::empty(),
            before.next_query_stream_id,
        ),
{
    let stream_id = before.next_query_stream_id;
    let c = before.send_query(quic, data).doq;
    let none = Seq::<u8>::empty();
    let no_messages = Seq::<Seq<u8>>::empty();
    queries_keep_validity(before, quic, data, 0);
    query_starts_empty(before, quic, data);
    no_answers_without_events(c.pending, stream_id);
    assert(no_messages + no_messages =~= no_messages);
    assert(none + none =~= none);
    assert(going_on(c, none, no_messages + pending_answers(c.pending, stream_id), stream_id));
}

proof fn query_starts_empty(before: ConnectionView, quic: TransportView, data: Seq<u8>)
    requires
        before.valid(),
        before.send_query(quic, data).result is Ok,
    ensures
        ({
            let stream_id = before.next_query_stream_id;
            let c = before.send_query(quic, data).doq;
            let s = c.streams[stream_id];
            &&& !c.is_server
            &&& stream_id % 4 == 0
            &&& stream_id < c.next_query_stream_id
            &&& c.pending == before.pending
            &&& c.streams.contains_key(stream_id)
            &&& !s.fin_received
            &&& s.recv_buf == Seq::<u8>::empty()
            &&& !s.event_triggered
        }),
{
    let stream_id = before.next_query_stream_id;
    let registered = before.with_stream(stream_id, StreamView::query(data));
    let opened = quic.send(stream_id, Seq::empty(), false).0;
    flushing_leaves_untouched(registered, opened, stream_id, stream_id);
}

proof fn no_answers_without_events(pending: Seq<(u64, EventView)>, stream_id: u64)
    requires
        forall|i: int| 0 <= i < pending.len() ==> (#[trigger] pending[i]).0 != stream_id,
    ensures
        pending_answers(pending, stream_id) == Seq::<Seq<u8>>::empty(),
    decreases pending.len(),
{
    if pending.len() > 0 {
        let shorter = pending.drop_last();
        assert forall|i: int| 0 <= i < shorter.len() implies (#[trigger] shorter[i]).0
            != stream_id by {
            assert(shorter[i] == pending[i]);
        }
        no_answers_without_events(shorter, stream_id);
        assert(pending.last() == pending[pending.len() - 1]);
        assert(pending_answers(pending, stream_id) =~= Seq::empty());
    }
}

} // verus!
