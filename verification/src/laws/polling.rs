//! Laws of which streams a poll reads, and what it returns for them.

use vstd::prelude::*;

use crate::connection::Error;
use crate::laws::closing::closed_for_protocol_error;
use crate::laws::isolation::processing_leaves_other_streams_alone;
use crate::laws::reading::{
    at_hand, held, is_allowed, is_dealt_with, nothing_is_read_of_nothing,
    passed_over_is_dealt_with, streams_of_other_kinds_are_not_read,
};
use crate::model::{ConnectionView, EventView, Outcome};
use crate::transport::{ids_without, other_than, TransportError, TransportView};
use crate::wire::frame;

verus! {

/// Whether the server has not asked a client to stop the query of a stream, if it
/// has one there.
pub open spec fn is_unhindered(c: ConnectionView, quic: TransportView, stream_id: u64) -> bool {
    !c.is_server && c.streams.contains_key(stream_id) ==> quic.streams.contains_key(stream_id)
        && quic.streams[stream_id].stopped is None
}

proof fn processing_fails_for_a_reason(c: ConnectionView, quic: TransportView, stream_id: u64)
    ensures
        c.process_readable_stream(quic, stream_id).result matches Err(e) ==> e != Error::Done,
{
}

proof fn polling_streams_reads_all(
    c: ConnectionView,
    quic: TransportView,
    ids: Seq<u64>,
    x: u64,
)
    requires
        c.poll_streams(quic, ids).result == Err::<(u64, EventView), _>(Error::Done),
        !quic.closed,
        quic.local_error is None,
    ensures
        ({
            let o = c.poll_streams(quic, ids);
            &&& ids.contains(x) ==> is_allowed(c.is_server, x) && is_unhindered(c, quic, x)
            &&& x % 4 == 0 ==> {
                &&& ids.contains(x) || is_dealt_with(c, quic, x) ==> is_dealt_with(
                    o.doq,
                    o.quic,
                    x,
                )
                &&& held(o.doq, x) + at_hand(o.quic, x) == held(c, x) + at_hand(quic, x)
            }
        }),
    decreases ids.len(),
{
    if ids.len() > 0 {
        let id = ids[0];
        let step = c.process_readable_stream(quic, id);
        let rest = ids.drop_first();
        assert(ids.contains(x) ==> x == id || rest.contains(x)) by {
            if ids.contains(x) && x != id {
                let i = choose|i: int| 0 <= i < ids.len() && ids[i] == x;
                assert(rest[i - 1] == x);
            }
        }
        processing_fails_for_a_reason(c, quic, id);
        assert(step.result is Ok && step.result->Ok_0.len() == 0) by {
            fails_when_open(c, quic);
            fails_when_open(step.doq, step.quic);
        }
        assert(step.result->Ok_0 =~= Seq::<EventView>::empty());
        passed_over_is_dealt_with(c, quic, id);
        polling_streams_reads_all(step.doq, step.quic, rest, x);
        if x != id {
            processing_leaves_other_streams_alone(c, quic, id, x);
            assert(held(step.doq, x) == held(c, x));
            assert(at_hand(step.quic, x) == at_hand(quic, x));
        } else {
            let o = c.poll_streams(quic, ids);
            if x % 4 == 0 {
                let got = held(c, x) + at_hand(quic, x);
                assert(held(step.doq, x) + at_hand(step.quic, x) =~= got);
            }
        }
    }
}

proof fn fails_when_open(c: ConnectionView, quic: TransportView)
    requires
        !quic.closed,
        quic.local_error is None,
    ensures
        c.fail::<(u64, EventView)>(quic).result == Err::<(u64, EventView), _>(
            Error::ProtocolError,
        ),
        c.fail::<()>(quic).result == Err::<(), _>(Error::ProtocolError),
{
}

/// A poll that has nothing to report has read everything: of each stream that was
/// readable nothing is left on the QUIC layer, what was there is held behind what
/// was held before, and it is neither a whole message nor malformed. None of the
/// streams is one that breaks the protocol.
pub proof fn nothing_to_report_means_all_was_read(
    c: ConnectionView,
    quic: TransportView,
    stream_id: u64,
)
    requires
        c.poll(quic).result == Err::<(u64, EventView), _>(Error::Done),
        !quic.closed,
        quic.local_error is None,
        quic.readable.contains(stream_id),
    ensures
        ({
            let o = c.poll(quic);
            &&& c.pending.len() == 0
            &&& is_allowed(c.is_server, stream_id)
            &&& is_unhindered(c, quic, stream_id)
            &&& stream_id % 4 == 0 ==> {
                &&& is_dealt_with(o.doq, o.quic, stream_id)
                &&& held(o.doq, stream_id) == held(c, stream_id) + at_hand(quic, stream_id)
            }
        }),
{
    polling_streams_reads_all(c, quic, quic.readable, stream_id);
    let o = c.poll(quic);
    if stream_id % 4 == 0 {
        assert(at_hand(o.quic, stream_id) =~= Seq::empty());
        assert(held(o.doq, stream_id) + at_hand(o.quic, stream_id) =~= held(o.doq, stream_id));
    }
}

/// What a poll without pending events makes of the first readable stream. If that
/// has something to say, the first of it is returned at once and the rest is
/// pending. If it breaks the protocol, the connection is closed for that, unless
/// it has ended anyway. If it cannot be read, that is the error. If it has nothing
/// to say, the poll goes on as if it had been read before.
pub proof fn first_readable_stream_decides(c: ConnectionView, quic: TransportView)
    requires
        c.pending.len() == 0,
        quic.local_error is None,
        quic.readable.len() > 0,
        is_unhindered(c, quic, quic.readable[0]),
    ensures
        ({
            let id = quic.readable[0];
            let step = c.process_readable_stream(quic, id);
            let o = c.poll(quic);
            match step.result {
                Ok(events) => if events.len() > 0 {
                    &&& o.result == Ok::<_, Error>((id, events[0]))
                    &&& o.quic == step.quic
                    &&& o.doq == (ConnectionView { pending: o.doq.pending, ..step.doq })
                    &&& o.doq.pending.len() == events.len() - 1
                    &&& forall|i: int|
                        0 <= i < o.doq.pending.len() ==> #[trigger] o.doq.pending[i] == (
                            id,
                            events[i + 1],
                        )
                } else {
                    step.quic.readable == quic.readable.drop_first() ==> o == step.doq.poll(
                        step.quic,
                    )
                },
                Err(Error::ProtocolError) => {
                    &&& o.doq == step.doq
                    &&& if quic.closed {
                        o.result == Err::<(u64, EventView), _>(Error::Done) && o.quic == step.quic
                    } else {
                        &&& o.result == Err::<(u64, EventView), _>(Error::ProtocolError)
                        &&& o.quic == closed_for_protocol_error(step.quic)
                    }
                },
                Err(e) => o == (Outcome::<(u64, EventView)> {
                    doq: step.doq,
                    quic: step.quic,
                    result: Err(e),
                }),
            }
        }),
{
    let id = quic.readable[0];
    let step = c.process_readable_stream(quic, id);
    let o = c.poll(quic);
    processing_keeps_connection(c, quic, id);
    if step.result == Err::<Seq<EventView>, _>(Error::ProtocolError) && !quic.closed {
        assert(o.quic =~= closed_for_protocol_error(step.quic));
    }
}

proof fn processing_keeps_connection(c: ConnectionView, quic: TransportView, stream_id: u64)
    ensures
        ({
            let o = c.process_readable_stream(quic, stream_id);
            &&& o.doq.pending == c.pending
            &&& o.quic.closed == quic.closed
            &&& o.quic.local_error == quic.local_error
        }),
{
}

/// A server that asks a client to stop a query breaks the protocol, which a poll
/// sees when the stream is readable; a query stream that the QUIC layer does not
/// know is an error.
pub proof fn stopped_query_stream_breaks_the_protocol(c: ConnectionView, quic: TransportView)
    requires
        c.pending.len() == 0,
        quic.local_error is None,
        quic.readable.len() > 0,
        !is_unhindered(c, quic, quic.readable[0]),
    ensures
        ({
            let id = quic.readable[0];
            c.poll(quic) == if quic.streams.contains_key(id) && quic.closed {
                Outcome::<(u64, EventView)> { doq: c, quic, result: Err(Error::Done) }
            } else if quic.streams.contains_key(id) {
                Outcome::<(u64, EventView)> {
                    doq: c,
                    quic: closed_for_protocol_error(quic),
                    result: Err(Error::ProtocolError),
                }
            } else {
                Outcome::<(u64, EventView)> {
                    doq: c,
                    quic,
                    result: Err(Error::TransportError(TransportError::InvalidStreamState(id))),
                }
            }
        }),
{
    let id = quic.readable[0];
    if quic.streams.contains_key(id) && !quic.closed {
        assert(c.poll(quic).quic =~= closed_for_protocol_error(quic));
    }
}

/// Without events that are pending or streams that are readable there is nothing
/// to report, and nothing changes. The same holds once the connection was closed
/// here.
pub proof fn poll_without_readable_streams_does_nothing(c: ConnectionView, quic: TransportView)
    requires
        quic.local_error is Some || (c.pending.len() == 0 && quic.readable.len() == 0),
    ensures
        c.poll(quic) == (Outcome::<(u64, EventView)> { doq: c, quic, result: Err(Error::Done) }),
{
}

/// The QUIC layer with other streams reported as readable.
pub open spec fn with_readable(quic: TransportView, ids: Seq<u64>) -> TransportView {
    TransportView { readable: ids, ..quic }
}

proof fn processing_ignores_readable(
    c: ConnectionView,
    quic: TransportView,
    ids: Seq<u64>,
    stream_id: u64,
)
    ensures
        ({
            let a = c.process_readable_stream(quic, stream_id);
            let b = c.process_readable_stream(with_readable(quic, ids), stream_id);
            &&& a.doq == b.doq
            &&& a.result == b.result
            &&& b.quic == with_readable(a.quic, b.quic.readable)
        }),
{
    let a = c.process_readable_stream(quic, stream_id);
    let b = c.process_readable_stream(with_readable(quic, ids), stream_id);
    assert(a.doq =~= b.doq);
    assert(b.quic =~= with_readable(a.quic, b.quic.readable));
}

proof fn polling_streams_ignores_readable(
    c: ConnectionView,
    quic: TransportView,
    ids: Seq<u64>,
    list: Seq<u64>,
)
    ensures
        ({
            let a = c.poll_streams(quic, list);
            let b = c.poll_streams(with_readable(quic, ids), list);
            &&& a.doq == b.doq
            &&& a.result == b.result
        }),
    decreases list.len(),
{
    if list.len() > 0 {
        let id = list[0];
        let a = c.process_readable_stream(quic, id);
        let b = c.process_readable_stream(with_readable(quic, ids), id);
        processing_ignores_readable(c, quic, ids, id);
        if a.result is Ok && a.result->Ok_0.len() == 0 {
            polling_streams_ignores_readable(
                a.doq,
                a.quic,
                b.quic.readable,
                list.drop_first(),
            );
        }
    }
}

/// A stream that the connection has opened for something else than a query is
/// passed over: a poll returns, and makes of the connection, what it does without
/// that stream.
pub proof fn own_stream_of_another_kind_does_not_matter(c: ConnectionView, quic: TransportView)
    requires
        c.pending.len() == 0,
        c.valid(),
        quic.readable.len() > 0,
        quic.readable[0] % 4 != 0,
        c.is_server != (quic.readable[0] % 4 == 2),
    ensures
        ({
            let o = c.poll(quic);
            let without = c.poll(with_readable(quic, quic.readable.drop_first()));
            o.result == without.result && o.doq == without.doq
        }),
{
    polling_streams_ignores_readable(
        c,
        quic,
        quic.readable.drop_first(),
        quic.readable.drop_first(),
    );
    assert(!c.streams.contains_key(quic.readable[0]));
}

proof fn dealt_with_is_passed_over(c: ConnectionView, quic: TransportView, stream_id: u64)
    requires
        is_allowed(c.is_server, stream_id),
        stream_id % 4 == 0 ==> is_dealt_with(c, quic, stream_id),
    ensures
        ({
            let o = c.process_readable_stream(quic, stream_id);
            &&& o.result == Ok::<_, Error>(Seq::<EventView>::empty())
            &&& o.doq == c
            &&& o.quic == with_readable(quic, o.quic.readable)
        }),
{
    if stream_id % 4 == 0 {
        let bytes = held(c, stream_id);
        if bytes.len() >= 2 && bytes.len() == 2 + bytes[0] * 256 + bytes[1] {
            assert(bytes =~= frame(bytes.skip(2)));
        }
        nothing_is_read_of_nothing(c, quic, stream_id, bytes.skip(2));
    } else {
        streams_of_other_kinds_are_not_read(c, quic, stream_id);
    }
}

proof fn polling_streams_dealt_with(c: ConnectionView, quic: TransportView, ids: Seq<u64>)
    requires
        c.is_server,
        forall|i: int|
            0 <= i < ids.len() ==> is_allowed(true, #[trigger] ids[i]) && (ids[i] % 4 == 0
                ==> is_dealt_with(c, quic, ids[i])),
    ensures
        c.poll_streams(quic, ids).result == Err::<(u64, EventView), _>(Error::Done),
    decreases ids.len(),
{
    if ids.len() > 0 {
        let step = c.process_readable_stream(quic, ids[0]);
        let rest = ids.drop_first();
        dealt_with_is_passed_over(c, quic, ids[0]);
        assert forall|i: int| 0 <= i < rest.len() implies is_allowed(true, #[trigger] rest[i]) && (
        rest[i] % 4 == 0 ==> is_dealt_with(step.doq, step.quic, rest[i])) by {
            assert(rest[i] == ids[i + 1]);
        }
        polling_streams_dealt_with(step.doq, step.quic, rest);
    }
}

proof fn fewer_are_readable(
    c: ConnectionView,
    quic: TransportView,
    ids: Seq<u64>,
    x: u64,
)
    ensures
        c.poll_streams(quic, ids).quic.readable.contains(x) ==> quic.readable.contains(x),
    decreases ids.len(),
{
    if ids.len() > 0 {
        let step = c.process_readable_stream(quic, ids[0]);
        filtered_ids_were_there(quic.readable, ids[0], x);
        assert(step.quic.readable == quic.readable || step.quic.readable == ids_without(
            quic.readable,
            ids[0],
        ));
        if step.result is Ok && step.result->Ok_0.len() == 0 {
            fewer_are_readable(step.doq, step.quic, ids.drop_first(), x);
        }
    }
}

proof fn filtered_ids_were_there(ids: Seq<u64>, stream_id: u64, x: u64)
    ensures
        ids_without(ids, stream_id).contains(x) ==> ids.contains(x),
    decreases ids.len(),
{
    reveal(Seq::filter);
    if ids.len() > 0 {
        filtered_ids_were_there(ids.drop_last(), stream_id, x);
        let f = other_than(stream_id);
        let shorter = ids.drop_last().filter(f);
        if ids_without(ids, stream_id).contains(x) {
            if x != ids.last() {
                assert(shorter.contains(x)) by {
                    let all = ids.filter(f);
                    let i = choose|i: int| 0 <= i < all.len() && all[i] == x;
                    if f(ids.last()) {
                        assert(all == shorter.push(ids.last()));
                        assert(shorter[i] == x);
                    }
                }
                let j = choose|j: int| 0 <= j < ids.drop_last().len() && ids.drop_last()[j] == x;
                assert(ids[j] == x);
            } else {
                assert(ids[ids.len() - 1] == x);
            }
        }
    }
}

/// Once a server has nothing to report, that stays so until something arrives.
pub proof fn nothing_to_report_stays_so(c: ConnectionView, quic: TransportView)
    requires
        c.is_server,
        !quic.closed,
        quic.local_error is None,
        c.poll(quic).result == Err::<(u64, EventView), _>(Error::Done),
    ensures
        ({
            let o = c.poll(quic);
            o.doq.poll(o.quic).result == Err::<(u64, EventView), _>(Error::Done)
        }),
{
    let o = c.poll(quic);
    let ids = o.quic.readable;
    polling_keeps_role(c, quic, quic.readable);
    assert forall|i: int| 0 <= i < ids.len() implies is_allowed(true, #[trigger] ids[i]) && (
    ids[i] % 4 == 0 ==> is_dealt_with(o.doq, o.quic, ids[i])) by {
        assert(ids.contains(ids[i]));
        fewer_are_readable(c, quic, quic.readable, ids[i]);
        nothing_to_report_means_all_was_read(c, quic, ids[i]);
    }
    polling_streams_dealt_with(o.doq, o.quic, ids);
}

proof fn polling_keeps_role(c: ConnectionView, quic: TransportView, ids: Seq<u64>)
    ensures
        c.poll_streams(quic, ids).doq.is_server == c.is_server,
        c.poll_streams(quic, ids).result is Err ==> c.poll_streams(quic, ids).doq.pending
            == c.pending,
        c.poll_streams(quic, ids).quic.closed == quic.closed,
    decreases ids.len(),
{
    if ids.len() > 0 {
        let step = c.process_readable_stream(quic, ids[0]);
        passing_keeps_role(c, quic, ids[0]);
        if step.result is Ok && step.result->Ok_0.len() == 0 {
            polling_keeps_role(step.doq, step.quic, ids.drop_first());
        }
    }
}

proof fn passing_keeps_role(c: ConnectionView, quic: TransportView, id: u64)
    ensures
        ({
            let o = c.process_readable_stream(quic, id);
            &&& o.doq.is_server == c.is_server
            &&& o.doq.pending == c.pending
            &&& o.quic.closed == quic.closed
        }),
{
}

/// Whether a connection goes on: polling does not end it but for a protocol error.
pub(crate) proof fn polling_does_not_end_a_connection(c: ConnectionView, quic: TransportView)
    ensures
        c.poll(quic).quic.closed == quic.closed,
        c.poll(quic).doq.is_server == c.is_server,
{
    polling_keeps_role(c, quic, quic.readable);
}

} // verus!
