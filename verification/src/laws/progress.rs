//! Why polling comes to an end.

use vstd::prelude::*;

use crate::model::ConnectionView;
use crate::transport::{ids_without, TransportView};

verus! {

proof fn ids_without_is_shorter(ids: Seq<u64>, stream_id: u64)
    ensures
        ids_without(ids, stream_id).len() <= ids.len(),
        ids.contains(stream_id) ==> ids_without(ids, stream_id).len() < ids.len(),
    decreases ids.len(),
{
    reveal(Seq::filter);
    if ids.len() > 0 {
        ids_without_is_shorter(ids.drop_last(), stream_id);
        if ids.contains(stream_id) && ids.last() != stream_id {
            let i = choose|i: int| 0 <= i < ids.len() && ids[i] == stream_id;
            assert(ids.drop_last()[i] == stream_id);
        }
    }
}

proof fn polling_streams_uses_one_up(
    c: ConnectionView,
    quic: TransportView,
    ids: Seq<u64>,
    bound: nat,
)
    requires
        quic.readable.len() <= bound,
        quic.readable.len() < bound || forall|i: int|
            0 <= i < ids.len() ==> quic.readable.contains(#[trigger] ids[i]),
    ensures
        c.poll_streams(quic, ids).result is Ok ==> c.poll_streams(quic, ids).quic.readable.len()
            < bound,
    decreases ids.len(),
{
    if ids.len() > 0 {
        let step = c.process_readable_stream(quic, ids[0]);
        ids_without_is_shorter(quic.readable, ids[0]);
        if step.result is Ok && step.result->Ok_0.len() == 0 {
            assert forall|i: int| 0 <= i < ids.drop_first().len() && quic.readable.len()
                == bound implies quic.readable.contains(#[trigger] ids.drop_first()[i]) by {
                assert(ids.drop_first()[i] == ids[i + 1]);
            }
            polling_streams_uses_one_up(step.doq, step.quic, ids.drop_first(), bound);
        }
    }
}

/// Polling a connection over and over comes to an end: each event that is
/// returned was either waiting, or has used up a readable stream.
pub proof fn polling_comes_to_an_end(c: ConnectionView, quic: TransportView)
    requires
        c.poll(quic).result is Ok,
    ensures
        ({
            let o = c.poll(quic);
            ||| o.quic.readable.len() < quic.readable.len()
            ||| o.quic.readable.len() == quic.readable.len() && o.doq.pending.len()
                < c.pending.len()
        }),
{
    if c.pending.len() == 0 {
        assert forall|i: int| 0 <= i < quic.readable.len() implies quic.readable.contains(
            #[trigger] quic.readable[i],
        ) by {}
        polling_streams_uses_one_up(c, quic, quic.readable, quic.readable.len());
    }
}

} // verus!
