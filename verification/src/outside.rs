//! Items of other crates that the library uses, and what it takes for granted
//! of them.

use std::pin::Pin;
use std::task::{Context, Poll};

use bytes::Bytes;
use futures_util::stream::FuturesUnordered;
use tokio::sync::mpsc;
use vstd::multiset::Multiset;
use vstd::prelude::*;

use crate::driver_model::ReadyView;
use crate::responder::{
    DoqCommand, DoqCommandView, DoqEvent, DoqEventView, ResponderMessage, ResponderMessageView,
};
use crate::waiting::{inbox, ResponderReady, WaitForResponder, WaitView};

verus! {

/// An I/O error. Nothing is known of what it holds.
#[verifier::external_type_specification]
#[verifier::external_body]
pub struct ExIoError(std::io::Error);

/// The text that `Display` gives for an I/O error. It rests on the operating
/// system and its locale, so nothing is claimed of it.
#[verifier::external_body]
pub(crate) fn io_error_text(error: &std::io::Error) -> (text: String) {
    format!("{error}")
}

/// A cheaply shared string of bytes, of which [`bytes_contents`] says what it
/// holds.
#[verifier::external_type_specification]
#[verifier::external_body]
pub struct ExBytes(Bytes);

/// The bytes that a `Bytes` holds.
pub uninterp spec fn bytes_contents(bytes: Bytes) -> Seq<u8>;

/// `Bytes::from(Vec<u8>)`: takes the vector over; the bytes are the same.
#[verifier::external_body]
pub(crate) fn bytes_from_vec(data: Vec<u8>) -> (bytes: Bytes)
    ensures
        bytes_contents(bytes) == data@,
{
    Bytes::from(data)
}

/// `Bytes::as_ref`: the bytes as a slice.
#[verifier::external_body]
pub(crate) fn bytes_as_slice(bytes: &Bytes) -> (slice: &[u8])
    ensures
        slice@ == bytes_contents(*bytes),
{
    bytes.as_ref()
}

/// The sending end of a bounded channel.
#[verifier::external_type_specification]
#[verifier::external_body]
#[verifier::reject_recursive_types(T)]
pub struct ExSender<T>(mpsc::Sender<T>);

/// The receiving end of a bounded channel.
#[verifier::external_type_specification]
#[verifier::external_body]
#[verifier::reject_recursive_types(T)]
pub struct ExReceiver<T>(mpsc::Receiver<T>);

/// The error of a send to a channel whose receiver is gone.
#[verifier::external_type_specification]
#[verifier::external_body]
#[verifier::reject_recursive_types(T)]
pub struct ExSendError<T>(mpsc::error::SendError<T>);

/// The sending end of an unbounded channel.
#[verifier::external_type_specification]
#[verifier::external_body]
#[verifier::reject_recursive_types(T)]
pub struct ExUnboundedSender<T>(mpsc::UnboundedSender<T>);

/// The receiving end of an unbounded channel.
#[verifier::external_type_specification]
#[verifier::external_body]
#[verifier::reject_recursive_types(T)]
pub struct ExUnboundedReceiver<T>(mpsc::UnboundedReceiver<T>);

/// A set of futures that are polled together.
#[verifier::external_type_specification]
#[verifier::external_body]
#[verifier::reject_recursive_types(Fut)]
pub struct ExFuturesUnordered<Fut>(FuturesUnordered<Fut>);

/// A pointer whose target stays where it is.
#[verifier::external_type_specification]
#[verifier::external_body]
#[verifier::reject_recursive_types(Ptr)]
pub struct ExPin<Ptr>(Pin<Ptr>);

/// What a future is polled with.
#[verifier::external_type_specification]
#[verifier::external_body]
pub struct ExContext<'a>(Context<'a>);

/// What polling a future gives: `Ready`, with what it resolved with, or
/// `Pending`.
#[verifier::external_type_specification]
#[verifier::reject_recursive_types(T)]
pub struct ExPoll<T>(Poll<T>);

/// What the future behind a pin is.
pub uninterp spec fn pinned_future(pin: Pin<&mut WaitForResponder>) -> WaitView;

/// What the future behind a pin is once the pin is no longer used.
pub uninterp spec fn pinned_future_afterwards(pin: Pin<&mut WaitForResponder>) -> WaitView;

/// `Pin::get_mut`: the future behind a pin. What is written through the
/// reference is written to that future.
#[verifier::external_body]
pub(crate) fn unpinned(pin: Pin<&mut WaitForResponder>) -> (future: &mut WaitForResponder)
    ensures
        future@ == pinned_future(pin),
        final(future)@ == pinned_future_afterwards(pin),
{
    pin.get_mut()
}

/// The channel that an event sender sends to, as a number that both ends of a
/// channel share.
pub uninterp spec fn event_channel(tx: mpsc::Sender<DoqEvent>) -> int;

/// The channel that an event receiver receives from, as a number.
pub uninterp spec fn event_source(rx: mpsc::Receiver<DoqEvent>) -> int;

/// How many events a sender's channel holds at most.
pub uninterp spec fn event_capacity(tx: mpsc::Sender<DoqEvent>) -> nat;

/// The events that were offered through a sender, oldest first.
pub uninterp spec fn offered_events(tx: mpsc::Sender<DoqEvent>) -> Seq<DoqEventView>;

/// What came of each of those offers, in the same order.
pub uninterp spec fn offer_outcomes(tx: mpsc::Sender<DoqEvent>) -> Seq<Offer>;

/// `mpsc::channel` for events: both ends of a new channel with room for
/// `capacity` events, to which none was offered yet. It panics for a capacity
/// of 0 or above `Semaphore::MAX_PERMITS`, which is `usize::MAX >> 3`.
#[verifier::external_body]
pub(crate) fn new_event_channel(capacity: usize) -> (ends: (
    mpsc::Sender<DoqEvent>,
    mpsc::Receiver<DoqEvent>,
))
    requires
        0 < capacity <= usize::MAX / 8,
    ensures
        event_channel(ends.0) == event_source(ends.1),
        event_capacity(ends.0) == capacity,
        offered_events(ends.0) == Seq::<DoqEventView>::empty(),
        offer_outcomes(ends.0) == Seq::<Offer>::empty(),
{
    mpsc::channel(capacity)
}

/// What came of an event that was offered to the consumer.
#[derive(Debug, Clone, Copy, PartialEq, Eq)]
pub enum Offer {
    /// The channel took it.
    Accepted,
    /// The channel has no room.
    Full,
    /// The consumer has dropped the receiver.
    Closed,
}

/// `Sender::try_send` for events: offers one event, without waiting. Which of
/// the three outcomes it has rests on what the consumer has done with its end,
/// so nothing is claimed of that.
#[verifier::external_body]
pub(crate) fn try_send_event(tx: &mut mpsc::Sender<DoqEvent>, event: DoqEvent) -> (offer: Offer)
    ensures
        offered_events(*final(tx)) == offered_events(*old(tx)).push(event@),
        offer_outcomes(*final(tx)) == offer_outcomes(*old(tx)).push(offer),
        event_channel(*final(tx)) == event_channel(*old(tx)),
        event_capacity(*final(tx)) == event_capacity(*old(tx)),
{
    match tx.try_send(event) {
        Ok(()) => Offer::Accepted,
        Err(mpsc::error::TrySendError::Full(_)) => Offer::Full,
        Err(mpsc::error::TrySendError::Closed(_)) => Offer::Closed,
    }
}

/// The channel that a responder's sender sends to, as a number that both ends
/// of a channel share.
pub uninterp spec fn responder_channel(tx: mpsc::Sender<ResponderMessage>) -> int;

/// The channel that a responder's receiver receives from, as a number.
pub uninterp spec fn receiver_channel(rx: mpsc::Receiver<ResponderMessage>) -> int;

/// How many messages a responder's channel holds at most.
pub uninterp spec fn responder_capacity(tx: mpsc::Sender<ResponderMessage>) -> nat;

/// The messages that were taken off a channel through its receiver, oldest
/// first.
pub uninterp spec fn received_messages(rx: mpsc::Receiver<ResponderMessage>) -> Seq<
    ResponderMessageView,
>;

/// Whether the last look at a receiver, with [`poll_receiver`], gave `Pending`.
pub uninterp spec fn found_no_message(rx: mpsc::Receiver<ResponderMessage>) -> bool;

/// Whether the last look at a receiver, with [`poll_receiver`], found the end of
/// the channel.
pub uninterp spec fn found_end(rx: mpsc::Receiver<ResponderMessage>) -> bool;

/// Whether `Receiver::close` was called on a receiver.
pub uninterp spec fn receiver_closed(rx: mpsc::Receiver<ResponderMessage>) -> bool;

/// `mpsc::channel` for the messages of a responder: both ends of a new channel
/// with room for `capacity` messages, through which none was received yet. It
/// panics for a capacity of 0 or above `Semaphore::MAX_PERMITS`, which is `usize::MAX >> 3`.
#[verifier::external_body]
pub(crate) fn new_responder_channel(capacity: usize) -> (ends: (
    mpsc::Sender<ResponderMessage>,
    mpsc::Receiver<ResponderMessage>,
))
    requires
        0 < capacity <= usize::MAX / 8,
    ensures
        responder_channel(ends.0) == receiver_channel(ends.1),
        responder_capacity(ends.0) == capacity,
        !receiver_closed(ends.1),
        received_messages(ends.1) == Seq::<ResponderMessageView>::empty(),
{
    mpsc::channel(capacity)
}

/// `Receiver::close`: the channel takes no further message, and none is
/// received. Those in it can still be received.
#[verifier::external_body]
pub(crate) fn close_receiver(rx: &mut mpsc::Receiver<ResponderMessage>)
    ensures
        receiver_closed(*final(rx)),
        receiver_channel(*final(rx)) == receiver_channel(*old(rx)),
        received_messages(*final(rx)) == received_messages(*old(rx)),
{
    rx.close()
}

/// `Receiver::poll_recv`: the next message (`Ready(Some(_))`), or word that
/// none will ever come (`Ready(None)`), or `Pending`, where the task is woken up
/// later: mostly because there is no message yet, but also where the task has
/// used up its budget. Which of them it is rests on what the consumer has sent
/// and on the scheduler, so nothing is claimed of that.
#[verifier::external_body]
pub(crate) fn poll_receiver(
    rx: &mut mpsc::Receiver<ResponderMessage>,
    cx: &mut Context<'_>,
) -> (r: Poll<Option<ResponderMessage>>)
    ensures
        receiver_closed(*final(rx)) == receiver_closed(*old(rx)),
        receiver_channel(*final(rx)) == receiver_channel(*old(rx)),
        received_messages(*final(rx)) == match r {
            Poll::Ready(Some(message)) => received_messages(*old(rx)).push(message@),
            _ => received_messages(*old(rx)),
        },
        r is Pending ==> found_no_message(*final(rx)),
        r matches Poll::Ready(message) ==> message is None ==> found_end(*final(rx)),
{
    rx.poll_recv(cx)
}

/// The channel that a command sender sends to, as a number that both ends of a
/// channel share.
pub uninterp spec fn command_channel(tx: mpsc::UnboundedSender<DoqCommand>) -> int;

/// The channel that a command receiver receives from, as a number.
pub uninterp spec fn command_source(rx: mpsc::UnboundedReceiver<DoqCommand>) -> int;

/// The commands that were handed to a sender, oldest first.
pub uninterp spec fn sent_commands(tx: mpsc::UnboundedSender<DoqCommand>) -> Seq<DoqCommandView>;

/// `mpsc::unbounded_channel` for commands: both ends of a new channel, to
/// which none was sent yet.
#[verifier::external_body]
pub(crate) fn new_command_channel() -> (ends: (
    mpsc::UnboundedSender<DoqCommand>,
    mpsc::UnboundedReceiver<DoqCommand>,
))
    ensures
        command_channel(ends.0) == command_source(ends.1),
        sent_commands(ends.0) == Seq::<DoqCommandView>::empty(),
        taken_commands(ends.1) == Seq::<DoqCommandView>::empty(),
{
    mpsc::unbounded_channel()
}

/// `UnboundedSender::send` for commands: hands one command over. It fails where
/// the receiver is gone, which rests on the driver's end, so nothing is claimed
/// of that.
#[verifier::external_body]
pub(crate) fn send_command(tx: &mut mpsc::UnboundedSender<DoqCommand>, command: DoqCommand) -> (r:
    Result<(), mpsc::error::SendError<DoqCommand>>)
    ensures
        sent_commands(*final(tx)) == sent_commands(*old(tx)).push(command@),
        command_channel(*final(tx)) == command_channel(*old(tx)),
{
    tx.send(command)
}

/// The commands that were taken off a receiver, oldest first.
pub uninterp spec fn taken_commands(rx: mpsc::UnboundedReceiver<DoqCommand>) -> Seq<
    DoqCommandView,
>;

/// Whether the last look at a command receiver, with [`try_receive_command`],
/// found no command.
pub uninterp spec fn found_no_command(rx: mpsc::UnboundedReceiver<DoqCommand>) -> bool;

/// `UnboundedReceiver::try_recv` for commands: the oldest one that waits, if
/// any does, which rests on the controller's end, so nothing is claimed of
/// that.
#[verifier::external_body]
pub(crate) fn try_receive_command(rx: &mut mpsc::UnboundedReceiver<DoqCommand>) -> (r: Option<
    DoqCommand,
>)
    ensures
        command_source(*final(rx)) == command_source(*old(rx)),
        r is None ==> found_no_command(*final(rx)),
        taken_commands(*final(rx)) == match r {
            Some(command) => taken_commands(*old(rx)).push(command@),
            None => taken_commands(*old(rx)),
        },
{
    rx.try_recv().ok()
}

/// The stream and the channel of each future in a set.
pub uninterp spec fn waiting_futures(futures: FuturesUnordered<WaitForResponder>) -> Multiset<
    (u64, int),
>;

/// The stream and the channel of each future in a set whose receiver was
/// closed.
pub uninterp spec fn closing_futures(futures: FuturesUnordered<WaitForResponder>) -> Multiset<
    (u64, int),
>;

/// What the futures that have left a set had resolved with, in the order in
/// which they left.
pub uninterp spec fn resolved_futures(futures: FuturesUnordered<WaitForResponder>) -> Seq<
    ReadyView,
>;

/// Whether the last look at a set, with [`next_ready`], gave no future that had
/// resolved.
pub uninterp spec fn found_nothing(futures: FuturesUnordered<WaitForResponder>) -> bool;

/// Holds of what belongs to the stream.
pub open spec fn of_stream(stream_id: u64) -> spec_fn((u64, int)) -> bool {
    |future: (u64, int)| future.0 == stream_id
}

/// Holds of what belongs to another stream.
pub open spec fn of_others(stream_id: u64) -> spec_fn((u64, int)) -> bool {
    |future: (u64, int)| future.0 != stream_id
}

/// `FuturesUnordered::new`: a set without futures.
#[verifier::external_body]
pub(crate) fn no_futures() -> (futures: FuturesUnordered<WaitForResponder>)
    ensures
        waiting_futures(futures) == Multiset::<(u64, int)>::empty(),
        closing_futures(futures) == Multiset::<(u64, int)>::empty(),
        resolved_futures(futures) == Seq::<ReadyView>::empty(),
{
    FuturesUnordered::new()
}

/// `FuturesUnordered::push`: one more future in the set.
#[verifier::external_body]
pub(crate) fn push_future(
    futures: &mut FuturesUnordered<WaitForResponder>,
    future: WaitForResponder,
)
    requires
        future.rx is Some,
    ensures
        waiting_futures(*final(futures)) == waiting_futures(*old(futures)).insert(
            (future.stream_id, inbox(future.rx->0).channel),
        ),
        closing_futures(*final(futures)) == if inbox(future.rx->0).closed {
            closing_futures(*old(futures)).insert(
                (future.stream_id, inbox(future.rx->0).channel),
            )
        } else {
            closing_futures(*old(futures))
        },
        resolved_futures(*final(futures)) == resolved_futures(*old(futures)),
{
    futures.push(future)
}

/// `FuturesUnordered::iter_mut`: visits every future in the set, and has each
/// close its channel if that is the one of the stream. The set is the same,
/// and those of the stream are closed.
#[verifier::external_body]
pub(crate) fn close_futures(futures: &mut FuturesUnordered<WaitForResponder>, stream_id: u64)
    ensures
        waiting_futures(*final(futures)) == waiting_futures(*old(futures)),
        closing_futures(*final(futures)) == closing_futures(*old(futures)).filter(
            of_others(stream_id),
        ).add(waiting_futures(*old(futures)).filter(of_stream(stream_id))),
        resolved_futures(*final(futures)) == resolved_futures(*old(futures)),
{
    futures.iter_mut().for_each(|future| future.close_for(stream_id))
}

/// `StreamExt::next` and `FutureExt::now_or_never`: what one of the futures in
/// the set has resolved with (`Some(Some(_))`), which has then left the set;
/// `Some(None)` for an empty set; `None` where the look gave no future that has
/// resolved: mostly because there is none, but also where futures were to be
/// polled again. Which future resolves, and with what, rests on the consumers
/// and on the scheduler, so nothing is claimed of that.
#[verifier::external_body]
pub(crate) fn next_ready(futures: &mut FuturesUnordered<WaitForResponder>) -> (r: Option<
    Option<ResponderReady>,
>)
    ensures
        resolved_futures(*final(futures)) == match r {
            Some(Some(ready)) => resolved_futures(*old(futures)).push(ready@),
            _ => resolved_futures(*old(futures)),
        },
        match r {
            Some(Some(ready)) => {
                let gone = (ready.stream_id, inbox(ready.rx).channel);
                &&& waiting_futures(*old(futures)).contains(gone)
                &&& waiting_futures(*final(futures)) == waiting_futures(*old(futures)).remove(gone)
                &&& inbox(ready.rx).closed ==> closing_futures(*old(futures)).contains(gone)
                &&& !inbox(ready.rx).closed ==> closing_futures(*old(futures)).count(gone)
                    < waiting_futures(*old(futures)).count(gone)
                &&& closing_futures(*final(futures)) == if inbox(ready.rx).closed {
                    closing_futures(*old(futures)).remove(gone)
                } else {
                    closing_futures(*old(futures))
                }
            },
            Some(None) => {
                &&& found_nothing(*final(futures))
                &&& waiting_futures(*old(futures)) == Multiset::<(u64, int)>::empty()
                &&& waiting_futures(*final(futures)) == waiting_futures(*old(futures))
                &&& closing_futures(*final(futures)) == closing_futures(*old(futures))
            },
            None => {
                &&& found_nothing(*final(futures))
                &&& waiting_futures(*final(futures)) == waiting_futures(*old(futures))
                &&& closing_futures(*final(futures)) == closing_futures(*old(futures))
            },
        },
{
    futures::FutureExt::now_or_never(tokio_stream::StreamExt::next(futures))
}

} // verus!
