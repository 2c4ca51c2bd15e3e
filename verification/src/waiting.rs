//! Futures that wait for what a consumer has to say about a query.

use std::future::Future;
use std::pin::Pin;
use std::task::{Context, Poll};

use tokio::sync::mpsc;
use vstd::prelude::*;

use crate::driver_model::ReadyView;
use crate::outside::{
    close_receiver, found_end, found_no_message, pinned_future, pinned_future_afterwards,
    poll_receiver, received_messages, receiver_channel, receiver_closed, unpinned,
};
use crate::responder::{ResponderMessage, ResponderMessageView};

verus! {

/// A [`Future`](std::future::Future) that resolves with the next
/// [`ResponderMessage`] pulled from a query's
/// [`DoqResponder`](crate::responder::DoqResponder) channel (or `None` once it
/// closes).
#[derive(Debug)]
pub struct WaitForResponder {
    /// The stream of the query.
    pub stream_id: u64,
    /// The receiving end of the query's channel, until a message has come.
    pub rx: Option<mpsc::Receiver<ResponderMessage>>,
}

/// What a [`WaitForResponder`] resolves with.
#[derive(Debug)]
pub struct ResponderReady {
    /// The stream of the query.
    pub stream_id: u64,
    /// The receiving end of the query's channel.
    pub rx: mpsc::Receiver<ResponderMessage>,
    /// The message, or `None` where the channel is closed and empty.
    pub message: Option<ResponderMessage>,
}

/// What is known of the receiving end of a query's channel: which channel it
/// is, and whether the driver has closed it.
pub struct Inbox {
    pub channel: int,
    pub closed: bool,
}

/// The [`Inbox`] that a receiver is.
pub open spec fn inbox(rx: mpsc::Receiver<ResponderMessage>) -> Inbox {
    Inbox { channel: receiver_channel(rx), closed: receiver_closed(rx) }
}

/// What a [`WaitForResponder`] holds: the stream, the receiving end until a
/// message has come, what was received through it, and whether it was last
/// looked at in vain.
pub struct WaitView {
    pub stream_id: u64,
    pub inbox: Option<Inbox>,
    pub received: Seq<ResponderMessageView>,
    pub in_vain: bool,
}

impl View for WaitForResponder {
    type V = WaitView;

    open spec fn view(&self) -> WaitView {
        WaitView {
            stream_id: self.stream_id,
            inbox: match self.rx {
                Some(rx) => Some(inbox(rx)),
                None => None,
            },
            received: match self.rx {
                Some(rx) => received_messages(rx),
                None => Seq::empty(),
            },
            in_vain: match self.rx {
                Some(rx) => found_no_message(rx),
                None => false,
            },
        }
    }
}

impl WaitView {
    /// Polled with this outcome: a future that resolves hands its receiver
    /// over, together with the message that was just received through it, or
    /// none where it found the end of the channel; one that does not has looked
    /// in vain, and is else as it was. One that has resolved does not do so again.
    pub open spec fn polled(self, outcome: Poll<ResponderReady>, after: WaitView) -> bool {
        match outcome {
            Poll::Ready(ready) => {
                &&& self.inbox == Some(inbox(ready.rx))
                &&& ready.stream_id == self.stream_id
                &&& ready.message is None ==> found_end(ready.rx)
                &&& received_messages(ready.rx) == match ready.message {
                    Some(message) => self.received.push(message@),
                    None => self.received,
                }
                &&& after == (WaitView {
                    stream_id: self.stream_id,
                    inbox: None,
                    received: Seq::empty(),
                    in_vain: false,
                })
            },
            Poll::Pending => after == (WaitView { in_vain: self.inbox is Some, ..self }),
        }
    }
}

impl View for ResponderReady {
    type V = ReadyView;

    open spec fn view(&self) -> ReadyView {
        ReadyView {
            stream_id: self.stream_id,
            inbox: inbox(self.rx),
            message: match self.message {
                Some(message) => Some(message@),
                None => None,
            },
        }
    }
}

impl WaitForResponder {
    /// Waits for the next message on a query's channel.
    pub fn new(stream_id: u64, rx: mpsc::Receiver<ResponderMessage>) -> (w: Self)
        ensures
            w.stream_id == stream_id,
            w.rx == Some(rx),
    {
        WaitForResponder { stream_id, rx: Some(rx) }
    }

    /// Takes the next message from the channel, if there is one or there will
    /// never be one. Otherwise the task is woken up later.
    pub fn advance(&mut self, cx: &mut Context<'_>) -> (r: Poll<ResponderReady>)
        requires
            old(self).rx is Some,
        ensures
            old(self)@.polled(r, final(self)@),
    {
        let mut rx = self.rx.take().expect("WaitForResponder polled after completion");
        match poll_receiver(&mut rx, cx) {
            Poll::Ready(message) => Poll::Ready(
                ResponderReady { stream_id: self.stream_id, rx, message },
            ),
            Poll::Pending => {
                self.rx = Some(rx);
                Poll::Pending
            },
        }
    }

    /// Closes the channel if it is the one of that stream's query: the
    /// consumer can send nothing more on it.
    pub fn close_for(&mut self, stream_id: u64)
        ensures
            final(self).stream_id == old(self).stream_id,
            old(self).stream_id != stream_id ==> *final(self) == *old(self),
            old(self).stream_id == stream_id ==> match old(self).rx {
                Some(rx) => {
                    &&& final(self).rx is Some
                    &&& inbox(final(self).rx->0) == (Inbox { closed: true, ..inbox(rx) })
                    &&& received_messages(final(self).rx->0) == received_messages(rx)
                },
                None => final(self).rx is None,
            },
    {
        if self.stream_id == stream_id {
            if let Some(rx) = &mut self.rx {
                close_receiver(rx);
            }
        }
    }
}

impl Future for WaitForResponder {
    type Output = ResponderReady;

    /// Takes the next message from the channel. A future that has resolved has
    /// nothing more to say.
    fn poll(self: Pin<&mut Self>, cx: &mut Context<'_>) -> (r: Poll<ResponderReady>)
        ensures
            pinned_future(self).polled(r, pinned_future_afterwards(self)),
    {
        let this = unpinned(self);
        if this.rx.is_some() {
            this.advance(cx)
        } else {
            Poll::Pending
        }
    }
}

} // verus!
