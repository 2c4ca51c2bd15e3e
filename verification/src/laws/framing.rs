//! Laws of the message framing.

use vstd::prelude::*;

use crate::model::{messages, remainder};
use crate::wire::{frame, front, DoqError, Front, MAX_DNS_MESSAGE_LEN, MAX_DOQ_MESSAGE_LEN};

verus! {

/// Some messages as they follow each other on a stream, each in its frame.
pub open spec fn frames(msgs: Seq<Seq<u8>>) -> Seq<u8>
    decreases msgs.len(),
{
    if msgs.len() == 0 {
        Seq::empty()
    } else {
        frame(msgs[0]) + frames(msgs.drop_first())
    }
}

/// Whether each message fits in a frame.
pub open spec fn all_fit(msgs: Seq<Seq<u8>>) -> bool {
    forall|i: int| 0 <= i < msgs.len() ==> (#[trigger] msgs[i]).len() <= MAX_DNS_MESSAGE_LEN
}

/// A framed message reads back as it was, whatever follows it.
pub proof fn framed_message_reads_back(message: Seq<u8>, rest: Seq<u8>)
    requires
        message.len() <= MAX_DNS_MESSAGE_LEN,
    ensures
        front(frame(message) + rest) == (Front::Message {
            data: message,
            consumed: message.len() + 2,
        }),
        (frame(message) + rest).skip((message.len() + 2) as int) == rest,
{
    let bytes = frame(message) + rest;
    assert(bytes.subrange(2, (message.len() + 2) as int) =~= message);
    assert(bytes.skip((message.len() + 2) as int) =~= rest);
}

/// A message that was read is what its frame holds, and fits in one.
pub proof fn read_message_was_framed(bytes: Seq<u8>, data: Seq<u8>, consumed: nat)
    requires
        front(bytes) == (Front::Message { data, consumed }),
    ensures
        data.len() <= MAX_DNS_MESSAGE_LEN,
        consumed == data.len() + 2,
        consumed <= bytes.len(),
        bytes.take(consumed as int) == frame(data),
        bytes == frame(data) + bytes.skip(consumed as int),
{
    assert(bytes.take(consumed as int) =~= frame(data));
    assert(bytes =~= frame(data) + bytes.skip(consumed as int));
}

/// Whether a message stands in front is settled by its own bytes: more bytes
/// behind it change nothing.
pub proof fn later_bytes_do_not_change_a_message(bytes: Seq<u8>, rest: Seq<u8>)
    requires
        front(bytes) is Message,
    ensures
        front(bytes + rest) == front(bytes),
{
    if let Front::Message { data, consumed } = front(bytes) {
        read_message_was_framed(bytes, data, consumed);
        framed_message_reads_back(data, bytes.skip(consumed as int));
        framed_message_reads_back(data, bytes.skip(consumed as int) + rest);
        assert(bytes + rest =~= frame(data) + (bytes.skip(consumed as int) + rest));
    }
}

/// A frame that has come only in part holds no message yet.
pub proof fn partial_frame_is_no_message(message: Seq<u8>, n: int)
    requires
        message.len() <= MAX_DNS_MESSAGE_LEN,
        0 <= n < message.len() + 2,
    ensures
        !(front(frame(message).take(n)) is Message),
        n < 2 <==> front(frame(message).take(n)) is NoLength,
{
}

/// Different messages have different frames, and no frame is the beginning of
/// another.
pub proof fn frames_are_unambiguous(a: Seq<u8>, b: Seq<u8>, rest: Seq<u8>)
    requires
        a.len() <= MAX_DNS_MESSAGE_LEN,
        b.len() <= MAX_DNS_MESSAGE_LEN,
        frame(a) + rest == frame(b),
    ensures
        a == b,
        rest.len() == 0,
{
    framed_message_reads_back(a, rest);
    framed_message_reads_back(b, Seq::empty());
    assert(frame(b) + Seq::<u8>::empty() =~= frame(b));
}

/// Framed messages that follow each other are found again, in their order, and
/// what stands behind them is left.
pub proof fn framed_messages_are_found(msgs: Seq<Seq<u8>>, tail: Seq<u8>)
    requires
        all_fit(msgs),
        !(front(tail) is Message),
    ensures
        messages(frames(msgs) + tail) == msgs,
        remainder(frames(msgs) + tail) == tail,
    decreases msgs.len(),
{
    if msgs.len() == 0 {
        assert(frames(msgs) + tail =~= tail);
        assert(messages(tail) =~= msgs);
    } else {
        let rest = frames(msgs.drop_first()) + tail;
        assert(frames(msgs) + tail =~= frame(msgs[0]) + rest);
        framed_message_reads_back(msgs[0], rest);
        assert forall|i: int| 0 <= i < msgs.drop_first().len() implies (
        #[trigger] msgs.drop_first()[i]).len() <= MAX_DNS_MESSAGE_LEN by {
            assert(msgs.drop_first()[i] == msgs[i + 1]);
        }
        framed_messages_are_found(msgs.drop_first(), tail);
        assert(seq![msgs[0]] + msgs.drop_first() =~= msgs);
    }
}

/// No byte is lost or made up: received bytes are the frames of the messages
/// found in them and the remainder, which holds no message.
pub proof fn bytes_are_messages_and_remainder(bytes: Seq<u8>)
    ensures
        bytes == frames(messages(bytes)) + remainder(bytes),
        all_fit(messages(bytes)),
        !(front(remainder(bytes)) is Message),
    decreases bytes.len(),
{
    match front(bytes) {
        Front::Message { data, consumed } => {
            let rest = bytes.skip(consumed as int);
            read_message_was_framed(bytes, data, consumed);
            bytes_are_messages_and_remainder(rest);
            assert(messages(bytes).drop_first() =~= messages(rest));
            assert(bytes =~= frames(messages(bytes)) + remainder(bytes));
            assert forall|i: int| 0 <= i < messages(bytes).len() implies (
            #[trigger] messages(bytes)[i]).len() <= MAX_DNS_MESSAGE_LEN by {
                if i > 0 {
                    assert(messages(bytes)[i] == messages(rest)[i - 1]);
                }
            }
        },
        _ => {
            assert(bytes =~= frames(messages(bytes)) + remainder(bytes));
        },
    }
}

/// How bytes arrive does not matter: taking the messages out of the first ones
/// and then out of what was left with the others finds the same messages, and
/// leaves the same bytes, as taking them out of all bytes at once.
pub proof fn arrival_in_pieces_does_not_matter(first: Seq<u8>, second: Seq<u8>)
    ensures
        messages(first + second) == messages(first) + messages(remainder(first) + second),
        remainder(first + second) == remainder(remainder(first) + second),
    decreases first.len(),
{
    match front(first) {
        Front::Message { data, consumed } => {
            let rest = first.skip(consumed as int);
            later_bytes_do_not_change_a_message(first, second);
            read_message_was_framed(first, data, consumed);
            assert((first + second).skip(consumed as int) =~= rest + second);
            arrival_in_pieces_does_not_matter(rest, second);
            assert(messages(first + second) =~= messages(first) + messages(
                remainder(first) + second,
            ));
        },
        _ => {
            assert(messages(first + second) =~= messages(first) + messages(
                remainder(first) + second,
            ));
        },
    }
}

/// Different errors have different codes on the wire.
pub proof fn error_codes_are_distinct(a: DoqError, b: DoqError)
    requires
        a.code() == b.code(),
    ensures
        a == b,
{
}

/// A frame is the length of its message, most significant octet first, and the
/// message as it is. Two octets announce at most 65535 bytes.
pub proof fn frame_is_length_and_message(message: Seq<u8>)
    requires
        message.len() <= 65535,
    ensures
        frame(message).len() == message.len() + 2,
        frame(message)[0] * 256 + frame(message)[1] == message.len(),
        frame(message).skip(2) == message,
        MAX_DNS_MESSAGE_LEN == 65535,
        MAX_DOQ_MESSAGE_LEN == 65535 + 2,
{
    assert(frame(message).skip(2) =~= message);
}

/// What is read from the front of some bytes is what its length announces: the
/// two octets of the length come first, and a message is there once as many bytes
/// as they say have come behind them.
pub proof fn front_is_what_its_length_announces(bytes: Seq<u8>)
    ensures
        front(bytes) is NoLength <==> bytes.len() < 2,
        front(bytes) is Truncated <==> 2 <= bytes.len() < 2 + bytes[0] * 256 + bytes[1],
        front(bytes) matches Front::Message { data, consumed } ==> {
            &&& data.len() == bytes[0] * 256 + bytes[1]
            &&& consumed == data.len() + 2
            &&& data == bytes.subrange(2, consumed as int)
        },
{
}

/// The codes are those that are assigned (RFC 9250, Section 8.4).
pub proof fn error_codes_are_those_assigned(error: DoqError)
    ensures
        error.code() == match error {
            DoqError::NoError => 0u64,
            DoqError::InternalError => 1,
            DoqError::ProtocolError => 2,
            DoqError::RequestCancelled => 3,
            DoqError::ExcessiveLoad => 4,
            DoqError::UnspecifiedError => 5,
            DoqError::ErrorReserved => 0xd098ea5e,
        },
{
}

} // verus!
