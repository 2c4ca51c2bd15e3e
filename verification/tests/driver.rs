//! A server driver with its consumer, and a client as the peer.

use std::collections::HashMap;
use std::future::Future;
use std::task::{Context, Poll};

use bytes::Bytes;
use doq::connection::{Connection, Error, Event};
use doq::driver::{
    DoqController, DoqServerDriver, DriverError, ResponderCapacity, Wakeup, RESPONDER_CAPACITY,
};
use doq::outside::Offer;
use doq::responder::{DoqCommand, DoqEvent, DoqResponder, ResponderMessage, StreamClosed};
use doq::transport::{
    is_bidi, is_local, Action, RecvEnd, SendEnd, Shutdown, Transport, TransportStream,
};
use doq::waiting::WaitForResponder;
use doq::wire::{write_dns_message, DoqError};
use futures::FutureExt;
use tokio::sync::mpsc::error::TryRecvError;

/// The limits that the endpoints of a [`Pipe`] grant each other.
#[derive(Clone, Copy)]
struct Limits {
    max_data: usize,
    stream_data_bidi_local: usize,
    stream_data_bidi_remote: usize,
    max_streams_bidi: u64,
    max_streams_uni: u64,
}

/// What one endpoint of a [`Pipe`] has sent and received so far.
#[derive(Default)]
struct Traffic {
    sent: usize,
    sent_on: HashMap<u64, usize>,
    received_on: HashMap<u64, usize>,
    resets_sent: usize,
    resets_received: usize,
}

/// Two QUIC connections that are each other's peer.
struct Pipe {
    client: Transport,
    server: Transport,
    client_traffic: Traffic,
    server_traffic: Traffic,
    limits: Limits,
}

fn endpoint(is_server: bool, limits: Limits) -> Transport {
    let mut transport = Transport::new(is_server);
    transport.send_capacity = limits.max_data;
    transport.streams_left_bidi = limits.max_streams_bidi;
    transport.streams_left_uni = limits.max_streams_uni;
    transport.initial_window = limits.stream_data_bidi_remote;
    transport
}

/// The stream at the receiving endpoint, which gets to know it.
fn known_stream<'a>(
    to: &'a mut Transport,
    stream_id: u64,
    limits: Limits,
) -> &'a mut TransportStream {
    to.streams
        .entry(stream_id)
        .or_insert_with(|| TransportStream {
            recv_data: Vec::new(),
            recv_end: RecvEnd::Open,
            arrived_early: false,
            send_window: limits.stream_data_bidi_local,
            stopped: None,
            send_end: if is_bidi(stream_id) {
                SendEnd::Open
            } else {
                SendEnd::Fin
            },
        })
}

fn readable(to: &mut Transport, stream_id: u64) {
    if !to.readable.contains(&stream_id) {
        to.readable.push(stream_id);
    }
}

fn deliver(
    from: &mut Transport,
    from_traffic: &mut Traffic,
    to: &mut Transport,
    to_traffic: &mut Traffic,
    limits: Limits,
) {
    for action in std::mem::take(&mut from.actions) {
        match action {
            Action::Open { .. } => {}
            Action::Send {
                stream_id,
                data,
                fin,
            } => {
                from_traffic.sent += data.len();
                *from_traffic.sent_on.entry(stream_id).or_default() += data.len();
                let is_first = !to_traffic.received_on.contains_key(&stream_id);
                *to_traffic.received_on.entry(stream_id).or_default() += data.len();
                let in_early_data = to.in_early_data;
                let stream = known_stream(to, stream_id, limits);
                if is_first {
                    stream.arrived_early = in_early_data;
                }
                if stream.recv_end == RecvEnd::Open {
                    stream.recv_data.extend_from_slice(&data);
                    if fin {
                        stream.recv_end = RecvEnd::Fin;
                    }
                    readable(to, stream_id);
                }
            }
            Action::Shutdown {
                stream_id,
                direction: Shutdown::Write,
                error,
            } => {
                from_traffic.resets_sent += 1;
                to_traffic.resets_received += 1;
                let stream = known_stream(to, stream_id, limits);
                if stream.recv_end == RecvEnd::Open {
                    stream.recv_data.clear();
                    stream.recv_end = RecvEnd::Reset(error);
                    readable(to, stream_id);
                }
            }
            Action::Shutdown {
                stream_id,
                direction: Shutdown::Read,
                error,
            } => {
                known_stream(to, stream_id, limits).stopped = Some(error);
                to.writable.push_back(stream_id);
            }
            Action::Close { .. } => to.closed = true,
        }
    }
}

/// Grants the sender what the receiver has read.
fn grant(from: &mut Transport, from_traffic: &Traffic, to: &Transport, to_traffic: &Traffic, limits: Limits) {
    let mut read_in_all = 0;
    for (stream_id, received) in &to_traffic.received_on {
        let unread = to.streams[stream_id].recv_data.len();
        let read = received - unread;
        read_in_all += read;
        let initial = if is_local(*stream_id, from.is_server) {
            limits.stream_data_bidi_remote
        } else {
            limits.stream_data_bidi_local
        };
        let stream = from.streams.get_mut(stream_id).unwrap();
        let window = initial + read - from_traffic.sent_on[stream_id];
        if window > stream.send_window {
            stream.send_window = window;
            from.writable.push_back(*stream_id);
        }
    }
    from.send_capacity = limits.max_data + read_in_all - from_traffic.sent;
}

impl Pipe {
    fn new(limits: Limits) -> Pipe {
        Pipe {
            client: endpoint(false, limits),
            server: endpoint(true, limits),
            client_traffic: Traffic::default(),
            server_traffic: Traffic::default(),
            limits,
        }
    }

    /// Carries everything over that was asked for, and the grants of what was
    /// read.
    fn advance(&mut self) {
        deliver(
            &mut self.client,
            &mut self.client_traffic,
            &mut self.server,
            &mut self.server_traffic,
            self.limits,
        );
        deliver(
            &mut self.server,
            &mut self.server_traffic,
            &mut self.client,
            &mut self.client_traffic,
            self.limits,
        );
        grant(
            &mut self.client,
            &self.client_traffic,
            &self.server,
            &self.server_traffic,
            self.limits,
        );
        grant(
            &mut self.server,
            &self.server_traffic,
            &self.client,
            &self.client_traffic,
            self.limits,
        );
    }
}

fn framed(data: &[u8]) -> Vec<u8> {
    let mut out = Vec::new();
    write_dns_message(&mut out, data).unwrap();
    out
}

fn default_limits() -> Limits {
    Limits {
        max_data: 1_000_000,
        stream_data_bidi_local: 10_000,
        stream_data_bidi_remote: 10_000,
        max_streams_bidi: 100,
        max_streams_uni: 5,
    }
}

/// A [`Pipe`] with a driver on the server side, and a connection in the client
/// role as the peer. Queries are written directly onto a fresh client-initiated
/// bidi stream.
struct Helper {
    pipe: Pipe,
    driver: DoqServerDriver,
    controller: DoqController,
    peer: Connection,
    next_client_stream_id: u64,
}

/// One poll of what a driver waits for.
fn wait_once(driver: &mut DoqServerDriver, qconn: &mut Transport) -> Result<(), DriverError> {
    let ready = tokio_stream::StreamExt::next(&mut driver.waiting).now_or_never();
    let wakeup = if let Some(Some(ready)) = ready {
        assert!(driver.streams.contains_key(&ready.stream_id));
        Wakeup::Ready(ready)
    } else if let Ok(cmd) = driver.cmd_recv.try_recv() {
        Wakeup::Command(cmd)
    } else if driver.event_sender.is_closed() && !driver.event_receiver_dropped {
        Wakeup::EventReceiverGone
    } else {
        return Ok(());
    };
    driver.after_wait(qconn, wakeup)
}

/// One iteration of a driver's steps: reads, writes, one poll.
fn work(driver: &mut DoqServerDriver, qconn: &mut Transport) -> Result<(), DriverError> {
    driver.process_reads(qconn)?;
    assert_attended(driver);
    driver.process_writes(qconn)?;
    assert_attended(driver);
    wait_once(driver, qconn)?;
    assert_attended(driver);
    Ok(())
}

/// Asserts that exactly the queries whose receiver is not parked are waited for.
fn assert_attended(driver: &DoqServerDriver) {
    let mut checked_out: Vec<u64> = driver
        .streams
        .iter()
        .filter(|(_, state)| state.rx.is_none())
        .map(|(id, _)| *id)
        .collect();
    let mut waited_for: Vec<u64> = driver.waiting.iter().map(|w| w.stream_id).collect();
    checked_out.sort();
    waited_for.sort();
    assert_eq!(checked_out, waited_for);
}

fn send(responder: &DoqResponder, data: Bytes, fin: bool) -> Result<(), StreamClosed> {
    let sent = responder
        .tx
        .send(ResponderMessage::Response { data, fin })
        .now_or_never()
        .expect("the channel has room");
    DoqResponder::delivered(sent)
}

fn reset(responder: &DoqResponder, error: DoqError) -> Result<(), StreamClosed> {
    let sent = responder
        .tx
        .send(ResponderMessage::Reset { error })
        .now_or_never()
        .expect("the channel has room");
    DoqResponder::delivered(sent)
}

fn is_closed(responder: &DoqResponder) -> bool {
    responder.tx.closed().now_or_never().is_some()
}

impl Helper {
    fn new() -> Helper {
        Helper::with_limits(default_limits())
    }

    /// With room for a single message in each responder's channel.
    fn with_limits(limits: Limits) -> Helper {
        Helper::with_capacity(limits, ResponderCapacity::new(1).unwrap())
    }

    fn with_capacity(limits: Limits, capacity: ResponderCapacity) -> Helper {
        let pipe = Pipe::new(limits);
        let (mut driver, controller) =
            DoqServerDriver::with_responder_capacity(limits.max_streams_bidi, capacity);
        assert!(!driver.should_act());
        driver.on_conn_established(&pipe.server).unwrap();
        assert!(driver.should_act());
        let peer = Connection::with_transport(&pipe.client).unwrap();
        Helper {
            pipe,
            driver,
            controller,
            peer,
            next_client_stream_id: 0,
        }
    }

    fn work_loop_iter(&mut self) {
        work(&mut self.driver, &mut self.pipe.server).unwrap();
    }

    /// Advances the pipe and runs the driver enough times for pending work on
    /// both ends to settle.
    fn advance_and_run_loop(&mut self) {
        for _ in 0..3 {
            self.pipe.advance();
            self.work_loop_iter();
        }
        self.pipe.advance();
    }

    fn peer_send_query(&mut self, data: &[u8]) -> u64 {
        let stream_id = self.next_stream_id();
        self.pipe
            .client
            .stream_send(stream_id, &framed(data), true)
            .unwrap();
        stream_id
    }

    fn next_stream_id(&mut self) -> u64 {
        let stream_id = self.next_client_stream_id;
        self.next_client_stream_id += 4;
        stream_id
    }

    fn peer_poll(&mut self) -> Result<(u64, Event), Error> {
        self.peer.poll(&mut self.pipe.client)
    }

    fn try_recv_event(&mut self) -> Result<DoqEvent, TryRecvError> {
        self.controller
            .event_receiver_mut()
            .expect("event receiver already taken")
            .try_recv()
    }

    fn expect_query_event(&mut self) -> (Bytes, bool, DoqResponder) {
        match self.try_recv_event() {
            Ok(DoqEvent::Query {
                data,
                is_0rtt,
                responder,
            }) => (data, is_0rtt, responder),
            other => panic!("expected DoqEvent::Query, got {other:?}"),
        }
    }
}

#[test]
fn query_event_and_response_roundtrip() {
    let mut helper = Helper::new();

    let stream_id = helper.peer_send_query(b"hello");
    helper.advance_and_run_loop();

    let (data, is_0rtt, responder) = helper.expect_query_event();
    assert_eq!(data, Bytes::from_static(b"hello"));
    assert!(!is_0rtt);

    send(&responder, Bytes::from_static(b"world"), true).unwrap();
    helper.advance_and_run_loop();

    assert_eq!(
        helper.peer_poll(),
        Ok((
            stream_id,
            Event::Response {
                data: b"world".to_vec()
            }
        ))
    );
    assert_eq!(helper.peer_poll(), Ok((stream_id, Event::Finished)));
    assert_eq!(helper.peer_poll(), Err(Error::Done));
}

#[test]
fn tests_multi_response_zone_transfer() {
    let mut helper = Helper::new();

    let stream_id = helper.peer_send_query(b"axfr");
    helper.advance_and_run_loop();
    let (_, _, responder) = helper.expect_query_event();

    for chunk in [&b"r1"[..], &b"r2"[..], &b"r3"[..]] {
        let fin = chunk == b"r3";
        send(&responder, Bytes::copy_from_slice(chunk), fin).unwrap();
        helper.advance_and_run_loop();
    }

    for chunk in [&b"r1"[..], &b"r2"[..], &b"r3"[..]] {
        assert_eq!(
            helper.peer_poll(),
            Ok((
                stream_id,
                Event::Response {
                    data: chunk.to_vec()
                }
            ))
        );
    }
    assert_eq!(helper.peer_poll(), Ok((stream_id, Event::Finished)));
}

/// Per-query backpressure: with the responder channel full, a second send on the
/// same responder blocks until the driver drains the first, then completes.
///
/// The future is polled by hand, so that one that has not resolved is seen as
/// `Poll::Pending`.
#[test]
fn backpressure_blocks_second_send_until_drained() {
    let mut helper = Helper::new();

    helper.peer_send_query(b"axfr");
    helper.advance_and_run_loop();
    let (_, _, responder) = helper.expect_query_event();

    send(&responder, Bytes::from_static(b"r1"), false).unwrap();

    let mut second_send = Box::pin(async {
        let message = ResponderMessage::Response {
            data: Bytes::from_static(b"r2"),
            fin: true,
        };
        DoqResponder::delivered(responder.tx.send(message).await)
    });
    let waker = futures::task::noop_waker();
    let mut cx = Context::from_waker(&waker);

    assert_eq!(second_send.as_mut().poll(&mut cx), Poll::Pending);

    // Drains "r1", freeing the one slot in the bounded channel.
    helper.work_loop_iter();

    assert_eq!(second_send.as_mut().poll(&mut cx), Poll::Ready(Ok(())));
}

/// Unless something else was asked for, a responder's channel has the usual
/// room.
#[test]
fn a_responder_has_room_for_sixteen_messages() {
    let (driver, _controller) = DoqServerDriver::new(1);
    assert_eq!(driver.responder_capacity, ResponderCapacity::usual());
    assert_eq!(driver.responder_capacity.get(), 16);
    assert_eq!(ResponderCapacity::new(0), None);
    assert_eq!(ResponderCapacity::new(usize::MAX), None);

    let mut helper = Helper::with_capacity(default_limits(), ResponderCapacity::usual());
    helper.peer_send_query(b"axfr");
    helper.advance_and_run_loop();
    let (_, _, responder) = helper.expect_query_event();
    assert_eq!(responder.tx.max_capacity(), RESPONDER_CAPACITY);
    for _ in 0..16 {
        send(&responder, Bytes::from_static(b"r1"), false).unwrap();
    }
    let further = ResponderMessage::Response {
        data: Bytes::from_static(b"r2"),
        fin: true,
    };
    assert!(responder.tx.send(further).now_or_never().is_none());
    helper.work_loop_iter();
    assert_eq!(send(&responder, Bytes::from_static(b"r2"), true), Ok(()));
}

#[test]
fn concurrent_out_of_order_responses() {
    let mut helper = Helper::new();

    let stream_a = helper.peer_send_query(b"q1");
    let stream_b = helper.peer_send_query(b"q2");
    helper.advance_and_run_loop();

    let (data_first, _, responder_first) = helper.expect_query_event();
    let (_, _, responder_second) = helper.expect_query_event();

    let (stream_q1, responder_q1, stream_q2, responder_q2) =
        if data_first == Bytes::from_static(b"q1") {
            (stream_a, responder_first, stream_b, responder_second)
        } else {
            (stream_a, responder_second, stream_b, responder_first)
        };

    // Answer the second query first.
    send(&responder_q2, Bytes::from_static(b"resp-q2"), true).unwrap();
    helper.advance_and_run_loop();

    assert_eq!(
        helper.peer_poll(),
        Ok((
            stream_q2,
            Event::Response {
                data: b"resp-q2".to_vec()
            }
        ))
    );
    assert_eq!(helper.peer_poll(), Ok((stream_q2, Event::Finished)));

    send(&responder_q1, Bytes::from_static(b"resp-q1"), true).unwrap();
    helper.advance_and_run_loop();

    assert_eq!(
        helper.peer_poll(),
        Ok((
            stream_q1,
            Event::Response {
                data: b"resp-q1".to_vec()
            }
        ))
    );
    assert_eq!(helper.peer_poll(), Ok((stream_q1, Event::Finished)));
}

#[test]
fn handshake_confirmed_emitted_once() {
    let mut helper = Helper::new();

    helper.work_loop_iter();
    assert!(matches!(
        helper.try_recv_event(),
        Ok(DoqEvent::HandshakeConfirmed)
    ));

    helper.work_loop_iter();
    assert!(matches!(helper.try_recv_event(), Err(TryRecvError::Empty)));
}

/// A client that resets a stream before finishing its query never gets a
/// responder created for it, so there's nothing to clean up on the driver's
/// side, and the connection keeps working normally afterwards.
#[test]
fn client_reset_before_query_completes_is_noop() {
    let mut helper = Helper::new();

    let abandoned = helper.next_stream_id();
    helper
        .pipe
        .client
        .stream_send(abandoned, b"partial", false)
        .unwrap();
    helper
        .pipe
        .client
        .stream_shutdown(abandoned, Shutdown::Write, 42)
        .unwrap();
    helper.advance_and_run_loop();

    // RFC 9250, Section 4.3.1 requires the server to echo the client's
    // RESET_STREAM; the client-role peer connection observes it here.
    assert_eq!(helper.peer_poll(), Ok((abandoned, Event::Reset(42))));

    // No `Query` was ever emitted for the abandoned stream; the only event in
    // the channel is the `HandshakeConfirmed` from this first round.
    assert!(matches!(
        helper.try_recv_event(),
        Ok(DoqEvent::HandshakeConfirmed)
    ));
    assert!(matches!(helper.try_recv_event(), Err(TryRecvError::Empty)));

    // The connection is otherwise unaffected: a fresh query still works.
    let stream_id = helper.peer_send_query(b"still works");
    helper.advance_and_run_loop();
    let (data, _, responder) = helper.expect_query_event();
    assert_eq!(data, Bytes::from_static(b"still works"));

    send(&responder, Bytes::from_static(b"ok"), true).unwrap();
    helper.advance_and_run_loop();
    assert_eq!(
        helper.peer_poll(),
        Ok((
            stream_id,
            Event::Response {
                data: b"ok".to_vec()
            }
        ))
    );
}

/// A client `STOP_SENDING` on the response direction is treated as a benign
/// per-stream close: the responder is closed and further sends return
/// `StreamClosed`.
#[test]
fn client_stop_sending_resolves_responder_closed() {
    let mut helper = Helper::new();

    let stream_id = helper.peer_send_query(b"q");
    helper.advance_and_run_loop();
    let (_, _, responder) = helper.expect_query_event();

    helper
        .pipe
        .client
        .stream_shutdown(stream_id, Shutdown::Read, 7)
        .unwrap();
    helper.pipe.advance();

    send(&responder, Bytes::from_static(b"resp"), true).unwrap();
    helper.work_loop_iter();

    assert!(is_closed(&responder));
    assert_eq!(
        send(&responder, Bytes::from_static(b"too-late"), true),
        Err(StreamClosed)
    );
}

/// A consumer that has said nothing yet learns of a `STOP_SENDING` too.
#[test]
fn stop_sending_closes_a_responder_that_has_said_nothing() {
    let mut helper = Helper::new();

    let stream_id = helper.peer_send_query(b"q");
    helper.advance_and_run_loop();
    let (_, _, responder) = helper.expect_query_event();
    assert!(!is_closed(&responder));

    helper
        .pipe
        .client
        .stream_shutdown(stream_id, Shutdown::Read, 7)
        .unwrap();
    helper.pipe.advance();
    helper.work_loop_iter();

    assert!(is_closed(&responder));
    assert_eq!(
        send(&responder, Bytes::from_static(b"too-late"), true),
        Err(StreamClosed)
    );
    assert_eq!(reset(&responder, DoqError::NoError), Err(StreamClosed));

    // Nothing is left of the query once the consumer lets go of it.
    drop(responder);
    helper.work_loop_iter();
    assert!(helper.driver.streams.is_empty());
}

/// A response too large to frame abandons just that one transaction, without
/// affecting the rest of the connection.
#[test]
fn message_too_large_resets_stream() {
    let mut helper = Helper::new();

    let stream_id = helper.peer_send_query(b"q");
    helper.advance_and_run_loop();
    let (_, _, responder) = helper.expect_query_event();

    let oversized = Bytes::from(vec![0u8; 65536]);
    send(&responder, oversized, true).unwrap();
    helper.advance_and_run_loop();

    // The peer observes a stream reset with `DoqError::InternalError`.
    assert_eq!(
        helper.peer_poll(),
        Ok((stream_id, Event::Reset(DoqError::InternalError.to_wire())))
    );
    assert!(is_closed(&responder));
}

/// Dropping the whole `DoqController` (both halves: the command sender and the
/// event receiver) closes the connection, and a second round afterwards must
/// not panic.
#[test]
fn controller_drop_closes_connection_without_panicking() {
    let Helper {
        mut pipe,
        mut driver,
        controller,
        ..
    } = Helper::new();
    drop(controller);

    work(&mut driver, &mut pipe.server).unwrap();

    let err = pipe
        .server
        .local_error()
        .expect("driver should have closed the connection");
    assert!(err.is_app);
    assert_eq!(err.error_code, DoqError::NoError.to_wire());

    // A second round must not panic.
    work(&mut driver, &mut pipe.server).unwrap();
}

#[test]
fn close_connection_command() {
    let mut helper = Helper::new();

    helper
        .controller
        .close_connection(DoqError::ProtocolError, b"bye".to_vec());
    helper.work_loop_iter();

    let err = helper
        .pipe
        .server
        .local_error()
        .expect("CloseConnection command should close the connection");
    assert!(err.is_app);
    assert_eq!(err.error_code, DoqError::ProtocolError.to_wire());
    assert_eq!(err.reason, b"bye");
}

/// A fatal protocol violation (here: a truncated STREAM FIN) makes
/// `process_reads` close the whole connection with `DoqError::ProtocolError`,
/// not just fail the one stream.
#[test]
fn protocol_error_closes_connection() {
    let mut helper = Helper::new();

    let stream_id = helper.next_stream_id();
    let wire = framed(b"hello");
    // Send everything but the last byte, with FIN: a truncated message.
    helper
        .pipe
        .client
        .stream_send(stream_id, &wire[..wire.len() - 1], true)
        .unwrap();
    helper.advance_and_run_loop();

    let err = helper
        .pipe
        .server
        .local_error()
        .expect("truncated FIN should be a fatal protocol error");
    assert!(err.is_app);
    assert_eq!(err.error_code, DoqError::ProtocolError.to_wire());
    assert_eq!(err.reason, b"DoQ protocol error");
}

/// The server's response stream window is limited to 20 bytes and a 200-byte
/// response is sent, so that only the prefix can be written and the remainder
/// is retained. Each `advance_and_run_loop` then provides the peer's window
/// update. The peer must receive one complete response followed by `Finished`,
/// rather than a truncated or duplicated response.
#[test]
fn partial_write_parks_and_flushes_on_writable() {
    let mut helper = Helper::with_limits(Limits {
        stream_data_bidi_local: 20,
        ..default_limits()
    });

    let stream_id = helper.peer_send_query(b"q");
    helper.advance_and_run_loop();
    let (_, _, responder) = helper.expect_query_event();

    let large = Bytes::from(vec![b'x'; 200]);
    send(&responder, large.clone(), true).unwrap();

    let mut got_response = None;
    let mut got_finished = false;
    for _ in 0..50 {
        helper.advance_and_run_loop();

        loop {
            match helper.peer_poll() {
                Ok((id, Event::Response { data })) => {
                    assert_eq!(id, stream_id);
                    assert!(got_response.is_none(), "expected exactly one Response");
                    got_response = Some(data);
                }
                Ok((id, Event::Finished)) => {
                    assert_eq!(id, stream_id);
                    // Finished is emitted once, after all response bytes drain.
                    got_finished = true;
                }
                Err(Error::Done) => break,
                other => panic!("unexpected event: {other:?}"),
            }
        }

        if got_finished {
            break;
        }
    }

    assert!(got_finished, "did not receive Finished within 50 rounds");
    assert_eq!(got_response, Some(large.to_vec()));
}

/// A responder's reset abandons the transaction with `RESET_STREAM` carrying
/// the given error code, and closes the responder.
#[test]
fn responder_reset_sends_reset_stream() {
    let mut helper = Helper::new();

    let stream_id = helper.peer_send_query(b"q");
    helper.advance_and_run_loop();
    let (_, _, responder) = helper.expect_query_event();

    reset(&responder, DoqError::RequestCancelled).unwrap();
    helper.advance_and_run_loop();

    assert_eq!(
        helper.peer_poll(),
        Ok((
            stream_id,
            Event::Reset(DoqError::RequestCancelled.to_wire())
        ))
    );
    assert!(is_closed(&responder));
}

/// A consumer that drops its `DoqResponder` without a final message abandons
/// the transaction: the driver resets the stream with `DoqError::InternalError`
/// rather than leaving it open indefinitely.
#[test]
fn dropped_responder_without_final_call_resets_stream() {
    let mut helper = Helper::new();

    let stream_id = helper.peer_send_query(b"q");
    helper.advance_and_run_loop();
    let (_, _, responder) = helper.expect_query_event();

    drop(responder);
    helper.advance_and_run_loop();

    assert_eq!(
        helper.peer_poll(),
        Ok((stream_id, Event::Reset(DoqError::InternalError.to_wire())))
    );
}

#[test]
fn a_driver_without_connection_cannot_act() {
    let mut qconn = Transport::new(true);
    let (mut driver, _controller) = DoqServerDriver::new(1);
    assert_eq!(
        driver.process_reads(&mut qconn),
        Err(DriverError::NotEstablished)
    );
    assert_eq!(
        driver.reset_stream(&mut qconn, 0, DoqError::NoError),
        Err(DriverError::NotEstablished)
    );
    assert_eq!(driver.process_writes(&mut qconn), Ok(()));
}

#[test]
fn a_full_event_channel_ends_the_connection() {
    let mut helper = Helper::with_limits(Limits {
        max_streams_bidi: 1,
        ..default_limits()
    });
    // More streams than the channel was made for, and nobody reads events.
    helper.pipe.client.streams_left_bidi = 3;
    for _ in 0..3 {
        helper.peer_send_query(b"q");
    }
    helper.pipe.advance();
    assert_eq!(
        helper.driver.process_reads(&mut helper.pipe.server),
        Err(DriverError::EventChannelFull)
    );
    assert_eq!(helper.driver.streams.len(), 2);
}

#[test]
fn the_event_channel_holds_one_more_than_there_are_streams() {
    let (driver, _controller) = DoqServerDriver::new(7);
    assert_eq!(driver.event_sender.max_capacity(), 8);
}

#[test]
fn a_query_for_a_consumer_that_is_gone_is_dropped() {
    let mut helper = Helper::new();
    drop(helper.controller.take_event_receiver());
    assert!(helper.controller.event_receiver_mut().is_none());
    assert!(helper.controller.take_event_receiver().is_none());
    helper.peer_send_query(b"q");
    helper.pipe.advance();
    assert_eq!(helper.driver.process_reads(&mut helper.pipe.server), Ok(()));
    assert!(helper.driver.streams.is_empty());
    assert!(helper.driver.waiting.is_empty());
}

#[test]
fn the_outcome_of_an_offer_decides_about_a_query() {
    let (mut driver, _controller) = DoqServerDriver::new(1);
    let (_, rx) = DoqServerDriver::query_event(b"q".to_vec(), true, ResponderCapacity::usual());
    assert_eq!(driver.query_offered(0, rx, Offer::Closed), Ok(()));
    assert!(driver.streams.is_empty());
    let (_, rx) = DoqServerDriver::query_event(b"q".to_vec(), true, ResponderCapacity::usual());
    assert_eq!(
        driver.query_offered(0, rx, Offer::Full),
        Err(DriverError::EventChannelFull)
    );
    assert!(driver.streams.is_empty());
    let (event, rx) = DoqServerDriver::query_event(b"q".to_vec(), true, ResponderCapacity::usual());
    assert_eq!(driver.query_offered(0, rx, Offer::Accepted), Ok(()));
    assert!(driver.streams[&0].rx.is_none());
    assert_eq!(driver.waiting.len(), 1);
    match event {
        DoqEvent::Query {
            data,
            is_0rtt,
            responder,
        } => {
            assert_eq!(data, Bytes::from_static(b"q"));
            assert!(is_0rtt);
            assert!(!is_closed(&responder));
        }
        other => panic!("unexpected event: {other:?}"),
    }
}

/// A client that resets its stream after the query was surfaced closes the
/// responder, whether its receiver is waited on or parked.
#[test]
fn a_reset_after_the_query_closes_the_responder() {
    let mut helper = Helper::new();
    let first = helper.peer_send_query(b"one");
    let second = helper.peer_send_query(b"two");
    helper.advance_and_run_loop();
    let (_, _, responder_first) = helper.expect_query_event();
    let (_, _, responder_second) = helper.expect_query_event();
    assert!(!is_closed(&responder_first));

    helper
        .driver
        .process_read_event(first, Event::Reset(9))
        .unwrap();
    assert!(is_closed(&responder_first));
    assert!(!is_closed(&responder_second));
    assert_eq!(
        send(&responder_first, Bytes::from_static(b"late"), true),
        Err(StreamClosed)
    );
    // The wait for the closed channel ends, and the query with it.
    assert!(helper.driver.streams.contains_key(&first));
    helper.work_loop_iter();
    assert!(!helper.driver.streams.contains_key(&first));
    assert!(helper.driver.streams.contains_key(&second));
}

#[test]
fn a_reset_drops_a_parked_receiver() {
    let mut helper = Helper::with_limits(Limits {
        stream_data_bidi_local: 20,
        ..default_limits()
    });
    let stream_id = helper.peer_send_query(b"q");
    helper.advance_and_run_loop();
    let (_, _, responder) = helper.expect_query_event();
    send(&responder, Bytes::from(vec![b'x'; 200]), true).unwrap();
    helper.work_loop_iter();
    assert!(helper.driver.streams[&stream_id].rx.is_some());
    assert!(helper.driver.streams[&stream_id].pending_fin);

    helper
        .driver
        .process_read_event(stream_id, Event::Reset(9))
        .unwrap();
    assert!(is_closed(&responder));
    assert!(helper.driver.streams.is_empty());
}

#[test]
fn an_answer_touches_its_own_stream_only() {
    let mut helper = Helper::new();
    let first = helper.peer_send_query(b"one");
    let second = helper.peer_send_query(b"two");
    helper.advance_and_run_loop();
    let (data, _, responder) = helper.expect_query_event();
    assert_eq!(data, Bytes::from_static(b"one"));
    let _other = helper.expect_query_event();
    send(&responder, Bytes::from_static(b"answer"), true).unwrap();
    helper.work_loop_iter();
    assert_eq!(
        helper.pipe.server.actions,
        vec![Action::Send {
            stream_id: first,
            data: framed(b"answer"),
            fin: true,
        }]
    );
    assert!(!helper.driver.streams.contains_key(&first));
    assert!(helper.driver.streams.contains_key(&second));
}

#[test]
fn the_consumer_learns_that_the_connection_has_closed() {
    let mut helper = Helper::new();
    helper.driver.on_conn_close();
    assert!(matches!(
        helper.try_recv_event(),
        Ok(DoqEvent::ConnectionClosed)
    ));
}

#[test]
fn a_command_behind_another_wakeup_is_executed_too() {
    let mut helper = Helper::new();
    helper.peer_send_query(b"q");
    helper.advance_and_run_loop();
    let (_, _, responder) = helper.expect_query_event();
    helper
        .controller
        .close_connection(DoqError::NoError, b"later".to_vec());
    send(&responder, Bytes::from_static(b"a"), true).unwrap();
    wait_once(&mut helper.driver, &mut helper.pipe.server).unwrap();
    // The wait ended for the answer, and the command came with it.
    assert_eq!(helper.pipe.server.local_error().unwrap().reason, b"later");
    assert!(matches!(
        helper.pipe.server.actions[0],
        Action::Send { fin: true, .. }
    ));
}

#[test]
fn a_second_close_has_no_effect() {
    let mut helper = Helper::new();
    let cmd = DoqCommand::CloseConnection {
        error: DoqError::ExcessiveLoad,
        reason: b"first".to_vec(),
    };
    helper
        .driver
        .handle_command(&mut helper.pipe.server, cmd)
        .unwrap();
    let cmd = DoqCommand::CloseConnection {
        error: DoqError::NoError,
        reason: b"second".to_vec(),
    };
    helper
        .driver
        .handle_command(&mut helper.pipe.server, cmd)
        .unwrap();
    let error = helper.pipe.server.local_error().unwrap();
    assert_eq!(error.error_code, 4);
    assert_eq!(error.reason, b"first");
}

/// While bytes of a response wait, the next one stays in the consumer's
/// channel, so that no more than one message waits for a stream.
#[test]
fn a_parked_response_holds_the_next_one_back() {
    let limits = Limits {
        stream_data_bidi_local: 20,
        ..default_limits()
    };
    let mut helper = Helper::with_capacity(limits, ResponderCapacity::usual());
    let stream_id = helper.peer_send_query(b"axfr");
    helper.advance_and_run_loop();
    let (_, _, responder) = helper.expect_query_event();
    for fin in [false, false, true] {
        send(&responder, Bytes::from(vec![b'x'; 100]), fin).unwrap();
    }
    let mut events = Vec::new();
    for _ in 0..50 {
        helper.advance_and_run_loop();
        if let Some(state) = helper.driver.conn.as_ref().unwrap().streams.get(&stream_id) {
            assert!(state.send_buf.len() <= 102);
        }
        while let Ok((_, event)) = helper.peer_poll() {
            events.push(event);
        }
    }
    let response = Event::Response {
        data: vec![b'x'; 100],
    };
    assert_eq!(
        events,
        vec![
            response.clone(),
            response.clone(),
            response,
            Event::Finished
        ]
    );
}

#[test]
fn a_future_that_has_resolved_has_nothing_more_to_say() {
    let (event, rx) = DoqServerDriver::query_event(Vec::new(), false, ResponderCapacity::usual());
    let mut future = WaitForResponder::new(4, rx);
    assert!((&mut future).now_or_never().is_none());
    drop(event);
    let ready = (&mut future).now_or_never().unwrap();
    assert_eq!(ready.stream_id, 4);
    assert!(ready.message.is_none());
    assert!((&mut future).now_or_never().is_none());
}

#[test]
fn closing_a_future_concerns_its_stream_only() {
    let (event, rx) = DoqServerDriver::query_event(Vec::new(), false, ResponderCapacity::usual());
    let mut future = WaitForResponder::new(4, rx);
    let responder = match event {
        DoqEvent::Query { responder, .. } => responder,
        other => panic!("unexpected event: {other:?}"),
    };
    future.close_for(0);
    assert!(!is_closed(&responder));
    send(&responder, Bytes::from_static(b"in time"), false).unwrap();
    future.close_for(4);
    assert!(is_closed(&responder));
    // What was sent before can still be received.
    let ready = (&mut future).now_or_never().unwrap();
    match ready.message {
        Some(ResponderMessage::Response { data, fin }) => {
            assert_eq!(data, Bytes::from_static(b"in time"));
            assert!(!fin);
        }
        other => panic!("unexpected message: {other:?}"),
    }
}
