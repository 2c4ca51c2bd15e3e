//! Two endpoints that talk to each other.

use std::collections::HashMap;

use doq::connection::{Connection, Error, Event, StreamState};
use doq::transport::{
    is_bidi, is_local, Action, ConnectionError, RecvEnd, SendEnd, Shutdown, Transport,
    TransportError, TransportStream,
};
use doq::wire::{write_dns_message, DoqError, MAX_DOQ_MESSAGE_LEN};

/// The limits that the endpoints of a [`Pipe`] grant each other.
#[derive(Clone, Copy)]
struct Limits {
    max_data: usize,
    stream_data_bidi_local: usize,
    stream_data_bidi_remote: usize,
    max_streams_bidi: u64,
    max_streams_uni: u64,
}

/// What one endpoint of a [`Pipe`] has sent and received so far.
#[derive(Default)]
struct Traffic {
    sent: usize,
    sent_on: HashMap<u64, usize>,
    received_on: HashMap<u64, usize>,
    resets_sent: usize,
    resets_received: usize,
}

/// Two QUIC connections that are each other's peer.
struct Pipe {
    client: Transport,
    server: Transport,
    client_traffic: Traffic,
    server_traffic: Traffic,
    limits: Limits,
}

fn endpoint(is_server: bool, limits: Limits) -> Transport {
    let mut transport = Transport::new(is_server);
    transport.send_capacity = limits.max_data;
    transport.streams_left_bidi = limits.max_streams_bidi;
    transport.streams_left_uni = limits.max_streams_uni;
    transport.initial_window = limits.stream_data_bidi_remote;
    transport
}

/// The stream at the receiving endpoint, which gets to know it.
fn known_stream<'a>(
    to: &'a mut Transport,
    stream_id: u64,
    limits: Limits,
) -> &'a mut TransportStream {
    to.streams
        .entry(stream_id)
        .or_insert_with(|| TransportStream {
            recv_data: Vec::new(),
            recv_end: RecvEnd::Open,
            arrived_early: false,
            send_window: limits.stream_data_bidi_local,
            stopped: None,
            send_end: if is_bidi(stream_id) {
                SendEnd::Open
            } else {
                SendEnd::Fin
            },
        })
}

fn readable(to: &mut Transport, stream_id: u64) {
    if !to.readable.contains(&stream_id) {
        to.readable.push(stream_id);
    }
}

fn deliver(
    from: &mut Transport,
    from_traffic: &mut Traffic,
    to: &mut Transport,
    to_traffic: &mut Traffic,
    limits: Limits,
) {
    for action in std::mem::take(&mut from.actions) {
        match action {
            Action::Open { .. } => {}
            Action::Send {
                stream_id,
                data,
                fin,
            } => {
                from_traffic.sent += data.len();
                *from_traffic.sent_on.entry(stream_id).or_default() += data.len();
                let is_first = !to_traffic.received_on.contains_key(&stream_id);
                *to_traffic.received_on.entry(stream_id).or_default() += data.len();
                let in_early_data = to.in_early_data;
                let stream = known_stream(to, stream_id, limits);
                if is_first {
                    stream.arrived_early = in_early_data;
                }
                if stream.recv_end == RecvEnd::Open {
                    stream.recv_data.extend_from_slice(&data);
                    if fin {
                        stream.recv_end = RecvEnd::Fin;
                    }
                    readable(to, stream_id);
                }
            }
            Action::Shutdown {
                stream_id,
                direction: Shutdown::Write,
                error,
            } => {
                from_traffic.resets_sent += 1;
                to_traffic.resets_received += 1;
                let stream = known_stream(to, stream_id, limits);
                if stream.recv_end == RecvEnd::Open {
                    stream.recv_data.clear();
                    stream.recv_end = RecvEnd::Reset(error);
                    readable(to, stream_id);
                }
            }
            Action::Shutdown {
                stream_id,
                direction: Shutdown::Read,
                error,
            } => {
                known_stream(to, stream_id, limits).stopped = Some(error);
                to.writable.push_back(stream_id);
            }
            Action::Close { .. } => to.closed = true,
        }
    }
}

/// Grants the sender what the receiver has read.
fn grant(from: &mut Transport, from_traffic: &Traffic, to: &Transport, to_traffic: &Traffic, limits: Limits) {
    let mut read_in_all = 0;
    for (stream_id, received) in &to_traffic.received_on {
        let unread = to.streams[stream_id].recv_data.len();
        let read = received - unread;
        read_in_all += read;
        let initial = if is_local(*stream_id, from.is_server) {
            limits.stream_data_bidi_remote
        } else {
            limits.stream_data_bidi_local
        };
        let stream = from.streams.get_mut(stream_id).unwrap();
        let window = initial + read - from_traffic.sent_on[stream_id];
        if window > stream.send_window {
            stream.send_window = window;
            from.writable.push_back(*stream_id);
        }
    }
    from.send_capacity = limits.max_data + read_in_all - from_traffic.sent;
}

impl Pipe {
    fn new(limits: Limits) -> Pipe {
        Pipe {
            client: endpoint(false, limits),
            server: endpoint(true, limits),
            client_traffic: Traffic::default(),
            server_traffic: Traffic::default(),
            limits,
        }
    }

    /// Carries everything over that was asked for, and the grants of what was
    /// read.
    fn advance(&mut self) {
        deliver(
            &mut self.client,
            &mut self.client_traffic,
            &mut self.server,
            &mut self.server_traffic,
            self.limits,
        );
        deliver(
            &mut self.server,
            &mut self.server_traffic,
            &mut self.client,
            &mut self.client_traffic,
            self.limits,
        );
        grant(
            &mut self.client,
            &self.client_traffic,
            &self.server,
            &self.server_traffic,
            self.limits,
        );
        grant(
            &mut self.server,
            &self.server_traffic,
            &self.client,
            &self.client_traffic,
            self.limits,
        );
    }
}

fn framed(data: &[u8]) -> Vec<u8> {
    let mut out = Vec::new();
    write_dns_message(&mut out, data).unwrap();
    out
}

/// Windows that are large enough for the multi-response (zone-transfer) test
/// to arrive in a single `Pipe::advance()` call.
fn doq_limits() -> Limits {
    Limits {
        max_data: 30,
        stream_data_bidi_local: 10_000,
        stream_data_bidi_remote: 10_000,
        max_streams_bidi: 3,
        max_streams_uni: 3,
    }
}

fn assert_protocol_close(conn: &Transport) {
    assert_eq!(
        conn.local_error(),
        Some(&ConnectionError {
            is_app: true,
            error_code: DoqError::ProtocolError.to_wire(),
            reason: b"DoQ protocol error".to_vec(),
        })
    );
}

#[test]
fn send_query_allocates_and_frames_client_streams() {
    let mut pipe = Pipe::new(doq_limits());

    let mut client = Connection::with_transport(&pipe.client).unwrap();

    assert_eq!(client.send_query(&mut pipe.client, b"zero"), Ok(0));
    assert_eq!(client.send_query(&mut pipe.client, b"four"), Ok(4));
    assert_eq!(client.send_query(&mut pipe.client, b"eight"), Ok(8));
    assert!(!client.query_pending(0));
    assert!(!client.query_pending(4));
    assert!(!client.query_pending(8));

    pipe.advance();

    for (stream_id, data) in [
        (0, b"zero".as_slice()),
        (4, b"four".as_slice()),
        (8, b"eight".as_slice()),
    ] {
        let (bytes, fin) = pipe.server.stream_recv(stream_id, 16).unwrap();
        assert_eq!((bytes.len(), fin), (data.len() + 2, true));
        assert_eq!(bytes, framed(data));
    }

    pipe.server.stream_send(8, &framed(b"eight"), true).unwrap();
    pipe.server.stream_send(0, &framed(b"zero"), true).unwrap();
    pipe.server.stream_send(4, &framed(b"four"), true).unwrap();
    pipe.advance();

    let mut responses = Vec::new();
    for _ in 0..6 {
        match client.poll(&mut pipe.client).unwrap() {
            (stream_id, Event::Response { data }) => {
                responses.push((stream_id, data));
            }
            (_, Event::Finished) => (),
            (_, event) => panic!("unexpected event: {event:?}"),
        }
    }
    responses.sort_unstable_by_key(|(stream_id, _)| *stream_id);
    assert_eq!(
        responses,
        vec![
            (0, b"zero".to_vec()),
            (4, b"four".to_vec()),
            (8, b"eight".to_vec()),
        ]
    );
}

#[test]
fn send_query_rejects_server_role_and_oversize_without_consuming_id() {
    let mut pipe = Pipe::new(doq_limits());

    let mut server = Connection::with_transport(&pipe.server).unwrap();
    assert_eq!(
        server.send_query(&mut pipe.server, b"query"),
        Err(Error::ClientOnly)
    );

    let mut client = Connection::with_transport(&pipe.client).unwrap();
    assert_eq!(
        client.send_query(&mut pipe.client, &[0; 65_536]),
        Err(Error::MessageTooLarge)
    );
    assert_eq!(client.send_query(&mut pipe.client, b"query"), Ok(0));
}

/// Reads what is at hand on stream 0, and whether the stream has ended.
fn receive_all(server: &mut Transport, received: &mut Vec<u8>, fin: &mut bool) {
    loop {
        match server.stream_recv(0, 256) {
            Ok((bytes, stream_fin)) => {
                received.extend_from_slice(&bytes);
                *fin |= stream_fin;
            }
            Err(TransportError::Done) => break,
            Err(error) => panic!("unexpected receive error: {error:?}"),
        }
    }
}

#[test]
fn send_query_partial_write_delivers_fin_with_final_bytes() {
    let mut pipe = Pipe::new(Limits {
        stream_data_bidi_remote: 20,
        ..doq_limits()
    });

    let query = vec![0xAB; 200];
    let mut client = Connection::with_transport(&pipe.client).unwrap();
    assert_eq!(client.send_query(&mut pipe.client, &query), Ok(0));
    assert!(client.query_pending(0));

    let mut received = Vec::new();
    let mut fin = false;
    for _ in 0..50 {
        pipe.advance();
        receive_all(&mut pipe.server, &mut received, &mut fin);

        if !client.query_pending(0) {
            break;
        }

        // The stream has not ended while bytes of the query wait.
        assert!(!fin);
        client.flush_query(&mut pipe.client, 0).unwrap();
    }

    pipe.advance();
    receive_all(&mut pipe.server, &mut received, &mut fin);

    assert!(!client.query_pending(0));
    assert!(fin);
    assert_eq!(received, framed(&query));
}

#[test]
fn cancel_query_sends_stop_sending() {
    let mut pipe = Pipe::new(doq_limits());

    let mut client = Connection::with_transport(&pipe.client).unwrap();
    assert_eq!(client.send_query(&mut pipe.client, b"query"), Ok(0));
    pipe.advance();

    assert_eq!(
        client.cancel_query(&mut pipe.client, 0, DoqError::RequestCancelled.to_wire()),
        Ok(())
    );
    pipe.advance();

    // The server observes the cancellation as `StreamStopped` carrying the DoQ
    // error code the client asked for.
    assert_eq!(
        pipe.server.stream_send(0, &framed(b"response"), true),
        Err(TransportError::StreamStopped(
            DoqError::RequestCancelled.to_wire()
        ))
    );
}

#[test]
fn cancel_query_stops_response_events() {
    let mut pipe = Pipe::new(doq_limits());

    let mut client = Connection::with_transport(&pipe.client).unwrap();
    assert_eq!(client.send_query(&mut pipe.client, b"query"), Ok(0));
    pipe.advance();

    // The response is already on the wire when the cancellation is issued, so
    // it arrives at a stream the client no longer tracks.
    pipe.server
        .stream_send(0, &framed(b"response"), true)
        .unwrap();
    assert_eq!(
        client.cancel_query(&mut pipe.client, 0, DoqError::RequestCancelled.to_wire()),
        Ok(())
    );
    pipe.advance();

    // `Shutdown::Read` drops the stream from the readable set, so the discarded
    // response never reaches `poll`.
    assert_eq!(client.poll(&mut pipe.client), Err(Error::Done));
    assert!(pipe.client.local_error().is_none());
}

#[test]
fn cancel_query_partial_query_resets_send_side() {
    // Too small for the framed query, so the fin is never sent.
    let mut pipe = Pipe::new(Limits {
        stream_data_bidi_remote: 20,
        ..doq_limits()
    });

    let mut client = Connection::with_transport(&pipe.client).unwrap();
    assert_eq!(client.send_query(&mut pipe.client, &[b'q'; 64]), Ok(0));
    assert!(client.query_pending(0));
    pipe.advance();

    assert_eq!(
        client.cancel_query(&mut pipe.client, 0, DoqError::RequestCancelled.to_wire()),
        Ok(())
    );
    pipe.advance();

    // The half-sent query is reset, so the server stops waiting for a fin that
    // will never arrive.
    assert_eq!(
        pipe.server.stream_recv(0, 64),
        Err(TransportError::StreamReset(
            DoqError::RequestCancelled.to_wire()
        ))
    );
}

#[test]
fn cancel_query_unknown_stream_is_error() {
    let mut pipe = Pipe::new(doq_limits());

    let mut client = Connection::with_transport(&pipe.client).unwrap();
    let error = DoqError::RequestCancelled.to_wire();

    assert_eq!(
        client.cancel_query(&mut pipe.client, 0, error),
        Err(Error::UnknownStream)
    );

    assert_eq!(client.send_query(&mut pipe.client, b"query"), Ok(0));
    assert_eq!(client.cancel_query(&mut pipe.client, 0, error), Ok(()));

    // The state is gone, so cancelling twice is not idempotent.
    assert_eq!(
        client.cancel_query(&mut pipe.client, 0, error),
        Err(Error::UnknownStream)
    );
}

#[test]
fn cancel_query_on_server_is_client_only() {
    let mut pipe = Pipe::new(doq_limits());

    let mut server = Connection::with_transport(&pipe.server).unwrap();
    assert_eq!(
        server.cancel_query(&mut pipe.server, 0, DoqError::RequestCancelled.to_wire()),
        Err(Error::ClientOnly)
    );
}

#[test]
fn client_stop_sending_closes_with_protocol_error_during_query_send() {
    let mut pipe = Pipe::new(Limits {
        stream_data_bidi_remote: 20,
        ..doq_limits()
    });

    let mut client = Connection::with_transport(&pipe.client).unwrap();
    assert_eq!(client.send_query(&mut pipe.client, &[0; 200]), Ok(0));
    assert!(client.query_pending(0));

    pipe.advance();

    pipe.server.stream_shutdown(0, Shutdown::Read, 42).unwrap();
    pipe.advance();

    assert_eq!(
        client.flush_query(&mut pipe.client, 0),
        Err(Error::ProtocolError)
    );
    assert_protocol_close(&pipe.client);
}

#[test]
fn client_stop_sending_closes_after_query_bytes_drain() {
    let mut pipe = Pipe::new(doq_limits());

    let mut client = Connection::with_transport(&pipe.client).unwrap();
    assert_eq!(client.send_query(&mut pipe.client, b"query"), Ok(0));
    assert!(!client.query_pending(0));
    pipe.advance();

    // A STOP_SENDING frame arrives for the stream that has ended.
    pipe.client.streams.get_mut(&0).unwrap().stopped = Some(42);

    assert_eq!(
        client.flush_query(&mut pipe.client, 0),
        Err(Error::ProtocolError)
    );
    assert_protocol_close(&pipe.client);
}

#[test]
fn client_stop_sending_wins_over_a_simultaneous_response() {
    let mut pipe = Pipe::new(Limits {
        stream_data_bidi_remote: 20,
        ..doq_limits()
    });

    let mut client = Connection::with_transport(&pipe.client).unwrap();
    assert_eq!(client.send_query(&mut pipe.client, &[0; 200]), Ok(0));
    pipe.advance();

    pipe.server
        .stream_send(0, &framed(b"response"), false)
        .unwrap();
    pipe.server.stream_shutdown(0, Shutdown::Read, 42).unwrap();
    pipe.advance();

    assert_eq!(client.poll(&mut pipe.client), Err(Error::ProtocolError));
    assert_protocol_close(&pipe.client);
}

#[test]
fn query_probe_propagates_non_protocol_errors() {
    let mut pipe = Pipe::new(doq_limits());

    let mut client = Connection::with_transport(&pipe.client).unwrap();
    client.streams.insert(
        0,
        StreamState {
            is_local: true,
            ..Default::default()
        },
    );

    assert_eq!(
        client.probe_query_stream(&mut pipe.client, 0),
        Err(Error::TransportError(TransportError::InvalidStreamState(0)))
    );
}

#[test]
fn server_reset_on_opened_query_surfaces_as_event() {
    let mut pipe = Pipe::new(doq_limits());

    let mut client = Connection::with_transport(&pipe.client).unwrap();
    assert_eq!(client.send_query(&mut pipe.client, b"query"), Ok(0));
    pipe.advance();

    pipe.server.stream_shutdown(0, Shutdown::Write, 42).unwrap();
    pipe.advance();

    assert_eq!(client.poll(&mut pipe.client), Ok((0, Event::Reset(42))));
}

#[test]
fn send_query_stream_limit_preserves_id() {
    let mut pipe = Pipe::new(Limits {
        max_streams_bidi: 0,
        ..doq_limits()
    });

    let mut client = Connection::with_transport(&pipe.client).unwrap();
    assert_eq!(
        client.send_query(&mut pipe.client, b"query"),
        Err(Error::TransportError(TransportError::StreamLimit))
    );
    assert_eq!(client.next_query_stream_id, 0);
    assert!(!client.query_pending(0));
}

#[test]
fn send_query_works_in_early_data() {
    let mut pipe = Pipe::new(doq_limits());
    pipe.client.in_early_data = true;
    assert!(pipe.client.is_in_early_data());

    let mut client = Connection::with_transport(&pipe.client).unwrap();
    assert_eq!(client.send_query(&mut pipe.client, b"early"), Ok(0));
    assert!(!client.query_pending(0));
}

#[test]
fn server_response_stop_sending_is_a_transport_error() {
    let mut pipe = Pipe::new(doq_limits());

    let mut server = Connection::with_transport(&pipe.server).unwrap();
    pipe.client.stream_send(0, &framed(b"query"), true).unwrap();
    pipe.advance();
    assert!(matches!(
        server.poll(&mut pipe.server),
        Ok((0, Event::Query { .. }))
    ));

    pipe.client.stream_shutdown(0, Shutdown::Read, 42).unwrap();
    pipe.advance();

    assert_eq!(
        server.send_response(&mut pipe.server, 0, b"response", true),
        Err(Error::TransportError(TransportError::StreamStopped(42)))
    );
    assert_eq!(pipe.server.local_error(), None);
}

#[test]
fn query_split_length_prefix_across_reads() {
    let mut pipe = Pipe::new(doq_limits());

    let mut server = Connection::with_transport(&pipe.server).unwrap();

    let wire = framed(b"hello");

    // First send only the first byte of the 2-octet length prefix.
    pipe.client.stream_send(0, &wire[..1], false).unwrap();
    pipe.advance();

    assert_eq!(
        server.poll(&mut pipe.server),
        Err(Error::Done),
        "no complete message yet"
    );

    // Now send the rest, with FIN.
    pipe.client.stream_send(0, &wire[1..], true).unwrap();
    pipe.advance();

    assert_eq!(
        server.poll(&mut pipe.server),
        Ok((
            0,
            Event::Query {
                data: b"hello".to_vec(),
                is_0rtt: false,
            }
        ))
    );

    assert_eq!(server.poll(&mut pipe.server), Err(Error::Done));
}

#[test]
fn query_truncated_fin_is_protocol_error() {
    let mut pipe = Pipe::new(doq_limits());

    let mut server = Connection::with_transport(&pipe.server).unwrap();

    let wire = framed(b"hello");

    // Send everything but the last byte, with FIN.
    pipe.client
        .stream_send(0, &wire[..wire.len() - 1], true)
        .unwrap();
    pipe.advance();

    assert_eq!(server.poll(&mut pipe.server), Err(Error::ProtocolError));
    assert_protocol_close(&pipe.server);
    assert_eq!(server.poll(&mut pipe.server), Err(Error::Done));
}

#[test]
fn query_second_message_is_protocol_error() {
    let mut pipe = Pipe::new(doq_limits());

    let mut server = Connection::with_transport(&pipe.server).unwrap();

    let mut wire = framed(b"hello");
    wire.extend_from_slice(&framed(b"world"));

    pipe.client.stream_send(0, &wire, true).unwrap();
    pipe.advance();

    assert_eq!(server.poll(&mut pipe.server), Err(Error::ProtocolError));
}

#[test]
fn query_second_message_before_fin_is_protocol_error() {
    let mut pipe = Pipe::new(doq_limits());

    let mut server = Connection::with_transport(&pipe.server).unwrap();

    let mut wire = framed(b"hello");
    wire.extend_from_slice(&framed(b"world"));

    // No FIN yet -- the second query's bytes are already a protocol error on
    // their own, without needing to wait for FIN.
    pipe.client.stream_send(0, &wire, false).unwrap();
    pipe.advance();

    assert_eq!(server.poll(&mut pipe.server), Err(Error::ProtocolError));
}

#[test]
fn client_initiated_unidirectional_stream_is_protocol_error() {
    let mut pipe = Pipe::new(doq_limits());

    let mut server = Connection::with_transport(&pipe.server).unwrap();

    // Stream 2 is client-initiated unidirectional.
    pipe.client.stream_send(2, &framed(b"hello"), true).unwrap();
    pipe.advance();

    assert_eq!(server.poll(&mut pipe.server), Err(Error::ProtocolError));
}

#[test]
fn server_initiated_stream_rejected_by_client_role() {
    let mut pipe = Pipe::new(doq_limits());

    let mut client = Connection::with_transport(&pipe.client).unwrap();

    // Stream 1 is server-initiated bidirectional.
    pipe.server.stream_send(1, &framed(b"hello"), true).unwrap();
    pipe.advance();

    assert_eq!(client.poll(&mut pipe.client), Err(Error::ProtocolError));
    assert_protocol_close(&pipe.client);
}

#[test]
fn client_fin_before_response_is_protocol_error() {
    let mut pipe = Pipe::new(doq_limits());

    let mut client = Connection::with_transport(&pipe.client).unwrap();
    assert_eq!(client.send_query(&mut pipe.client, b"query"), Ok(0));
    pipe.advance();

    pipe.server.stream_send(0, b"", true).unwrap();
    pipe.advance();

    assert_eq!(client.poll(&mut pipe.client), Err(Error::ProtocolError));
    assert_protocol_close(&pipe.client);
}

#[test]
fn connection_multi_response_zone_transfer() {
    let mut pipe = Pipe::new(doq_limits());

    let mut client = Connection::with_transport(&pipe.client).unwrap();

    assert_eq!(client.send_query(&mut pipe.client, b"axfr query"), Ok(0));
    pipe.advance();

    let mut wire = framed(b"answer 1");
    wire.extend_from_slice(&framed(b"answer 2"));
    wire.extend_from_slice(&framed(b"answer 3"));

    pipe.server.stream_send(0, &wire, true).unwrap();
    pipe.advance();

    assert_eq!(
        client.poll(&mut pipe.client),
        Ok((
            0,
            Event::Response {
                data: b"answer 1".to_vec()
            }
        ))
    );
    assert_eq!(
        client.poll(&mut pipe.client),
        Ok((
            0,
            Event::Response {
                data: b"answer 2".to_vec()
            }
        ))
    );
    assert_eq!(
        client.poll(&mut pipe.client),
        Ok((
            0,
            Event::Response {
                data: b"answer 3".to_vec()
            }
        ))
    );
    assert_eq!(client.poll(&mut pipe.client), Ok((0, Event::Finished)));
    assert_eq!(client.poll(&mut pipe.client), Err(Error::Done));
}

#[test]
fn client_reset_stream_surfaces_as_event() {
    let mut pipe = Pipe::new(doq_limits());

    let mut server = Connection::with_transport(&pipe.server).unwrap();

    // Start a query but don't finish it, then abandon it with RESET_STREAM
    // instead of STREAM FIN.
    pipe.client
        .stream_send(0, &framed(b"hello")[..3], false)
        .unwrap();
    pipe.client.stream_shutdown(0, Shutdown::Write, 42).unwrap();
    pipe.advance();

    assert_eq!(server.poll(&mut pipe.server), Ok((0, Event::Reset(42))));

    // The stream is no longer tracked: a later attempt to respond to it (e.g.
    // because the consumer's response was already in flight when the reset
    // arrived) is a no-op error, not a panic.
    assert_eq!(
        server.send_response(&mut pipe.server, 0, b"too late", true),
        Err(Error::UnknownStream)
    );

    // Server replies with RESET_STREAM.
    pipe.advance();
    assert_eq!(
        pipe.server_traffic.resets_received, 1,
        "server should count the remote reset"
    );
    assert_eq!(
        pipe.server_traffic.resets_sent, 1,
        "server should reset its own send side before query FIN"
    );
}

#[test]
fn server_echoed_reset_reaches_client() {
    let mut pipe = Pipe::new(doq_limits());

    let mut server = Connection::with_transport(&pipe.server).unwrap();
    let mut client = Connection::with_transport(&pipe.client).unwrap();

    // The client abandons a query before sending STREAM FIN.
    pipe.client
        .stream_send(0, &framed(b"hello")[..3], false)
        .unwrap();
    pipe.client.stream_shutdown(0, Shutdown::Write, 42).unwrap();
    pipe.advance();

    assert_eq!(server.poll(&mut pipe.server), Ok((0, Event::Reset(42))));

    // Round-trip the server's echoed RESET_STREAM back to the client to confirm
    // it was actually sent on the wire, not just requested locally.
    pipe.advance();

    assert_eq!(client.poll(&mut pipe.client), Ok((0, Event::Reset(42))));
}

#[test]
fn already_reset_stream_is_not_echoed_again() {
    let mut pipe = Pipe::new(doq_limits());

    let mut server = Connection::with_transport(&pipe.server).unwrap();

    // Client sends a partial query, no FIN yet.
    pipe.client
        .stream_send(0, &framed(b"hello")[..3], false)
        .unwrap();
    pipe.advance();
    assert_eq!(server.poll(&mut pipe.server), Err(Error::Done));

    // The driver abandons the transaction for a reason unrelated to a
    // client-initiated reset (e.g. an internal error), resetting the server's
    // own send side before the client's own RESET_STREAM below is processed.
    server.reset_stream(&mut pipe.server, 0, 7).unwrap();

    // The client independently resets its send side before indicating STREAM
    // FIN, racing with the server's reset above.
    pipe.client.stream_shutdown(0, Shutdown::Write, 42).unwrap();
    pipe.advance();

    assert_eq!(server.poll(&mut pipe.server), Ok((0, Event::Reset(42))));

    // RFC 9250, Section 4.3.1 forbids a second RESET_STREAM because the server
    // already reset the stream for another reason.
    pipe.advance();
    assert_eq!(
        pipe.server_traffic.resets_sent, 1,
        "server should not echo a reset for a stream it already reset"
    );
}

#[test]
fn reset_after_query_fin_is_not_echoed() {
    let mut pipe = Pipe::new(doq_limits());

    let mut server = Connection::with_transport(&pipe.server).unwrap();

    // Send a complete framed query with FIN.
    pipe.client.stream_send(0, &framed(b"hello"), true).unwrap();
    pipe.advance();

    assert_eq!(
        server.poll(&mut pipe.server),
        Ok((
            0,
            Event::Query {
                data: b"hello".to_vec(),
                is_0rtt: false,
            }
        ))
    );

    // The client resets the stream after its FIN was already sent. A reset of
    // the same final size is accepted, but does not come up again from
    // `stream_recv`, so the DoQ layer never sees this as a reset to echo.
    pipe.client.stream_shutdown(0, Shutdown::Write, 42).unwrap();
    pipe.advance();

    assert_eq!(server.poll(&mut pipe.server), Err(Error::Done));

    pipe.advance();
    assert_eq!(
        pipe.server_traffic.resets_received, 1,
        "server should still count the remote reset"
    );
    assert_eq!(
        pipe.server_traffic.resets_sent, 0,
        "server should NOT echo a reset that arrives after query FIN"
    );
}

#[test]
fn is_0rtt_captured_correctly() {
    let mut pipe = Pipe::new(doq_limits());

    let mut server = Connection::with_transport(&pipe.server).unwrap();

    pipe.client.stream_send(0, &framed(b"hello"), true).unwrap();
    pipe.advance();

    match server.poll(&mut pipe.server) {
        Ok((0, Event::Query { is_0rtt, .. })) => {
            assert!(!is_0rtt, "post-handshake query is not 0-RTT");
        }
        other => panic!("unexpected result: {other:?}"),
    }
}

#[test]
fn send_response_unknown_stream_is_a_no_op_error() {
    let mut pipe = Pipe::new(doq_limits());

    let mut server = Connection::with_transport(&pipe.server).unwrap();

    assert_eq!(
        server.send_response(&mut pipe.server, 0, b"hello", true),
        Err(Error::UnknownStream)
    );
}

#[test]
fn send_response_roundtrip() {
    let mut pipe = Pipe::new(doq_limits());

    let mut server = Connection::with_transport(&pipe.server).unwrap();
    let mut client = Connection::with_transport(&pipe.client).unwrap();

    pipe.client.stream_send(0, &framed(b"hello"), true).unwrap();
    pipe.advance();

    assert_eq!(
        server.poll(&mut pipe.server),
        Ok((
            0,
            Event::Query {
                data: b"hello".to_vec(),
                is_0rtt: false,
            }
        ))
    );

    server
        .send_response(&mut pipe.server, 0, b"world", true)
        .unwrap();
    pipe.advance();

    assert_eq!(
        client.poll(&mut pipe.client),
        Ok((
            0,
            Event::Response {
                data: b"world".to_vec()
            }
        ))
    );
    assert_eq!(client.poll(&mut pipe.client), Ok((0, Event::Finished)));

    // The transaction is complete; a second response is now unknown.
    assert_eq!(
        server.send_response(&mut pipe.server, 0, b"again", true),
        Err(Error::UnknownStream)
    );
}

/// Limits under which the server's send window on stream 0 is small enough to
/// force `send_response` into a partial write, while the client's own send path
/// and the connection-level flow control are unconstrained.
fn small_window_limits() -> Limits {
    Limits {
        max_data: 10_000,
        stream_data_bidi_local: 20,
        stream_data_bidi_remote: 10_000,
        ..doq_limits()
    }
}

/// Drains `server`'s buffered response on `stream_id` across as many
/// `flush_response`/`Pipe::advance` round trips as it takes for the small
/// window in [`small_window_limits`] to grow enough, polling `client` after
/// each round trip and collecting every event it produces along the way.
/// Bounded so a regression that never drains fails the test instead of hanging
/// it.
fn drain_response(
    pipe: &mut Pipe,
    server: &mut Connection,
    client: &mut Connection,
    stream_id: u64,
) -> Vec<Event> {
    let mut events = Vec::new();
    let mut iterations = 0;

    loop {
        pipe.advance();

        loop {
            match client.poll(&mut pipe.client) {
                Ok((_, ev)) => events.push(ev),
                Err(Error::Done) => break,
                Err(e) => panic!("unexpected client poll error: {e:?}"),
            }
        }

        pipe.advance();

        if !server.response_pending(stream_id) {
            break;
        }

        server.flush_response(&mut pipe.server, stream_id).unwrap();

        iterations += 1;
        assert!(iterations < 50, "drain loop did not terminate");
    }

    events
}

#[test]
fn send_response_partial_write_drains_across_flushes() {
    let mut pipe = Pipe::new(small_window_limits());

    let mut server = Connection::with_transport(&pipe.server).unwrap();
    let mut client = Connection::with_transport(&pipe.client).unwrap();

    pipe.client.stream_send(0, &framed(b"query"), true).unwrap();
    pipe.advance();

    assert_eq!(
        server.poll(&mut pipe.server),
        Ok((
            0,
            Event::Query {
                data: b"query".to_vec(),
                is_0rtt: false,
            }
        ))
    );

    let body = vec![0xAB; 200];

    assert_eq!(
        server.send_response(&mut pipe.server, 0, &body, true),
        Ok(())
    );
    assert!(
        server.response_pending(0),
        "200 bytes shouldn't fit in the 20-byte window in one write"
    );

    let events = drain_response(&mut pipe, &mut server, &mut client, 0);

    assert!(!server.response_pending(0));
    assert_eq!(
        events,
        vec![Event::Response { data: body }, Event::Finished]
    );
    assert_eq!(client.poll(&mut pipe.client), Err(Error::Done));
}

#[test]
fn fin_not_delivered_until_response_fully_drained() {
    let mut pipe = Pipe::new(small_window_limits());

    let mut server = Connection::with_transport(&pipe.server).unwrap();
    let mut client = Connection::with_transport(&pipe.client).unwrap();

    pipe.client.stream_send(0, &framed(b"query"), true).unwrap();
    pipe.advance();

    assert_eq!(
        server.poll(&mut pipe.server),
        Ok((
            0,
            Event::Query {
                data: b"query".to_vec(),
                is_0rtt: false,
            }
        ))
    );

    let body = vec![0xAB; 200];

    server
        .send_response(&mut pipe.server, 0, &body, true)
        .unwrap();
    assert!(
        server.response_pending(0),
        "200 bytes shouldn't fit in the 20-byte window in one write"
    );

    // Only the first partial write has reached the client so far, so the framed
    // message is still incomplete: the client must not report `Finished` yet.
    pipe.advance();
    assert_eq!(client.poll(&mut pipe.client), Err(Error::Done));

    let events = drain_response(&mut pipe, &mut server, &mut client, 0);

    assert!(!server.response_pending(0));
    assert_eq!(
        events,
        vec![Event::Response { data: body }, Event::Finished]
    );
    assert_eq!(client.poll(&mut pipe.client), Err(Error::Done));
}

#[test]
fn send_response_after_partial_final_is_unknown_stream() {
    let mut pipe = Pipe::new(small_window_limits());

    let mut server = Connection::with_transport(&pipe.server).unwrap();

    pipe.client.stream_send(0, &framed(b"query"), true).unwrap();
    pipe.advance();

    assert_eq!(
        server.poll(&mut pipe.server),
        Ok((
            0,
            Event::Query {
                data: b"query".to_vec(),
                is_0rtt: false,
            }
        ))
    );

    let body = vec![0xAB; 200];

    server
        .send_response(&mut pipe.server, 0, &body, true)
        .unwrap();
    assert!(
        server.response_pending(0),
        "200 bytes shouldn't fit in the 20-byte window in one write"
    );

    // `send_fin` is already set even though bytes are still buffered, so a
    // second response on the same stream is rejected up front.
    assert_eq!(
        server.send_response(&mut pipe.server, 0, b"too late", true),
        Err(Error::UnknownStream)
    );
}

#[test]
fn multi_response_partial_writes() {
    let mut pipe = Pipe::new(small_window_limits());

    let mut server = Connection::with_transport(&pipe.server).unwrap();
    let mut client = Connection::with_transport(&pipe.client).unwrap();

    pipe.client
        .stream_send(0, &framed(b"axfr query"), true)
        .unwrap();
    pipe.advance();

    assert_eq!(
        server.poll(&mut pipe.server),
        Ok((
            0,
            Event::Query {
                data: b"axfr query".to_vec(),
                is_0rtt: false,
            }
        ))
    );

    let body1 = vec![0x11; 150];
    let body2 = vec![0x22; 150];
    let body3 = vec![0x33; 150];

    server
        .send_response(&mut pipe.server, 0, &body1, false)
        .unwrap();
    server
        .send_response(&mut pipe.server, 0, &body2, false)
        .unwrap();
    server
        .send_response(&mut pipe.server, 0, &body3, true)
        .unwrap();
    assert!(server.response_pending(0));

    let events = drain_response(&mut pipe, &mut server, &mut client, 0);

    assert!(!server.response_pending(0));
    assert_eq!(
        events,
        vec![
            Event::Response { data: body1 },
            Event::Response { data: body2 },
            Event::Response { data: body3 },
            Event::Finished,
        ]
    );
    assert_eq!(client.poll(&mut pipe.client), Err(Error::Done));
}

#[test]
fn a_query_in_early_data_keeps_its_mark() {
    let mut pipe = Pipe::new(doq_limits());
    let mut server = Connection::with_transport(&pipe.server).unwrap();
    let wire = framed(b"hello");

    pipe.server.in_early_data = true;
    pipe.client.stream_send(0, &wire[..3], false).unwrap();
    pipe.advance();
    assert_eq!(server.poll(&mut pipe.server), Err(Error::Done));

    // The handshake completes before the rest of the query arrives.
    pipe.server.in_early_data = false;
    pipe.client.stream_send(0, &wire[3..], true).unwrap();
    pipe.advance();
    assert_eq!(
        server.poll(&mut pipe.server),
        Ok((
            0,
            Event::Query {
                data: b"hello".to_vec(),
                is_0rtt: true,
            }
        ))
    );
}

#[test]
fn a_query_that_arrived_in_early_data_is_marked_however_late_it_is_read() {
    let mut pipe = Pipe::new(doq_limits());
    let mut server = Connection::with_transport(&pipe.server).unwrap();
    pipe.server.in_early_data = true;
    pipe.client.stream_send(0, &framed(b"hello"), true).unwrap();
    pipe.advance();
    pipe.server.in_early_data = false;
    assert_eq!(
        server.poll(&mut pipe.server),
        Ok((
            0,
            Event::Query {
                data: b"hello".to_vec(),
                is_0rtt: true,
            }
        ))
    );
}

#[test]
fn a_cancelled_query_surfaces_no_response_that_was_found_before() {
    let mut pipe = Pipe::new(doq_limits());
    let mut client = Connection::with_transport(&pipe.client).unwrap();
    assert_eq!(client.send_query(&mut pipe.client, b"query"), Ok(0));
    pipe.advance();
    pipe.server
        .stream_send(0, b"\x00\x08answer 1\x00\x08answer 2", false)
        .unwrap();
    pipe.advance();
    assert_eq!(
        client.poll(&mut pipe.client),
        Ok((
            0,
            Event::Response {
                data: b"answer 1".to_vec()
            }
        ))
    );
    assert_eq!(client.cancel_query(&mut pipe.client, 0, 3), Ok(()));
    assert_eq!(client.poll(&mut pipe.client), Err(Error::Done));
    pipe.advance();
    assert_eq!(client.poll(&mut pipe.client), Err(Error::Done));
}

#[test]
fn the_longest_query_fits_and_a_longer_stream_does_not() {
    let limits = Limits {
        max_data: 200_000,
        stream_data_bidi_remote: 200_000,
        ..doq_limits()
    };
    let mut pipe = Pipe::new(limits);
    let mut server = Connection::with_transport(&pipe.server).unwrap();
    let wire = framed(&[3; 65_535]);
    assert_eq!(wire.len(), MAX_DOQ_MESSAGE_LEN);
    pipe.client.stream_send(0, &wire, true).unwrap();
    pipe.advance();
    assert_eq!(
        server.poll(&mut pipe.server),
        Ok((
            0,
            Event::Query {
                data: vec![3; 65_535],
                is_0rtt: false,
            }
        ))
    );

    let mut longer = wire.clone();
    longer.push(0);
    pipe.client.stream_send(4, &longer, false).unwrap();
    pipe.advance();
    assert_eq!(server.poll(&mut pipe.server), Err(Error::ProtocolError));
    assert_protocol_close(&pipe.server);
    assert!(!server.streams.contains_key(&4));
}

#[test]
fn the_last_stream_id_is_reported_as_exhausted() {
    let mut pipe = Pipe::new(doq_limits());
    let mut client = Connection::with_transport(&pipe.client).unwrap();
    client.next_query_stream_id = u64::MAX - 3;
    assert_eq!(
        client.send_query(&mut pipe.client, b"query"),
        Err(Error::StreamIdExhausted)
    );
}

#[test]
fn client_functions_refuse_the_server_role() {
    let mut pipe = Pipe::new(doq_limits());
    let mut server = Connection::with_transport(&pipe.server).unwrap();
    assert_eq!(
        server.flush_query(&mut pipe.server, 0),
        Err(Error::ClientOnly)
    );
}

#[test]
fn functions_refuse_unknown_streams() {
    let mut pipe = Pipe::new(doq_limits());
    let mut client = Connection::with_transport(&pipe.client).unwrap();
    let mut server = Connection::with_transport(&pipe.server).unwrap();
    assert_eq!(
        client.flush_query(&mut pipe.client, 0),
        Err(Error::UnknownStream)
    );
    assert_eq!(
        server.flush_response(&mut pipe.server, 0),
        Err(Error::UnknownStream)
    );
    assert_eq!(
        server.reset_stream(&mut pipe.server, 0, 1),
        Err(Error::UnknownStream)
    );
    assert!(!client.query_pending(0));
    assert!(!server.response_pending(0));
}

#[test]
fn an_oversized_response_changes_nothing() {
    let mut pipe = Pipe::new(doq_limits());
    let mut server = Connection::with_transport(&pipe.server).unwrap();
    pipe.client.stream_send(0, &framed(b"query"), true).unwrap();
    pipe.advance();
    server.poll(&mut pipe.server).unwrap();

    assert_eq!(
        server.send_response(&mut pipe.server, 0, &[0; 65_536], true),
        Err(Error::MessageTooLarge)
    );
    assert!(pipe.server.actions.is_empty());
    assert_eq!(
        server.send_response(&mut pipe.server, 0, b"fits", true),
        Ok(())
    );
    assert_eq!(
        pipe.server.actions,
        vec![Action::Send {
            stream_id: 0,
            data: framed(b"fits"),
            fin: true,
        }]
    );
}

#[test]
fn a_protocol_error_on_a_connection_that_is_gone_is_not_reported() {
    let mut pipe = Pipe::new(doq_limits());
    let mut server = Connection::with_transport(&pipe.server).unwrap();
    pipe.client.stream_send(2, b"uni", true).unwrap();
    pipe.advance();
    pipe.server.closed = true;
    assert_eq!(server.poll(&mut pipe.server), Err(Error::Done));
    assert!(pipe.server.local_error().is_none());
}

#[test]
fn a_response_that_ends_inside_a_message_is_a_protocol_error() {
    let mut pipe = Pipe::new(doq_limits());
    let mut client = Connection::with_transport(&pipe.client).unwrap();
    assert_eq!(client.send_query(&mut pipe.client, b"query"), Ok(0));
    pipe.advance();
    let mut wire = framed(b"whole");
    wire.extend_from_slice(&framed(b"part")[..4]);
    pipe.server.stream_send(0, &wire, true).unwrap();
    pipe.advance();
    assert_eq!(client.poll(&mut pipe.client), Err(Error::ProtocolError));
    assert_protocol_close(&pipe.client);
}

#[test]
fn responses_split_anywhere_are_the_same() {
    let mut wire = framed(b"one");
    wire.extend_from_slice(&framed(b""));
    wire.extend_from_slice(&framed(b"three"));
    for split in 0..=wire.len() {
        let mut pipe = Pipe::new(doq_limits());
        let mut client = Connection::with_transport(&pipe.client).unwrap();
        assert_eq!(client.send_query(&mut pipe.client, b"axfr"), Ok(0));
        pipe.advance();
        let mut events = Vec::new();
        for (part, fin) in [(&wire[..split], false), (&wire[split..], true)] {
            pipe.server.stream_send(0, part, fin).unwrap();
            pipe.advance();
            while let Ok((stream_id, event)) = client.poll(&mut pipe.client) {
                assert_eq!(stream_id, 0);
                events.push(event);
            }
        }
        assert_eq!(
            events,
            vec![
                Event::Response {
                    data: b"one".to_vec()
                },
                Event::Response { data: vec![] },
                Event::Response {
                    data: b"three".to_vec()
                },
                Event::Finished,
            ]
        );
    }
}

#[test]
fn transfers_side_by_side_are_each_told_once_and_in_order() {
    let mut pipe = Pipe::new(small_window_limits());
    let mut server = Connection::with_transport(&pipe.server).unwrap();
    let mut client = Connection::with_transport(&pipe.client).unwrap();
    assert_eq!(client.send_query(&mut pipe.client, b"first"), Ok(0));
    assert_eq!(client.send_query(&mut pipe.client, b"second"), Ok(4));
    pipe.advance();

    let mut queries = Vec::new();
    while let Ok((stream_id, event)) = server.poll(&mut pipe.server) {
        assert!(matches!(event, Event::Query { .. }));
        queries.push(stream_id);
    }
    queries.sort();
    assert_eq!(queries, vec![0, 4]);

    let mut told = vec![Vec::new(), Vec::new()];
    for round in 0..60 {
        for stream_id in [0, 4] {
            if round < 3 {
                let data = vec![round as u8; 40];
                server
                    .send_response(&mut pipe.server, stream_id, &data, round == 2)
                    .unwrap();
            } else if server.response_pending(stream_id) {
                server.flush_response(&mut pipe.server, stream_id).unwrap();
            }
        }
        pipe.advance();
        assert_eq!(server.poll(&mut pipe.server), Err(Error::Done));
        while let Ok((stream_id, event)) = client.poll(&mut pipe.client) {
            told[(stream_id / 4) as usize].push(event);
        }
        pipe.advance();
    }
    let expected = vec![
        Event::Response { data: vec![0; 40] },
        Event::Response { data: vec![1; 40] },
        Event::Response { data: vec![2; 40] },
        Event::Finished,
    ];
    assert_eq!(told, vec![expected.clone(), expected]);
    for stream_id in [0, 4] {
        assert_eq!(
            server.flush_response(&mut pipe.server, stream_id),
            Err(Error::UnknownStream)
        );
    }
}

#[test]
fn a_stream_of_the_connection_itself_is_passed_over() {
    let mut server = Transport::new(true);
    let mut doq = Connection::with_transport(&server).unwrap();
    server.streams_left_bidi = 1;
    server.initial_window = 10;
    server.send_capacity = 10;
    server.stream_send(1, b"x", false).unwrap();
    server.streams.get_mut(&1).unwrap().recv_data = b"y".to_vec();
    server.readable.push(1);
    assert_eq!(doq.poll(&mut server), Err(Error::Done));
    assert_eq!(server.readable, vec![1]);
}

#[test]
fn the_transport_takes_what_its_windows_allow() {
    let mut client = Transport::new(false);
    client.streams_left_bidi = 1;
    client.initial_window = 4;
    client.send_capacity = 6;
    assert_eq!(client.stream_capacity(0), Err(TransportError::InvalidStreamState(0)));
    assert_eq!(client.stream_send(0, b"abcdef", true), Ok(4));
    assert_eq!(client.stream_capacity(0), Ok(0));
    assert_eq!(client.stream_send(0, b"ef", true), Err(TransportError::Done));
    client.streams.get_mut(&0).unwrap().send_window = 10;
    assert_eq!(client.stream_capacity(0), Ok(2));
    assert_eq!(client.stream_send(0, b"ef", true), Ok(2));
    assert_eq!(
        client.stream_send(0, b"g", false),
        Err(TransportError::InvalidStreamState(0))
    );
    assert_eq!(client.stream_send(4, b"x", false), Err(TransportError::StreamLimit));
    assert_eq!(
        client.stream_send(1, b"x", false),
        Err(TransportError::InvalidStreamState(1))
    );
    assert!(!client.stream_closed(0));
    client.stream_shutdown(0, Shutdown::Read, 3).unwrap();
    assert_eq!(
        client.stream_shutdown(0, Shutdown::Read, 3),
        Err(TransportError::Done)
    );
    assert!(client.stream_closed(0));
    assert_eq!(
        client.actions,
        vec![
            Action::Open { stream_id: 0 },
            Action::Send {
                stream_id: 0,
                data: b"abcd".to_vec(),
                fin: false,
            },
            Action::Send {
                stream_id: 0,
                data: b"ef".to_vec(),
                fin: true,
            },
            Action::Shutdown {
                stream_id: 0,
                direction: Shutdown::Read,
                error: 3,
            },
        ]
    );
}
