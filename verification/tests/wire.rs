//! Framing, error codes and texts.

use doq::connection::Error;
use doq::driver::DriverError;
use doq::responder::StreamClosed;
use doq::text::decimal;
use doq::transport::TransportError;
use doq::wire::{
    is_replayable_opcode, read_dns_message, write_dns_message, DnsWireError, DoqError, DOQ_ALPN,
    DOQ_PORT, MAX_DNS_MESSAGE_LEN, MAX_DOQ_MESSAGE_LEN,
};

#[test]
fn test_is_replayable_opcode() {
    assert!(is_replayable_opcode(0)); // QUERY
    assert!(is_replayable_opcode(4)); // NOTIFY

    assert!(!is_replayable_opcode(1)); // IQUERY
    assert!(!is_replayable_opcode(2)); // STATUS
    assert!(!is_replayable_opcode(3)); // Reserved
    assert!(!is_replayable_opcode(5)); // UPDATE
    assert!(!is_replayable_opcode(6)); // DNS Stateful Operations
    assert!(!is_replayable_opcode(15)); // Max opcode value
}

#[test]
fn test_read_dns_message_success() {
    // Valid DNS message: length prefix (0x00, 0x05) + 5 bytes of data
    let data = vec![0x00, 0x05, 0x01, 0x02, 0x03, 0x04, 0x05];

    let result = read_dns_message(&data);
    assert!(result.is_ok());

    let (dns_msg, consumed) = result.unwrap();
    assert_eq!(dns_msg, &[0x01, 0x02, 0x03, 0x04, 0x05]);
    assert_eq!(consumed, 7);
}

#[test]
fn test_read_dns_message_zero_length() {
    // Valid zero-length message
    let data = vec![0x00, 0x00];

    let result = read_dns_message(&data);
    assert!(result.is_ok());

    let (dns_msg, consumed) = result.unwrap();
    assert_eq!(dns_msg.len(), 0);
    assert_eq!(consumed, 2);
}

#[test]
fn test_read_dns_message_max_length() {
    // Maximum length (65535 bytes)
    let mut data = vec![0xFF, 0xFF];
    data.extend(vec![0xAA; 65535]);

    let result = read_dns_message(&data);
    assert!(result.is_ok());

    let (dns_msg, consumed) = result.unwrap();
    assert_eq!(dns_msg.len(), 65535);
    assert_eq!(consumed, 65537);
}

#[test]
fn test_read_dns_message_incomplete_length() {
    // Only 1 byte - can't read length prefix
    let data = vec![0x00];

    let result = read_dns_message(&data);
    assert!(result.is_err());

    match result.unwrap_err() {
        DnsWireError::LenDataIncomplete => {}
        _ => panic!("Expected LenDataIncomplete error"),
    }
}

#[test]
fn test_read_dns_message_empty_data() {
    // Empty data
    let data = vec![];

    let result = read_dns_message(&data);
    assert!(result.is_err());

    match result.unwrap_err() {
        DnsWireError::LenDataIncomplete => {}
        _ => panic!("Expected LenDataIncomplete error"),
    }
}

#[test]
fn test_read_dns_message_incomplete_message() {
    // Length says 10 bytes, but only 5 bytes provided
    let data = vec![0x00, 0x0A, 0x01, 0x02, 0x03, 0x04, 0x05];

    let result = read_dns_message(&data);
    assert!(result.is_err());

    match result.unwrap_err() {
        DnsWireError::DnsMessageIncomplete => {}
        _ => panic!("Expected DnsMessageIncomplete error"),
    }
}

#[test]
fn test_read_dns_message_with_trailing_data() {
    // Valid message with extra trailing data
    let data = vec![0x00, 0x03, 0x01, 0x02, 0x03, 0xFF, 0xFF, 0xFF, 0xFF];

    let result = read_dns_message(&data);
    assert!(result.is_ok());

    let (dns_msg, consumed) = result.unwrap();
    assert_eq!(dns_msg, &[0x01, 0x02, 0x03]);
    assert_eq!(consumed, 5); // Only consumed the actual message
}

#[test]
fn test_write_dns_message_success() {
    let dns_data = vec![0x01, 0x02, 0x03, 0x04, 0x05];
    let mut buffer = Vec::new();

    let result = write_dns_message(&mut buffer, &dns_data);
    assert!(result.is_ok());

    // Check length prefix
    assert_eq!(buffer[0], 0x00);
    assert_eq!(buffer[1], 0x05);

    // Check data
    assert_eq!(&buffer[2..], &dns_data[..]);
}

#[test]
fn test_write_dns_message_zero_length() {
    let dns_data = vec![];
    let mut buffer = Vec::new();

    let result = write_dns_message(&mut buffer, &dns_data);
    assert!(result.is_ok());

    assert_eq!(buffer, vec![0x00, 0x00]);
}

#[test]
fn test_write_dns_message_max_length() {
    let dns_data = vec![0xBB; 65535];
    let mut buffer = Vec::new();

    let result = write_dns_message(&mut buffer, &dns_data);
    assert!(result.is_ok());

    // Check length prefix
    assert_eq!(buffer[0], 0xFF);
    assert_eq!(buffer[1], 0xFF);

    // Check data
    assert_eq!(&buffer[2..], &dns_data[..]);
}

#[test]
fn test_write_dns_message_too_large() {
    let dns_data = vec![0xCC; 65536];
    let mut buffer = Vec::new();

    let result = write_dns_message(&mut buffer, &dns_data);
    assert!(result.is_err());

    match result.unwrap_err() {
        DnsWireError::DnsMessageTooLarge => {}
        _ => panic!("Expected DnsMessageTooLarge error"),
    }
}

fn get_dns_opcode(dns_msg: &[u8]) -> Result<u8, String> {
    if dns_msg.len() < 12 {
        return Err("DNS message too short".to_string());
    }

    let flags = u16::from_be_bytes([dns_msg[2], dns_msg[3]]);
    Ok(((flags >> 11) & 0x0F) as u8)
}

fn set_dns_id_zero(dns_msg: &mut [u8]) -> Result<(), String> {
    if dns_msg.len() < 2 {
        return Err("DNS message too short".to_string());
    }

    dns_msg[0] = 0;
    dns_msg[1] = 0;
    Ok(())
}

fn get_dns_id(dns_msg: &[u8]) -> Result<u16, String> {
    if dns_msg.len() < 2 {
        return Err("DNS message too short".to_string());
    }

    Ok(u16::from_be_bytes([dns_msg[0], dns_msg[1]]))
}

/// A query for the A record of a domain name.
fn build_query(domain: &str) -> Result<Vec<u8>, String> {
    let mut buffer = vec![0; 12];
    buffer[2] = 0x01;
    buffer[5] = 1;
    for label in domain.split('.') {
        if label.is_empty() {
            continue;
        }
        if label.len() > 63 {
            return Err("Label too long".to_string());
        }
        buffer.push(label.len() as u8);
        buffer.extend_from_slice(label.as_bytes());
    }
    buffer.push(0);
    buffer.extend_from_slice(&1u16.to_be_bytes());
    buffer.extend_from_slice(&1u16.to_be_bytes());
    Ok(buffer)
}

#[derive(Debug)]
struct DnsHeader {
    flags: u16,
    qdcount: u16,
    ancount: u16,
}

impl DnsHeader {
    fn is_response(&self) -> bool {
        (self.flags & 0x8000) != 0
    }
}

fn parse_dns_response_header(dns_msg: &[u8]) -> Result<DnsHeader, String> {
    if dns_msg.len() < 12 {
        return Err("DNS message too short for header".to_string());
    }

    Ok(DnsHeader {
        flags: u16::from_be_bytes([dns_msg[2], dns_msg[3]]),
        qdcount: u16::from_be_bytes([dns_msg[4], dns_msg[5]]),
        ancount: u16::from_be_bytes([dns_msg[6], dns_msg[7]]),
    })
}

fn format_rcode(rcode: u8) -> &'static str {
    match rcode {
        0 => "NOERROR",
        1 => "FORMERR",
        2 => "SERVFAIL",
        3 => "NXDOMAIN",
        4 => "NOTIMP",
        5 => "REFUSED",
        _ => "UNKNOWN",
    }
}

#[test]
fn test_dns_message_parsing() {
    let data = vec![
        0x00, 0x0C, // Length: 12 bytes
        0x00, 0x00, // ID: 0
        0x01, 0x00, // Flags: RD=1
        0x00, 0x01, // QDCOUNT: 1
        0x00, 0x00, // ANCOUNT: 0
        0x00, 0x00, // NSCOUNT: 0
        0x00, 0x00, // ARCOUNT: 0
    ];

    let (msg, consumed) = read_dns_message(&data).unwrap();
    assert_eq!(msg.len(), 12);
    assert_eq!(consumed, 14);
    assert_eq!(get_dns_id(msg).unwrap(), 0);
}

#[test]
fn test_dns_message_writing() {
    let dns_data = vec![0x00, 0x00, 0x01, 0x00, 0x00, 0x01];
    let mut output = Vec::new();

    write_dns_message(&mut output, &dns_data).unwrap();

    assert_eq!(output.len(), 8); // 2 bytes length + 6 bytes data
    assert_eq!(output[0], 0x00);
    assert_eq!(output[1], 0x06);
    assert_eq!(&output[2..], &dns_data[..]);
}

#[test]
fn test_dns_id_operations() {
    let mut dns_msg = vec![
        0x12, 0x34, // ID: 0x1234
        0x01, 0x00, // Flags
        0x00, 0x01, // QDCOUNT
        0x00, 0x00, // ANCOUNT
        0x00, 0x00, // NSCOUNT
        0x00, 0x00, // ARCOUNT
    ];

    assert_eq!(get_dns_id(&dns_msg).unwrap(), 0x1234);

    set_dns_id_zero(&mut dns_msg).unwrap();
    assert_eq!(get_dns_id(&dns_msg).unwrap(), 0);
}

#[test]
fn test_dns_opcode_extraction() {
    let dns_msg = vec![
        0x00, 0x00, // ID
        0x28, 0x00, // Flags: Opcode=5 (UPDATE)
        0x00, 0x00, // QDCOUNT
        0x00, 0x00, // ANCOUNT
        0x00, 0x00, // NSCOUNT
        0x00, 0x00, // ARCOUNT
    ];

    assert_eq!(get_dns_opcode(&dns_msg).unwrap(), 5);
}

#[test]
fn test_replayable_opcodes() {
    assert!(is_replayable_opcode(0)); // QUERY
    assert!(is_replayable_opcode(4)); // NOTIFY
    assert!(!is_replayable_opcode(5)); // UPDATE
    assert!(!is_replayable_opcode(6)); // DSO
}

#[test]
fn test_dns_query_builder() {
    let query = build_query("example.com").unwrap();

    // Check header
    assert_eq!(get_dns_id(&query).unwrap(), 0);

    let header = parse_dns_response_header(&query).unwrap();
    assert_eq!(header.qdcount, 1);
    assert_eq!(header.ancount, 0);

    // Check that it's a query (QR=0)
    assert!(!header.is_response());
}

#[test]
fn test_doq_error_codes() {
    assert_eq!(DoqError::NoError.to_wire(), 0x0);
    assert_eq!(DoqError::InternalError.to_wire(), 0x1);
    assert_eq!(DoqError::ProtocolError.to_wire(), 0x2);
    assert_eq!(DoqError::RequestCancelled.to_wire(), 0x3);
    assert_eq!(DoqError::ExcessiveLoad.to_wire(), 0x4);
    assert_eq!(DoqError::UnspecifiedError.to_wire(), 0x5);
    assert_eq!(DoqError::ErrorReserved.to_wire(), 0xd098ea5e);
}

#[test]
fn test_rcode_formatting() {
    assert_eq!(format_rcode(0), "NOERROR");
    assert_eq!(format_rcode(1), "FORMERR");
    assert_eq!(format_rcode(2), "SERVFAIL");
    assert_eq!(format_rcode(3), "NXDOMAIN");
    assert_eq!(format_rcode(4), "NOTIMP");
    assert_eq!(format_rcode(5), "REFUSED");
    assert_eq!(format_rcode(99), "UNKNOWN");
}

#[test]
fn test_large_dns_message() {
    let large_data = vec![0; 65535];
    let mut output = Vec::new();

    write_dns_message(&mut output, &large_data).unwrap();
    assert_eq!(output.len(), 65537); // 2 bytes length + 65535 bytes data
    assert_eq!(output[0], 0xFF);
    assert_eq!(output[1], 0xFF);
}

#[test]
fn test_oversized_dns_message() {
    let oversized_data = vec![0; 65536];
    let mut output = Vec::new();

    let result = write_dns_message(&mut output, &oversized_data);
    assert!(result.is_err());
}

#[test]
fn constants_are_those_of_doq() {
    assert_eq!(DOQ_ALPN, b"doq");
    assert_eq!(DOQ_PORT, 853);
    assert_eq!(MAX_DNS_MESSAGE_LEN, 65_535);
    assert_eq!(MAX_DOQ_MESSAGE_LEN, 65_537);
}

#[test]
fn written_messages_read_back_in_order() {
    let messages = [vec![], b"a".to_vec(), vec![7; 300], vec![0xff; 65_535]];
    let mut wire = Vec::new();
    for message in &messages {
        write_dns_message(&mut wire, message).unwrap();
    }
    let mut at = 0;
    for message in &messages {
        let (read, consumed) = read_dns_message(&wire[at..]).unwrap();
        assert_eq!(read, message.as_slice());
        at += consumed;
    }
    assert_eq!(at, wire.len());
}

#[test]
fn a_refused_message_leaves_the_buffer_alone() {
    let mut wire = b"before".to_vec();
    assert!(write_dns_message(&mut wire, &[0; 65_536]).is_err());
    assert_eq!(wire, b"before");
}

#[test]
fn every_part_of_a_frame_is_incomplete() {
    let mut wire = Vec::new();
    write_dns_message(&mut wire, b"message").unwrap();
    for n in 0..wire.len() {
        let error = read_dns_message(&wire[..n]).unwrap_err();
        if n < 2 {
            assert!(matches!(error, DnsWireError::LenDataIncomplete));
        } else {
            assert!(matches!(error, DnsWireError::DnsMessageIncomplete));
        }
    }
}

#[test]
fn wire_errors_describe_themselves() {
    assert_eq!(
        DnsWireError::LenDataIncomplete.text(),
        "length is less than 2 bytes"
    );
    assert_eq!(
        DnsWireError::DnsMessageIncomplete.text(),
        "DNS message is less than specified length"
    );
    assert_eq!(
        DnsWireError::DnsMessageTooLarge.text(),
        "DNS message is too large (max 65535 bytes)"
    );
    let io = std::io::Error::new(std::io::ErrorKind::Other, "disk on fire");
    let error = DnsWireError::from(io);
    assert!(matches!(error, DnsWireError::IoError(_)));
    assert_eq!(error.text(), "IO error: disk on fire");
}

#[test]
fn doq_errors_describe_themselves() {
    assert_eq!(DoqError::NoError.text(), "no error");
    assert_eq!(DoqError::InternalError.text(), "internal error");
    assert_eq!(DoqError::ProtocolError.text(), "protocol error");
    assert_eq!(DoqError::RequestCancelled.text(), "request cancelled");
    assert_eq!(DoqError::ExcessiveLoad.text(), "excessive load");
    assert_eq!(DoqError::UnspecifiedError.text(), "unspecified error");
    assert_eq!(DoqError::ErrorReserved.text(), "reserved error");
}

#[test]
fn connection_errors_describe_themselves() {
    assert_eq!(Error::Done.text(), "no more work to do");
    assert_eq!(Error::ProtocolError.text(), "DoQ protocol error");
    assert_eq!(Error::MessageTooLarge.text(), "DNS message is too large");
    assert_eq!(
        Error::ClientOnly.text(),
        "operation requires a client connection"
    );
    assert_eq!(
        Error::StreamIdExhausted.text(),
        "client stream IDs exhausted"
    );
    assert_eq!(
        Error::UnknownStream.text(),
        "unknown or already-closed stream"
    );
    assert_eq!(
        Error::TransportError(TransportError::StreamStopped(42)).text(),
        "transport error: StreamStopped(42)"
    );
    assert_eq!(
        Error::TransportError(TransportError::Other("FlowControl")).text(),
        "transport error: FlowControl"
    );
    assert_eq!(
        DriverError::NotEstablished.text(),
        "DoqServerDriver's transport connection has not been established yet"
    );
    assert_eq!(
        DriverError::EventChannelFull.text(),
        "DoQ event channel is full; consumer too slow"
    );
    assert_eq!(
        DriverError::Doq(Error::UnknownStream).text(),
        "unknown or already-closed stream"
    );
    assert_eq!(StreamClosed.text(), "DoQ transaction stream is closed");
}

#[test]
fn transport_errors_describe_themselves() {
    assert_eq!(TransportError::Done.text(), "Done");
    assert_eq!(TransportError::StreamLimit.text(), "StreamLimit");
    assert_eq!(
        TransportError::InvalidStreamState(8).text(),
        "InvalidStreamState(8)"
    );
    assert_eq!(
        TransportError::StreamStopped(u64::MAX).text(),
        "StreamStopped(18446744073709551615)"
    );
    assert_eq!(TransportError::StreamReset(10).text(), "StreamReset(10)");
    assert_eq!(TransportError::Other("FlowControl").text(), "FlowControl");
}

#[test]
fn errors_are_converted() {
    assert_eq!(Error::from(TransportError::Done), Error::Done);
    assert_eq!(
        Error::from(TransportError::StreamLimit),
        Error::TransportError(TransportError::StreamLimit)
    );
    assert_eq!(
        Error::from(DnsWireError::DnsMessageTooLarge),
        Error::MessageTooLarge
    );
    assert_eq!(
        Error::from(DnsWireError::DnsMessageIncomplete),
        Error::ProtocolError
    );
    assert_eq!(
        Error::from(DnsWireError::LenDataIncomplete),
        Error::ProtocolError
    );
}

#[test]
fn decimal_notation_has_no_leading_zeros() {
    assert_eq!(decimal(0), "0");
    assert_eq!(decimal(9), "9");
    assert_eq!(decimal(10), "10");
    assert_eq!(decimal(1_000_203), "1000203");
}
