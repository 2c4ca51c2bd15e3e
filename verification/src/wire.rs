//! DoQ constants, error codes and the framing of DNS messages.

use vstd::prelude::*;
use vstd::slice::{slice_subrange, slice_to_vec};

use crate::outside::io_error_text;

verus! {

/// The ALPN token for DoQ, `doq`, as specified in
/// <https://datatracker.ietf.org/doc/html/rfc9250#section-4.1>
pub const DOQ_ALPN: &'static [u8; 3] = &[0x64, 0x6f, 0x71];

/// The default port for DNS over QUIC (DoQ) as specified in
/// <https://datatracker.ietf.org/doc/html/rfc9250#section-4.1.1>
pub const DOQ_PORT: u16 = 853;

/// The longest DNS message that the 2-octet length prefix can announce.
pub const MAX_DNS_MESSAGE_LEN: usize = 65535;

/// The longest framed DNS message: the 2-octet length prefix and the longest
/// message it can announce.
pub const MAX_DOQ_MESSAGE_LEN: usize = 65537;

/// DoQ error codes as specified in
/// <https://datatracker.ietf.org/doc/html/rfc9250#section-4.3>
#[derive(Debug, Clone, Copy, PartialEq, Eq, Hash)]
pub enum DoqError {
    /// No error (DOQ_NO_ERROR).
    NoError,
    /// Internal error (DOQ_INTERNAL_ERROR).
    InternalError,
    /// Protocol error (DOQ_PROTOCOL_ERROR). Conditions are enumerated in
    /// <https://datatracker.ietf.org/doc/html/rfc9250#section-4.3.3>.
    ProtocolError,
    /// Request cancelled (DOQ_REQUEST_CANCELLED).
    RequestCancelled,
    /// Excessive load (DOQ_EXCESSIVE_LOAD).
    ExcessiveLoad,
    /// Unspecified error (DOQ_UNSPECIFIED_ERROR).
    UnspecifiedError,
    /// Reserved error for testing (DOQ_ERROR_RESERVED).
    ErrorReserved,
}

impl DoqError {
    /// The code that stands for the error on the wire.
    pub open spec fn code(self) -> u64 {
        match self {
            DoqError::NoError => 0x0,
            DoqError::InternalError => 0x1,
            DoqError::ProtocolError => 0x2,
            DoqError::RequestCancelled => 0x3,
            DoqError::ExcessiveLoad => 0x4,
            DoqError::UnspecifiedError => 0x5,
            DoqError::ErrorReserved => 0xd098ea5e,
        }
    }

    /// Convert the error to its wire format representation.
    pub fn to_wire(self) -> (code: u64)
        ensures
            code == self.code(),
    {
        match self {
            DoqError::NoError => 0x0,
            DoqError::InternalError => 0x1,
            DoqError::ProtocolError => 0x2,
            DoqError::RequestCancelled => 0x3,
            DoqError::ExcessiveLoad => 0x4,
            DoqError::UnspecifiedError => 0x5,
            DoqError::ErrorReserved => 0xd098ea5e,
        }
    }

    /// The words that describe the error.
    pub open spec fn words(self) -> Seq<char> {
        match self {
            DoqError::NoError => "no error"@,
            DoqError::InternalError => "internal error"@,
            DoqError::ProtocolError => "protocol error"@,
            DoqError::RequestCancelled => "request cancelled"@,
            DoqError::ExcessiveLoad => "excessive load"@,
            DoqError::UnspecifiedError => "unspecified error"@,
            DoqError::ErrorReserved => "reserved error"@,
        }
    }

    /// Describes the error in words.
    pub fn text(&self) -> (text: String)
        ensures
            text@ == self.words(),
    {
        let s = match self {
            DoqError::NoError => "no error",
            DoqError::InternalError => "internal error",
            DoqError::ProtocolError => "protocol error",
            DoqError::RequestCancelled => "request cancelled",
            DoqError::ExcessiveLoad => "excessive load",
            DoqError::UnspecifiedError => "unspecified error",
            DoqError::ErrorReserved => "reserved error",
        };
        s.to_owned()
    }
}

/// DoQ DNS wire-format read/write errors.
#[derive(Debug)]
pub enum DnsWireError {
    /// length is less than 2 bytes
    LenDataIncomplete,
    /// DNS message is less than specified length
    DnsMessageIncomplete,
    /// DNS message is too large (max 65535 bytes)
    DnsMessageTooLarge,
    /// IO error
    IoError(std::io::Error),
}

impl DnsWireError {
    /// The words that describe the error; for an I/O error, those in front of
    /// its own.
    pub open spec fn words(self) -> Seq<char> {
        match self {
            DnsWireError::LenDataIncomplete => "length is less than 2 bytes"@,
            DnsWireError::DnsMessageIncomplete => "DNS message is less than specified length"@,
            DnsWireError::DnsMessageTooLarge => "DNS message is too large (max 65535 bytes)"@,
            DnsWireError::IoError(_) => "IO error: "@,
        }
    }

    /// Describes the error in words. For an I/O error the text goes on with
    /// what the I/O error says of itself.
    pub fn text(&self) -> (text: String)
        ensures
            self is IoError ==> self.words().is_prefix_of(text@),
            !(self is IoError) ==> text@ == self.words(),
    {
        match self {
            DnsWireError::LenDataIncomplete => "length is less than 2 bytes".to_owned(),
            DnsWireError::DnsMessageIncomplete =>
                "DNS message is less than specified length".to_owned(),
            DnsWireError::DnsMessageTooLarge =>
                "DNS message is too large (max 65535 bytes)".to_owned(),
            DnsWireError::IoError(e) => {
                let mut s = "IO error: ".to_owned();
                let rest = io_error_text(e);
                s.append(rest.as_str());
                assert(self.words() =~= s@.take(self.words().len() as int));
                s
            },
        }
    }
}

impl From<std::io::Error> for DnsWireError {
    fn from(e: std::io::Error) -> (r: Self) {
        DnsWireError::IoError(e)
    }
}

impl vstd::std_specs::convert::FromSpecImpl<std::io::Error> for DnsWireError {
    open spec fn obeys_from_spec() -> bool {
        true
    }

    open spec fn from_spec(e: std::io::Error) -> Self {
        DnsWireError::IoError(e)
    }
}

/// Returns whether a DNS opcode is considered replayable in 0-RTT data.
///
/// The `opcode` is the 4-bit DNS OPCODE field (values 0-15) as defined in
/// <https://datatracker.ietf.org/doc/html/rfc1035#section-4.1.1>. QUERY (0)
/// and NOTIFY (4) are safe for 0-RTT per
/// <https://datatracker.ietf.org/doc/html/rfc9250#section-4.5>.
pub fn is_replayable_opcode(opcode: u8) -> (replayable: bool)
    ensures
        replayable <==> opcode == 0 || opcode == 4,
{
    matches!(opcode, 0 | 4)
}

/// The length that a 2-octet prefix announces.
pub open spec fn announced_len(high: u8, low: u8) -> nat {
    (high * 256 + low) as nat
}

/// A DNS message behind its 2-octet length prefix.
pub open spec fn frame(message: Seq<u8>) -> Seq<u8>
    recommends
        message.len() <= MAX_DNS_MESSAGE_LEN,
{
    seq![(message.len() / 256) as u8, (message.len() % 256) as u8] + message
}

/// What stands at the front of some received bytes.
pub enum Front {
    /// The length prefix itself is not there in full.
    NoLength,
    /// The message is shorter than its prefix announces.
    Truncated,
    /// A whole message, and the number of bytes that it takes with its prefix.
    Message { data: Seq<u8>, consumed: nat },
}

/// Reads the front of `data` as a framed message.
pub open spec fn front(data: Seq<u8>) -> Front {
    if data.len() < 2 {
        Front::NoLength
    } else {
        let end = 2 + announced_len(data[0], data[1]);
        if data.len() < end {
            Front::Truncated
        } else {
            Front::Message { data: data.subrange(2, end as int), consumed: end }
        }
    }
}

/// Read a DNS message with the 2-octet length prefix.
/// Returns the DNS message without the length prefix and the number of bytes
/// consumed.
pub fn read_dns_message(data: &[u8]) -> (r: Result<(&[u8], usize), DnsWireError>)
    ensures
        match r {
            Ok((message, consumed)) => front(data@) == (Front::Message {
                data: message@,
                consumed: consumed as nat,
            }),
            Err(DnsWireError::LenDataIncomplete) => front(data@) is NoLength,
            Err(DnsWireError::DnsMessageIncomplete) => front(data@) is Truncated,
            Err(_) => false,
        },
{
    if data.len() < 2 {
        return Err(DnsWireError::LenDataIncomplete);
    }
    let length: usize = (data[0] as usize) * 256 + data[1] as usize;
    if data.len() < 2 + length {
        return Err(DnsWireError::DnsMessageIncomplete);
    }
    Ok((slice_subrange(data, 2, 2 + length), 2 + length))
}

/// Write a DNS message with the 2-octet length prefix: it is appended to
/// `writer`. A message that is too large leaves `writer` as it was.
pub fn write_dns_message(writer: &mut Vec<u8>, dns_data: &[u8]) -> (r: Result<(), DnsWireError>)
    ensures
        match r {
            Ok(()) => {
                &&& dns_data@.len() <= MAX_DNS_MESSAGE_LEN
                &&& final(writer)@ == old(writer)@ + frame(dns_data@)
            },
            Err(e) => {
                &&& e is DnsMessageTooLarge
                &&& dns_data@.len() > MAX_DNS_MESSAGE_LEN
                &&& final(writer)@ == old(writer)@
            },
        },
{
    if dns_data.len() > MAX_DNS_MESSAGE_LEN {
        return Err(DnsWireError::DnsMessageTooLarge);
    }
    let length: usize = dns_data.len();
    writer.push((length / 256) as u8);
    writer.push((length % 256) as u8);
    let mut message = slice_to_vec(dns_data);
    writer.append(&mut message);
    assert(writer@ =~= old(writer)@ + frame(dns_data@));
    Ok(())
}

} // verus!
