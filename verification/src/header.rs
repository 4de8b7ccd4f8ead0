//! Message header codec: the fixed 12-byte header with bit-packed flags.
//! Byte layout: id (2 bytes big-endian); one byte holding QR, opcode, AA, TC
//! and RD; one byte holding RA and RCODE; then the four section counts, each
//! 2 bytes big-endian, in the order QD, AN, NS, AR.

use vstd::prelude::*;

use crate::wire::{be16, DeserializationError, Field};

verus! {

/// Whether a message is a query or a response (the QR bit).
#[derive(Clone, Copy, Debug, PartialEq, Eq, Structural)]
pub enum MessageType {
    Query,
    Response,
}

/// The kind of query (the opcode field); this codec knows the standard and
/// the status query.
#[derive(Clone, Copy, Debug, PartialEq, Eq, Structural)]
pub enum Opcode {
    StandardQuery,
    StatusQuery,
}

/// A server's verdict on a query (the RCODE field), codes 0 through 5.
#[derive(Clone, Copy, Debug, PartialEq, Eq, Structural)]
pub enum ResponseCode {
    NoError,
    FormatError,
    ServerError,
    NameError,
    NotImplementedError,
    RefusedError,
}

/// A header enumeration field held a numeric value outside the codec's set.
#[derive(Clone, Copy, Debug, PartialEq, Eq, Structural)]
pub enum MessageError {
    InvalidOpcode,
    InvalidResponseCode,
    InvalidMessageType,
}

pub open spec fn message_type_code(t: MessageType) -> u8 {
    match t {
        MessageType::Query => 0,
        MessageType::Response => 1,
    }
}

pub open spec fn opcode_code(o: Opcode) -> u8 {
    match o {
        Opcode::StandardQuery => 0,
        Opcode::StatusQuery => 2,
    }
}

pub open spec fn response_code_code(c: ResponseCode) -> u8 {
    match c {
        ResponseCode::NoError => 0,
        ResponseCode::FormatError => 1,
        ResponseCode::ServerError => 2,
        ResponseCode::NameError => 3,
        ResponseCode::NotImplementedError => 4,
        ResponseCode::RefusedError => 5,
    }
}

/// The response code a value up to 5 stands for.
pub open spec fn spec_response_code_from(value: u8) -> ResponseCode {
    if value == 0 {
        ResponseCode::NoError
    } else if value == 1 {
        ResponseCode::FormatError
    } else if value == 2 {
        ResponseCode::ServerError
    } else if value == 3 {
        ResponseCode::NameError
    } else if value == 4 {
        ResponseCode::NotImplementedError
    } else {
        ResponseCode::RefusedError
    }
}

impl MessageType {
    /// The numeric code of this message type.
    pub fn code(&self) -> (r: u8)
        ensures
            r == message_type_code(*self),
    {
        match self {
            MessageType::Query => 0,
            MessageType::Response => 1,
        }
    }

    /// The message type a numeric value stands for; values above 1 are
    /// outside the codec's set.
    pub fn try_from_u8(value: u8) -> (r: Result<MessageType, MessageError>)
        ensures
            value == 0 ==> r == Ok::<MessageType, MessageError>(MessageType::Query),
            value == 1 ==> r == Ok::<MessageType, MessageError>(MessageType::Response),
            value > 1 ==> r == Err::<MessageType, MessageError>(MessageError::InvalidMessageType),
    {
        match value {
            0 => Ok(MessageType::Query),
            1 => Ok(MessageType::Response),
            _ => Err(MessageError::InvalidMessageType),
        }
    }
}

impl Opcode {
    /// The numeric code of this opcode.
    pub fn code(&self) -> (r: u8)
        ensures
            r == opcode_code(*self),
    {
        match self {
            Opcode::StandardQuery => 0,
            Opcode::StatusQuery => 2,
        }
    }

    /// The opcode a numeric value stands for; every value but 0 and 2 is
    /// outside the codec's set.
    pub fn try_from_u8(value: u8) -> (r: Result<Opcode, MessageError>)
        ensures
            value == 0 ==> r == Ok::<Opcode, MessageError>(Opcode::StandardQuery),
            value == 2 ==> r == Ok::<Opcode, MessageError>(Opcode::StatusQuery),
            value != 0 && value != 2 ==> r == Err::<Opcode, MessageError>(
                MessageError::InvalidOpcode,
            ),
    {
        match value {
            0 => Ok(Opcode::StandardQuery),
            2 => Ok(Opcode::StatusQuery),
            _ => Err(MessageError::InvalidOpcode),
        }
    }
}

impl ResponseCode {
    /// The numeric code of this response code.
    pub fn code(&self) -> (r: u8)
        ensures
            r == response_code_code(*self),
    {
        match self {
            ResponseCode::NoError => 0,
            ResponseCode::FormatError => 1,
            ResponseCode::ServerError => 2,
            ResponseCode::NameError => 3,
            ResponseCode::NotImplementedError => 4,
            ResponseCode::RefusedError => 5,
        }
    }

    /// The response code a numeric value stands for; values above 5 are
    /// outside the codec's set.
    pub fn try_from_u8(value: u8) -> (r: Result<ResponseCode, MessageError>)
        ensures
            value <= 5 ==> r == Ok::<ResponseCode, MessageError>(spec_response_code_from(value)),
            value > 5 ==> r == Err::<ResponseCode, MessageError>(
                MessageError::InvalidResponseCode,
            ),
    {
        match value {
            0 => Ok(ResponseCode::NoError),
            1 => Ok(ResponseCode::FormatError),
            2 => Ok(ResponseCode::ServerError),
            3 => Ok(ResponseCode::NameError),
            4 => Ok(ResponseCode::NotImplementedError),
            5 => Ok(ResponseCode::RefusedError),
            _ => Err(MessageError::InvalidResponseCode),
        }
    }
}

/// The message header: 16-bit id, message type, opcode, four independent
/// flags, response code, and the four section counts. Each count must equal
/// the number of entries actually decoded for its section.
#[derive(Clone, Copy, Debug, PartialEq, Eq, Structural)]
pub struct Header {
    pub id: u16,
    pub qr: MessageType,
    pub opcode: Opcode,
    pub authoritative: bool,
    pub truncation: bool,
    pub recursion_desired: bool,
    pub recursion_available: bool,
    pub response_code: ResponseCode,
    pub qdcount: u16,
    pub ancount: u16,
    pub nscount: u16,
    pub arcount: u16,
}

pub open spec fn bool_bit(b: bool) -> u8 {
    if b {
        1
    } else {
        0
    }
}

/// The header byte holding QR, opcode, AA, TC and RD.
pub open spec fn upper_flags(h: Header) -> u8 {
    (message_type_code(h.qr) * 0x80 + opcode_code(h.opcode) * 8 + bool_bit(h.authoritative) * 4
        + bool_bit(h.truncation) * 2 + bool_bit(h.recursion_desired)) as u8
}

/// The header byte holding RA and RCODE.
pub open spec fn lower_flags(h: Header) -> u8 {
    (bool_bit(h.recursion_available) * 0x80 + response_code_code(h.response_code)) as u8
}

/// The fixed 12-byte wire form of a header.
pub open spec fn header_wire(h: Header) -> Seq<u8> {
    seq![
        (h.id / 256) as u8,
        (h.id % 256) as u8,
        upper_flags(h),
        lower_flags(h),
        (h.qdcount / 256) as u8,
        (h.qdcount % 256) as u8,
        (h.ancount / 256) as u8,
        (h.ancount % 256) as u8,
        (h.nscount / 256) as u8,
        (h.nscount % 256) as u8,
        (h.arcount / 256) as u8,
        (h.arcount % 256) as u8,
    ]
}

/// What decoding a header at `pos` yields: the bit fields of the two flag
/// bytes, rejecting an opcode outside {0, 2} and a response code above 5;
/// fewer than 12 bytes from `pos` is a buffer overflow.
pub open spec fn spec_parse_header(buf: Seq<u8>, pos: int) -> Result<
    Header,
    DeserializationError,
> {
    if pos < 0 || pos + 12 > buf.len() {
        Err(DeserializationError::BufferOverflow)
    } else {
        let flags = buf[pos + 2];
        let flags2 = buf[pos + 3];
        let opbits = (flags / 8) % 16;
        let rcode = flags2 % 16;
        if opbits != 0 && opbits != 2 {
            Err(DeserializationError::InvalidData(Field::Opcode, opbits as u16))
        } else if rcode > 5 {
            Err(DeserializationError::InvalidData(Field::ResponseCode, rcode as u16))
        } else {
            Ok(
                Header {
                    id: be16(buf[pos], buf[pos + 1]),
                    qr: if flags / 0x80 == 1 {
                        MessageType::Response
                    } else {
                        MessageType::Query
                    },
                    opcode: if opbits == 2 {
                        Opcode::StatusQuery
                    } else {
                        Opcode::StandardQuery
                    },
                    authoritative: (flags / 4) % 2 == 1,
                    truncation: (flags / 2) % 2 == 1,
                    recursion_desired: flags % 2 == 1,
                    recursion_available: flags2 / 0x80 == 1,
                    response_code: spec_response_code_from(rcode),
                    qdcount: be16(buf[pos + 4], buf[pos + 5]),
                    ancount: be16(buf[pos + 6], buf[pos + 7]),
                    nscount: be16(buf[pos + 8], buf[pos + 9]),
                    arcount: be16(buf[pos + 10], buf[pos + 11]),
                },
            )
        }
    }
}

/// The header of an outbound standard query: the given id, type query,
/// standard opcode, recursion desired, every other flag clear, one question
/// and no records.
pub open spec fn spec_standard_query_header(id: u16) -> Header {
    Header {
        id,
        qr: MessageType::Query,
        opcode: Opcode::StandardQuery,
        authoritative: false,
        truncation: false,
        recursion_desired: true,
        recursion_available: false,
        response_code: ResponseCode::NoError,
        qdcount: 1,
        ancount: 0,
        nscount: 0,
        arcount: 0,
    }
}

impl Header {
    /// The header of an outbound standard query with the given id.
    pub fn standard_query_from_id(id: u16) -> (r: Header)
        ensures
            r == spec_standard_query_header(id),
    {
        Header {
            id,
            qr: MessageType::Query,
            opcode: Opcode::StandardQuery,
            authoritative: false,
            truncation: false,
            recursion_desired: true,
            recursion_available: false,
            response_code: ResponseCode::NoError,
            qdcount: 1,
            ancount: 0,
            nscount: 0,
            arcount: 0,
        }
    }

    /// Encodes the header to its fixed 12-byte wire form.
    pub fn serialize(&self) -> (out: Vec<u8>)
        ensures
            out@ == header_wire(*self),
            out@.len() == 12,
    {
        let mut out: Vec<u8> = Vec::new();
        out.push((self.id / 256) as u8);
        out.push((self.id % 256) as u8);
        let qr = self.qr.code();
        let opcode = self.opcode.code();
        let aa: u8 = if self.authoritative {
            1
        } else {
            0
        };
        let tc: u8 = if self.truncation {
            1
        } else {
            0
        };
        let rd: u8 = if self.recursion_desired {
            1
        } else {
            0
        };
        let ra: u8 = if self.recursion_available {
            1
        } else {
            0
        };
        let rcode = self.response_code.code();
        out.push(qr * 0x80 + opcode * 8 + aa * 4 + tc * 2 + rd);
        out.push(ra * 0x80 + rcode);
        out.push((self.qdcount / 256) as u8);
        out.push((self.qdcount % 256) as u8);
        out.push((self.ancount / 256) as u8);
        out.push((self.ancount % 256) as u8);
        out.push((self.nscount / 256) as u8);
        out.push((self.nscount % 256) as u8);
        out.push((self.arcount / 256) as u8);
        out.push((self.arcount % 256) as u8);
        proof {
            assert(out@ =~= header_wire(*self));
        }
        out
    }

    /// Decodes a header at `offset`: inverse bit extraction, failing with
    /// invalid data on an opcode or response code outside the codec's sets,
    /// and with a buffer overflow when fewer than 12 bytes remain.
    pub fn deserialize(bytes: &[u8], offset: usize) -> (r: Result<
        (usize, Header),
        DeserializationError,
    >)
        ensures
            match r {
                Ok((n, h)) => spec_parse_header(bytes@, offset as int) == Ok::<
                    Header,
                    DeserializationError,
                >(h) && n == 12,
                Err(e) => spec_parse_header(bytes@, offset as int) == Err::<
                    Header,
                    DeserializationError,
                >(e),
            },
    {
        if offset >= bytes.len() || bytes.len() - offset < 12 {
            return Err(DeserializationError::BufferOverflow);
        }
        let flags = bytes[offset + 2];
        let flags2 = bytes[offset + 3];
        let opbits = (flags / 8) % 16;
        let rcode = flags2 % 16;
        let opcode = match Opcode::try_from_u8(opbits) {
            Ok(o) => o,
            Err(_) => {
                return Err(DeserializationError::InvalidData(Field::Opcode, opbits as u16));
            },
        };
        let response_code = match ResponseCode::try_from_u8(rcode) {
            Ok(c) => c,
            Err(_) => {
                return Err(
                    DeserializationError::InvalidData(Field::ResponseCode, rcode as u16),
                );
            },
        };
        let qr = if flags / 0x80 == 1 {
            MessageType::Response
        } else {
            MessageType::Query
        };
        let id = bytes[offset] as u16 * 256 + bytes[offset + 1] as u16;
        let qdcount = bytes[offset + 4] as u16 * 256 + bytes[offset + 5] as u16;
        let ancount = bytes[offset + 6] as u16 * 256 + bytes[offset + 7] as u16;
        let nscount = bytes[offset + 8] as u16 * 256 + bytes[offset + 9] as u16;
        let arcount = bytes[offset + 10] as u16 * 256 + bytes[offset + 11] as u16;
        Ok(
            (
                12,
                Header {
                    id,
                    qr,
                    opcode,
                    authoritative: (flags / 4) % 2 == 1,
                    truncation: (flags / 2) % 2 == 1,
                    recursion_desired: flags % 2 == 1,
                    recursion_available: flags2 / 0x80 == 1,
                    response_code,
                    qdcount,
                    ancount,
                    nscount,
                    arcount,
                },
            ),
        )
    }
}

/// A buffer that holds the wire form of a header decodes to exactly that
/// header.
pub proof fn lemma_header_wire_parse(buf: Seq<u8>, pos: int, h: Header)
    requires
        0 <= pos,
        pos + 12 <= buf.len(),
        buf.subrange(pos, pos + 12) == header_wire(h),
    ensures
        spec_parse_header(buf, pos) == Ok::<Header, DeserializationError>(h),
{
    assert(forall|i: int| 0 <= i < 12 ==> #[trigger] buf[pos + i] == header_wire(h)[i]) by {
        assert(forall|i: int|
            0 <= i < 12 ==> #[trigger] buf.subrange(pos, pos + 12)[i] == buf[pos + i]);
    }
    let qr = message_type_code(h.qr);
    let op = opcode_code(h.opcode);
    let aa = bool_bit(h.authoritative);
    let tc = bool_bit(h.truncation);
    let rd = bool_bit(h.recursion_desired);
    let ra = bool_bit(h.recursion_available);
    let rc = response_code_code(h.response_code);
    let flags = upper_flags(h);
    let flags2 = lower_flags(h);
    assert(flags == qr * 0x80 + op * 8 + aa * 4 + tc * 2 + rd);
    assert(flags2 == ra * 0x80 + rc);
    assert((flags / 8) % 16 == op && flags / 0x80 == qr && (flags / 4) % 2 == aa && (flags / 2) % 2
        == tc && flags % 2 == rd) by (nonlinear_arith)
        requires
            flags == qr * 0x80 + op * 8 + aa * 4 + tc * 2 + rd,
            qr <= 1,
            op == 0 || op == 2,
            aa <= 1,
            tc <= 1,
            rd <= 1,
    ;
    assert(flags2 % 16 == rc && flags2 / 0x80 == ra) by (nonlinear_arith)
        requires
            flags2 == ra * 0x80 + rc,
            ra <= 1,
            rc <= 5,
    ;
    assert(be16((h.id / 256) as u8, (h.id % 256) as u8) == h.id);
    assert(be16((h.qdcount / 256) as u8, (h.qdcount % 256) as u8) == h.qdcount);
    assert(be16((h.ancount / 256) as u8, (h.ancount % 256) as u8) == h.ancount);
    assert(be16((h.nscount / 256) as u8, (h.nscount % 256) as u8) == h.nscount);
    assert(be16((h.arcount / 256) as u8, (h.arcount % 256) as u8) == h.arcount);
}

/// Re-encoding a decoded header reproduces the original 12 bytes, whenever
/// the three reserved bits of the second flag byte are clear (the decoder
/// does not retain them, so they are the only bytes' content an encode
/// could not restore).
pub proof fn lemma_header_reencode(buf: Seq<u8>, pos: int, h: Header)
    requires
        0 <= pos,
        pos + 12 <= buf.len(),
        spec_parse_header(buf, pos) == Ok::<Header, DeserializationError>(h),
        (buf[pos + 3] / 16) % 8 == 0,
    ensures
        header_wire(h) =~~= buf.subrange(pos, pos + 12),
{
    let flags = buf[pos + 2];
    let flags2 = buf[pos + 3];
    assert(message_type_code(h.qr) == flags / 0x80);
    assert(opcode_code(h.opcode) == (flags / 8) % 16);
    assert(upper_flags(h) == flags) by (nonlinear_arith)
        requires
            upper_flags(h) == ((flags / 0x80) * 0x80 + ((flags / 8) % 16) * 8 + ((flags / 4) % 2)
                * 4 + ((flags / 2) % 2) * 2 + flags % 2) as u8,
    ;
    assert(lower_flags(h) == flags2) by (nonlinear_arith)
        requires
            lower_flags(h) == ((flags2 / 0x80) * 0x80 + flags2 % 16) as u8,
            (flags2 / 16) % 8 == 0,
    ;
    let b0 = buf[pos];
    let b1 = buf[pos + 1];
    assert((h.id / 256) as u8 == b0 && (h.id % 256) as u8 == b1) by (nonlinear_arith)
        requires
            h.id == b0 as u16 * 256 + b1 as u16,
    ;
    let c0 = buf[pos + 4];
    let c1 = buf[pos + 5];
    assert((h.qdcount / 256) as u8 == c0 && (h.qdcount % 256) as u8 == c1) by (nonlinear_arith)
        requires
            h.qdcount == c0 as u16 * 256 + c1 as u16,
    ;
    let d0 = buf[pos + 6];
    let d1 = buf[pos + 7];
    assert((h.ancount / 256) as u8 == d0 && (h.ancount % 256) as u8 == d1) by (nonlinear_arith)
        requires
            h.ancount == d0 as u16 * 256 + d1 as u16,
    ;
    let e0 = buf[pos + 8];
    let e1 = buf[pos + 9];
    assert((h.nscount / 256) as u8 == e0 && (h.nscount % 256) as u8 == e1) by (nonlinear_arith)
        requires
            h.nscount == e0 as u16 * 256 + e1 as u16,
    ;
    let f0 = buf[pos + 10];
    let f1 = buf[pos + 11];
    assert((h.arcount / 256) as u8 == f0 && (h.arcount % 256) as u8 == f1) by (nonlinear_arith)
        requires
            h.arcount == f0 as u16 * 256 + f1 as u16,
    ;
}

/// A header whose opcode bits hold 1 (undefined in this codec) is rejected
/// as invalid data naming the opcode field, never decoded and never a fault.
pub proof fn lemma_opcode_one_rejected(buf: Seq<u8>, pos: int)
    requires
        0 <= pos,
        pos + 12 <= buf.len(),
        (buf[pos + 2] / 8) % 16 == 1,
    ensures
        spec_parse_header(buf, pos) == Err::<Header, DeserializationError>(
            DeserializationError::InvalidData(Field::Opcode, 1),
        ),
{
}

} // verus!
