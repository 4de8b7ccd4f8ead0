//! Resource record codec: a record header (name, type, class, ttl, declared
//! RDATA length), then an RDATA body decoded by the header's type. Only A
//! and CName bodies are in this codec's scope; any other recognized type is
//! an explicit hard stop, never skipped by the declared length.

use vstd::prelude::*;

use crate::domain_name::{spec_parse_name, DomainName};
use crate::question::{spec_class_from, spec_type_from, Class, Type};
use crate::wire::{
    be16, be_i32, read_i32, read_ipv4, read_u16, DeserializationError, Field, Ipv4Address,
};

verus! {

/// The logical content of a record header.
#[verifier::ext_equal]
pub struct RecordHeaderV {
    pub name: Seq<u8>,
    pub rr_type: Type,
    pub rr_class: Class,
    pub ttl: i32,
    pub rdlength: u16,
}

/// A record's header: the name it binds, its type and class, its
/// time-to-live, and the declared RDATA length. The declared length is
/// advisory: each RDATA variant knows its own byte length.
#[derive(Debug)]
pub struct ResourceRecordHeader {
    pub name: DomainName,
    pub rr_type: Type,
    pub rr_class: Class,
    pub ttl: i32,
    pub rdlength: u16,
}

impl View for ResourceRecordHeader {
    type V = RecordHeaderV;

    open spec fn view(&self) -> RecordHeaderV {
        RecordHeaderV {
            name: self.name@,
            rr_type: self.rr_type,
            rr_class: self.rr_class,
            ttl: self.ttl,
            rdlength: self.rdlength,
        }
    }
}

/// The logical content of a record's RDATA.
#[verifier::ext_equal]
pub enum RecordDataV {
    A(Ipv4Address),
    CName(Seq<u8>),
}

/// A record's RDATA: a closed tagged union over the bodies this codec
/// decodes.
#[derive(Debug)]
pub enum RecordData {
    A(Ipv4Address),
    CName(DomainName),
}

impl View for RecordData {
    type V = RecordDataV;

    open spec fn view(&self) -> RecordDataV {
        match self {
            RecordData::A(addr) => RecordDataV::A(*addr),
            RecordData::CName(name) => RecordDataV::CName(name@),
        }
    }
}

/// The logical content of a resource record.
#[verifier::ext_equal]
pub struct RecordV {
    pub header: RecordHeaderV,
    pub data: RecordDataV,
}

/// One decoded resource record: its header and its typed body. Constructed
/// once per decoded wire record and logically immutable afterward.
#[derive(Debug)]
pub struct ResourceRecord {
    pub header: ResourceRecordHeader,
    pub data: RecordData,
}

impl View for ResourceRecord {
    type V = RecordV;

    open spec fn view(&self) -> RecordV {
        RecordV { header: self.header@, data: self.data@ }
    }
}

/// What decoding a record header yields.
#[verifier::ext_equal]
pub struct RecordHeaderParse {
    pub header: RecordHeaderV,
    pub consumed: int,
}

/// What decoding a record header at `pos` yields: a name, a type and a class
/// that must belong to the codec's sets, a sign-preserving 32-bit ttl, and
/// the declared RDATA length.
pub open spec fn spec_parse_record_header(buf: Seq<u8>, pos: int) -> Result<
    RecordHeaderParse,
    DeserializationError,
> {
    match spec_parse_name(buf, pos) {
        Ok(p) => {
            let pos2 = pos + p.consumed;
            if pos2 + 2 > buf.len() {
                Err(DeserializationError::BufferOverflow)
            } else {
                let tv = be16(buf[pos2], buf[pos2 + 1]);
                match spec_type_from(tv) {
                    Some(rr_type) => {
                        if pos2 + 4 > buf.len() {
                            Err(DeserializationError::BufferOverflow)
                        } else {
                            let cv = be16(buf[pos2 + 2], buf[pos2 + 3]);
                            match spec_class_from(cv) {
                                Some(rr_class) => {
                                    if pos2 + 8 > buf.len() {
                                        Err(DeserializationError::BufferOverflow)
                                    } else if pos2 + 10 > buf.len() {
                                        Err(DeserializationError::BufferOverflow)
                                    } else {
                                        Ok(
                                            RecordHeaderParse {
                                                header: RecordHeaderV {
                                                    name: p.text,
                                                    rr_type,
                                                    rr_class,
                                                    ttl: be_i32(
                                                        buf[pos2 + 4],
                                                        buf[pos2 + 5],
                                                        buf[pos2 + 6],
                                                        buf[pos2 + 7],
                                                    ),
                                                    rdlength: be16(buf[pos2 + 8], buf[pos2 + 9]),
                                                },
                                                consumed: p.consumed + 10,
                                            },
                                        )
                                    }
                                },
                                None => Err(DeserializationError::InvalidData(Field::Class, cv)),
                            }
                        }
                    },
                    None => Err(DeserializationError::InvalidData(Field::Type, tv)),
                }
            }
        },
        Err(e) => Err(e),
    }
}

/// What decoding an RDATA body yields.
#[verifier::ext_equal]
pub struct RecordDataParse {
    pub data: RecordDataV,
    pub consumed: int,
}

/// What decoding the RDATA at `pos` for a record of type `rr_type` yields:
/// an A body is exactly four address octets; a CName body is a name, itself
/// possibly compressed; every other recognized type is an explicit hard
/// stop.
pub open spec fn spec_parse_record_data(buf: Seq<u8>, pos: int, rr_type: Type) -> Result<
    RecordDataParse,
    DeserializationError,
> {
    match rr_type {
        Type::A => {
            if pos < 0 || pos + 4 > buf.len() {
                Err(DeserializationError::BufferOverflow)
            } else {
                Ok(
                    RecordDataParse {
                        data: RecordDataV::A(
                            Ipv4Address {
                                o0: buf[pos],
                                o1: buf[pos + 1],
                                o2: buf[pos + 2],
                                o3: buf[pos + 3],
                            },
                        ),
                        consumed: 4,
                    },
                )
            }
        },
        Type::CName => match spec_parse_name(buf, pos) {
            Ok(p) => Ok(RecordDataParse { data: RecordDataV::CName(p.text), consumed: p.consumed }),
            Err(e) => Err(e),
        },
        _ => Err(DeserializationError::UnsupportedRecordType),
    }
}

/// What decoding a whole record at `pos` yields: its header, then its body
/// at the advanced cursor.
pub open spec fn spec_parse_record(buf: Seq<u8>, pos: int) -> Result<
    (RecordV, int),
    DeserializationError,
> {
    match spec_parse_record_header(buf, pos) {
        Ok(hp) => match spec_parse_record_data(buf, pos + hp.consumed, hp.header.rr_type) {
            Ok(dp) => Ok(
                (RecordV { header: hp.header, data: dp.data }, hp.consumed + dp.consumed),
            ),
            Err(e) => Err(e),
        },
        Err(e) => Err(e),
    }
}

impl ResourceRecordHeader {
    /// A record header made of the given parts.
    pub fn new(name: DomainName, rr_type: Type, rr_class: Class, ttl: i32, rdlength: u16) -> (r:
        ResourceRecordHeader)
        ensures
            r@ == (RecordHeaderV { name: name@, rr_type, rr_class, ttl, rdlength }),
    {
        ResourceRecordHeader { name, rr_type, rr_class, ttl, rdlength }
    }

    /// The type that selects this record's RDATA decoder.
    pub fn rr_type(&self) -> (r: Type)
        ensures
            r == self@.rr_type,
    {
        self.rr_type
    }

    /// Decodes a record header at `offset`: the name advances the cursor,
    /// then type (validated), class (validated), ttl and declared RDATA
    /// length are read.
    pub fn deserialize(bytes: &[u8], offset: usize) -> (r: Result<
        (usize, ResourceRecordHeader),
        DeserializationError,
    >)
        ensures
            match r {
                Ok((n, h)) => spec_parse_record_header(bytes@, offset as int) == Ok::<
                    RecordHeaderParse,
                    DeserializationError,
                >(RecordHeaderParse { header: h@, consumed: n as int }) && offset + n
                    <= bytes@.len(),
                Err(e) => spec_parse_record_header(bytes@, offset as int) == Err::<
                    RecordHeaderParse,
                    DeserializationError,
                >(e),
            },
    {
        let n_total = bytes.len();
        let (name_len, name) = match DomainName::deserialize(bytes, offset) {
            Ok(p) => p,
            Err(e) => {
                return Err(e);
            },
        };
        let pos2 = offset + name_len;
        let (_, tv) = match read_u16(bytes, pos2) {
            Ok(p) => p,
            Err(e) => {
                return Err(e);
            },
        };
        let rr_type = match Type::try_from_u16(tv) {
            Ok(t) => t,
            Err(e) => {
                return Err(e);
            },
        };
        let (_, cv) = match read_u16(bytes, pos2 + 2) {
            Ok(p) => p,
            Err(e) => {
                return Err(e);
            },
        };
        let rr_class = match Class::try_from_u16(cv) {
            Ok(c) => c,
            Err(e) => {
                return Err(e);
            },
        };
        let (_, ttl) = match read_i32(bytes, pos2 + 4) {
            Ok(p) => p,
            Err(e) => {
                return Err(e);
            },
        };
        let (_, rdlength) = match read_u16(bytes, pos2 + 8) {
            Ok(p) => p,
            Err(e) => {
                return Err(e);
            },
        };
        Ok((name_len + 10, ResourceRecordHeader { name, rr_type, rr_class, ttl, rdlength }))
    }
}

impl ResourceRecord {
    /// A record made of the given header and body.
    pub fn new(header: ResourceRecordHeader, data: RecordData) -> (r: ResourceRecord)
        ensures
            r@ == (RecordV { header: header@, data: data@ }),
    {
        ResourceRecord { header, data }
    }

    /// Decodes the RDATA at `offset` for an already-decoded header,
    /// dispatching on the header's type: A reads exactly four address
    /// octets, CName decodes a name (itself possibly compressed), and every
    /// other recognized type fails as unsupported.
    pub fn decode_rdata(header: ResourceRecordHeader, bytes: &[u8], offset: usize) -> (r: Result<
        (usize, ResourceRecord),
        DeserializationError,
    >)
        ensures
            match r {
                Ok((n, rr)) => spec_parse_record_data(bytes@, offset as int, header@.rr_type)
                    == Ok::<RecordDataParse, DeserializationError>(
                    RecordDataParse { data: rr@.data, consumed: n as int },
                ) && rr@.header == header@ && offset + n <= bytes@.len(),
                Err(e) => spec_parse_record_data(bytes@, offset as int, header@.rr_type) == Err::<
                    RecordDataParse,
                    DeserializationError,
                >(e),
            },
    {
        match header.rr_type {
            Type::A => {
                let (n, addr) = match read_ipv4(bytes, offset) {
                    Ok(p) => p,
                    Err(e) => {
                        return Err(e);
                    },
                };
                Ok((n, ResourceRecord { header, data: RecordData::A(addr) }))
            },
            Type::CName => {
                let (n, cname) = match DomainName::deserialize(bytes, offset) {
                    Ok(p) => p,
                    Err(e) => {
                        return Err(e);
                    },
                };
                Ok((n, ResourceRecord { header, data: RecordData::CName(cname) }))
            },
            _ => Err(DeserializationError::UnsupportedRecordType),
        }
    }

    /// Decodes a whole record at `offset`: its header, then its RDATA at the
    /// advanced cursor.
    pub fn deserialize(bytes: &[u8], offset: usize) -> (r: Result<
        (usize, ResourceRecord),
        DeserializationError,
    >)
        ensures
            match r {
                Ok((n, rr)) => spec_parse_record(bytes@, offset as int) == Ok::<
                    (RecordV, int),
                    DeserializationError,
                >((rr@, n as int)) && offset + n <= bytes@.len(),
                Err(e) => spec_parse_record(bytes@, offset as int) == Err::<
                    (RecordV, int),
                    DeserializationError,
                >(e),
            },
    {
        let n_total = bytes.len();
        let (header_len, header) = match ResourceRecordHeader::deserialize(bytes, offset) {
            Ok(p) => p,
            Err(e) => {
                return Err(e);
            },
        };
        let (data_len, rr) = match ResourceRecord::decode_rdata(header, bytes, offset + header_len)
        {
            Ok(p) => p,
            Err(e) => {
                return Err(e);
            },
        };
        Ok((header_len + data_len, rr))
    }
}

} // verus!
