use dns_codec::header::{
    Header, MessageError, MessageType, Opcode, ResponseCode,
};
use dns_codec::wire::{DeserializationError, Field};

#[test]
fn encode_decode_header_is_byte_identical() {
    // A standard query with id 0x1234, all flags false, one question and no
    // other entries: decoding then re-encoding reproduces the 12 bytes.
    let header_bytes = vec![0x12, 0x34, 0x00, 0x00, 0x00, 0x01, 0, 0, 0, 0, 0, 0];
    let (consumed, header) = Header::deserialize(&header_bytes, 0).unwrap();
    assert_eq!(consumed, 12);
    assert_eq!(header.serialize(), header_bytes);
}

#[test]
fn decodes_header_fields() {
    // id 0xBEEF; QR=1, opcode=2, AA=1, TC=0, RD=1 -> 0b1001_0101 = 0x95;
    // RA=1, RCODE=3 -> 0x83; counts 1, 2, 3, 4.
    let buf = vec![0xBE, 0xEF, 0x95, 0x83, 0, 1, 0, 2, 0, 3, 0, 4];
    let (_, h) = Header::deserialize(&buf, 0).unwrap();
    assert_eq!(h.id, 0xBEEF);
    assert_eq!(h.qr, MessageType::Response);
    assert_eq!(h.opcode, Opcode::StatusQuery);
    assert!(h.authoritative);
    assert!(!h.truncation);
    assert!(h.recursion_desired);
    assert!(h.recursion_available);
    assert_eq!(h.response_code, ResponseCode::NameError);
    assert_eq!(h.qdcount, 1);
    assert_eq!(h.ancount, 2);
    assert_eq!(h.nscount, 3);
    assert_eq!(h.arcount, 4);
    assert_eq!(h.serialize(), buf);
}

#[test]
fn opcode_one_is_invalid_data() {
    // Opcode bits hold 1: undefined in this codec, rejected as invalid
    // data, never an uncaught fault.
    let buf = vec![0x12, 0x34, 0b0000_1000, 0x00, 0, 1, 0, 0, 0, 0, 0, 0];
    assert_eq!(
        Header::deserialize(&buf, 0).unwrap_err(),
        DeserializationError::InvalidData(Field::Opcode, 1)
    );
}

#[test]
fn response_code_above_five_is_invalid_data() {
    let buf = vec![0x12, 0x34, 0x00, 0x06, 0, 1, 0, 0, 0, 0, 0, 0];
    assert_eq!(
        Header::deserialize(&buf, 0).unwrap_err(),
        DeserializationError::InvalidData(Field::ResponseCode, 6)
    );
}

#[test]
fn short_header_is_buffer_overflow() {
    let buf = vec![0x12, 0x34, 0x00];
    assert_eq!(
        Header::deserialize(&buf, 0).unwrap_err(),
        DeserializationError::BufferOverflow
    );
}

#[test]
fn standard_query_header_shape() {
    let h = Header::standard_query_from_id(77);
    assert_eq!(h.id, 77);
    assert_eq!(h.qr, MessageType::Query);
    assert_eq!(h.opcode, Opcode::StandardQuery);
    assert!(!h.authoritative && !h.truncation && !h.recursion_available);
    assert!(h.recursion_desired);
    assert_eq!(h.response_code, ResponseCode::NoError);
    assert_eq!((h.qdcount, h.ancount, h.nscount, h.arcount), (1, 0, 0, 0));
}

#[test]
fn standard_query_header_wire_form() {
    let h = Header::standard_query_from_id(0x0102);
    // RD is the only flag set.
    assert_eq!(h.serialize(), vec![0x01, 0x02, 0x01, 0x00, 0, 1, 0, 0, 0, 0, 0, 0]);
}

#[test]
fn enum_conversions_round_trip() {
    assert_eq!(MessageType::try_from_u8(0).unwrap(), MessageType::Query);
    assert_eq!(MessageType::try_from_u8(1).unwrap(), MessageType::Response);
    assert_eq!(
        MessageType::try_from_u8(2).unwrap_err(),
        MessageError::InvalidMessageType
    );
    assert_eq!(Opcode::try_from_u8(0).unwrap(), Opcode::StandardQuery);
    assert_eq!(Opcode::try_from_u8(2).unwrap(), Opcode::StatusQuery);
    assert_eq!(Opcode::try_from_u8(1).unwrap_err(), MessageError::InvalidOpcode);
    for code in 0u8..=5 {
        let rc = ResponseCode::try_from_u8(code).unwrap();
        assert_eq!(rc.code(), code);
    }
    assert_eq!(
        ResponseCode::try_from_u8(6).unwrap_err(),
        MessageError::InvalidResponseCode
    );
}
