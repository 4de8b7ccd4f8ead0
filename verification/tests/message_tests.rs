use dns_codec::domain_name::DomainName;
use dns_codec::header::{MessageType, Opcode, ResponseCode};
use dns_codec::message::DNSMessage;
use dns_codec::question::{Class, Question, Type};
use dns_codec::resource_record::RecordData;
use dns_codec::wire::DeserializationError;

fn example_query_wire(id_hi: u8, id_lo: u8) -> Vec<u8> {
    let mut buf = vec![id_hi, id_lo, 0x01, 0x00, 0, 1, 0, 0, 0, 0, 0, 0];
    buf.extend_from_slice(&[7, b'e', b'x', b'a', b'm', b'p', b'l', b'e', 3, b'c', b'o', b'm', 0]);
    buf.extend_from_slice(&[0, 1, 0, 1]);
    buf
}

#[test]
fn build_query_round_trips() {
    // Decoding the encoding of a built query reproduces the identical
    // qname, qtype, qclass and header flags.
    let hostname = DomainName::from_string("example.com").unwrap();
    let query = DNSMessage::new_query_from_hostname_with_id(hostname, 0x1234);
    let wire = query.serialize();
    assert_eq!(wire, example_query_wire(0x12, 0x34));
    let (consumed, back) = DNSMessage::deserialize(&wire, 0).unwrap();
    assert_eq!(consumed, wire.len());
    assert_eq!(back.header, query.header);
    assert_eq!(back.question.qname.text(), query.question.qname.text());
    assert_eq!(back.question.qtype, query.question.qtype);
    assert_eq!(back.question.qclass, query.question.qclass);
    assert!(back.answers.is_none() && back.authorities.is_none() && back.additional.is_none());
}

#[test]
fn random_id_query_round_trips_id_excluded() {
    // The id is random: it is only checked for presence in the wire form,
    // while everything else must round-trip exactly.
    let hostname = DomainName::from_string("example.com").unwrap();
    let query = DNSMessage::new_query_from_hostname(hostname);
    let wire = query.serialize();
    assert_eq!(wire.len(), 29);
    assert_eq!(wire[0], (query.header.id / 256) as u8);
    assert_eq!(wire[1], (query.header.id % 256) as u8);
    let (_, back) = DNSMessage::deserialize(&wire, 0).unwrap();
    assert_eq!(back.header.qr, MessageType::Query);
    assert_eq!(back.header.opcode, Opcode::StandardQuery);
    assert!(back.header.recursion_desired);
    assert!(!back.header.authoritative && !back.header.truncation);
    assert!(!back.header.recursion_available);
    assert_eq!(back.header.response_code, ResponseCode::NoError);
    assert_eq!(back.header.qdcount, 1);
    assert_eq!(back.question.qname.text().as_slice(), b"example.com");
    assert_eq!(back.question.qtype, Type::A);
    assert_eq!(back.question.qclass, Class::Internet);
}

#[test]
fn short_buffers_fail_with_buffer_overflow() {
    // Any buffer shorter than the fixed 12-byte header fails with
    // BufferOverflow and performs no out-of-range access.
    for len in 0..12 {
        let buf = vec![0xFFu8; len];
        assert_eq!(
            DNSMessage::deserialize(&buf, 0).unwrap_err(),
            DeserializationError::BufferOverflow
        );
    }
}

#[test]
fn opcode_one_in_message_is_invalid_data() {
    let mut buf = example_query_wire(0x12, 0x34);
    buf[2] = 0b0000_1000;
    assert!(matches!(
        DNSMessage::deserialize(&buf, 0).unwrap_err(),
        DeserializationError::InvalidData(_, 1)
    ));
}

/// A canonical response: one A-record answer naming "example.com" through a
/// compression pointer, ttl 3600, address 93.184.216.34.
fn canonical_a_response() -> Vec<u8> {
    let mut buf = vec![0x12, 0x34, 0x81, 0x80, 0, 1, 0, 1, 0, 0, 0, 0];
    // Question: example.com A IN (name at offset 12).
    buf.extend_from_slice(&[7, b'e', b'x', b'a', b'm', b'p', b'l', b'e', 3, b'c', b'o', b'm', 0]);
    buf.extend_from_slice(&[0, 1, 0, 1]);
    // Answer: pointer to offset 12, type A, class IN, ttl 3600, rdlength 4,
    // then the four address octets.
    buf.extend_from_slice(&[0xC0, 0x0C, 0, 1, 0, 1, 0x00, 0x00, 0x0E, 0x10, 0, 4]);
    buf.extend_from_slice(&[93, 184, 216, 34]);
    buf
}

#[test]
fn decodes_one_a_record_answer() {
    // End-to-end: the canonical wire buffer yields a message whose first
    // answer is variant A with exactly that address and ttl.
    let buf = canonical_a_response();
    let (consumed, msg) = DNSMessage::deserialize(&buf, 0).unwrap();
    assert_eq!(consumed, buf.len());
    assert_eq!(msg.header.id, 0x1234);
    assert_eq!(msg.header.qr, MessageType::Response);
    assert_eq!(msg.header.ancount, 1);
    assert_eq!(msg.question.qname.text().as_slice(), b"example.com");
    let answers = msg.answers.as_ref().unwrap();
    assert_eq!(answers.len(), 1);
    let answer = &answers[0];
    assert_eq!(answer.header.name.text().as_slice(), b"example.com");
    assert_eq!(answer.header.rr_type, Type::A);
    assert_eq!(answer.header.rr_class, Class::Internet);
    assert_eq!(answer.header.ttl, 3600);
    assert_eq!(answer.header.rdlength, 4);
    match &answer.data {
        RecordData::A(addr) => {
            assert_eq!((addr.o0, addr.o1, addr.o2, addr.o3), (93, 184, 216, 34));
        }
        other => panic!("expected an A body, got {:?}", std::mem::discriminant(other)),
    }
    assert!(msg.authorities.is_none() && msg.additional.is_none());
}

#[test]
fn decodes_a_cname_answer() {
    let mut buf = vec![0x00, 0x01, 0x80, 0x00, 0, 1, 0, 1, 0, 0, 0, 0];
    buf.extend_from_slice(&[3, b'w', b'w', b'w', 3, b'f', b'o', b'o', 2, b'i', b'o', 0]);
    buf.extend_from_slice(&[0, 1, 0, 1]);
    // Answer: same name via pointer, type CName, class IN, ttl 60,
    // rdlength 2, body "foo.io" as a pointer to offset 16.
    buf.extend_from_slice(&[0xC0, 0x0C, 0, 5, 0, 1, 0, 0, 0, 60, 0, 2]);
    buf.extend_from_slice(&[0xC0, 0x10]);
    let (consumed, msg) = DNSMessage::deserialize(&buf, 0).unwrap();
    assert_eq!(consumed, buf.len());
    let answers = msg.answers.as_ref().unwrap();
    assert_eq!(answers[0].header.rr_type, Type::CName);
    match &answers[0].data {
        RecordData::CName(name) => assert_eq!(name.text().as_slice(), b"foo.io"),
        _ => panic!("expected a CName body"),
    }
}

#[test]
fn decodes_two_answers_with_a_shared_cursor() {
    let mut buf = vec![0x00, 0x01, 0x80, 0x00, 0, 1, 0, 2, 0, 0, 0, 0];
    buf.extend_from_slice(&[1, b'x', 2, b'y', b'z', 0]);
    buf.extend_from_slice(&[0, 1, 0, 1]);
    buf.extend_from_slice(&[0xC0, 0x0C, 0, 1, 0, 1, 0, 0, 0, 1, 0, 4, 1, 2, 3, 4]);
    // The second record's name points into the first record's name, which
    // itself points back into the question.
    buf.extend_from_slice(&[0xC0, 0x16, 0, 1, 0, 1, 0, 0, 0, 1, 0, 4, 5, 6, 7, 8]);
    let (consumed, msg) = DNSMessage::deserialize(&buf, 0).unwrap();
    assert_eq!(consumed, buf.len());
    let answers = msg.answers.as_ref().unwrap();
    assert_eq!(answers.len(), 2);
    assert_eq!(answers[0].header.name.text().as_slice(), b"x.yz");
    assert_eq!(answers[1].header.name.text().as_slice(), b"x.yz");
    match (&answers[0].data, &answers[1].data) {
        (RecordData::A(a0), RecordData::A(a1)) => {
            assert_eq!((a0.o0, a0.o1, a0.o2, a0.o3), (1, 2, 3, 4));
            assert_eq!((a1.o0, a1.o1, a1.o2, a1.o3), (5, 6, 7, 8));
        }
        _ => panic!("expected two A bodies"),
    }
}

#[test]
fn unsupported_record_type_is_a_hard_stop() {
    // An NS answer: a recognized type whose body this codec does not
    // decode; it must fail explicitly, never skip by the declared length.
    let mut buf = vec![0x00, 0x01, 0x80, 0x00, 0, 1, 0, 1, 0, 0, 0, 0];
    buf.extend_from_slice(&[2, b'i', b'o', 0]);
    buf.extend_from_slice(&[0, 1, 0, 1]);
    buf.extend_from_slice(&[0xC0, 0x0C, 0, 2, 0, 1, 0, 0, 0, 1, 0, 4, 1, 2, 3, 4]);
    assert_eq!(
        DNSMessage::deserialize(&buf, 0).unwrap_err(),
        DeserializationError::UnsupportedRecordType
    );
}

#[test]
fn unknown_type_code_is_invalid_data() {
    let mut buf = example_query_wire(0, 1);
    // Question type 3 is outside the codec's set (A=1, NS=2, CNAME=5,
    // SOA=6, WKS=11, PTR=12, MX=15).
    buf[25] = 0;
    buf[26] = 3;
    let err = DNSMessage::deserialize(&buf, 0).unwrap_err();
    assert!(matches!(err, DeserializationError::InvalidData(_, 3)));
}

#[test]
fn truncated_answer_is_buffer_overflow() {
    let mut buf = canonical_a_response();
    buf.truncate(buf.len() - 2);
    assert_eq!(
        DNSMessage::deserialize(&buf, 0).unwrap_err(),
        DeserializationError::BufferOverflow
    );
}

#[test]
fn new_from_components_keeps_its_parts() {
    let hostname = DomainName::from_string("parts.example").unwrap();
    let header = dns_codec::header::Header::standard_query_from_id(9);
    let question = Question::new(hostname, Type::A, Class::Internet);
    let msg = DNSMessage::new_from_components(header, question, None, None, None);
    assert_eq!(msg.header.id, 9);
    assert_eq!(msg.question.qname.text().as_slice(), b"parts.example");
    assert!(msg.answers.is_none());
}

#[test]
fn question_codec_round_trips() {
    let q = Question::new_from_domain_name(DomainName::from_string("a.b-c.d").unwrap());
    let wire = q.serialize();
    let (consumed, back) = Question::deserialize(&wire, 0).unwrap();
    assert_eq!(consumed, wire.len());
    assert_eq!(back.qname.text().as_slice(), b"a.b-c.d");
    assert_eq!(back.qtype, Type::A);
    assert_eq!(back.qclass, Class::Internet);
}

#[test]
fn unknown_class_code_is_invalid_data() {
    assert!(matches!(
        Class::try_from_u16(2).unwrap_err(),
        DeserializationError::InvalidData(_, 2)
    ));
    assert!(matches!(
        Type::try_from_u16(16).unwrap_err(),
        DeserializationError::InvalidData(_, 16)
    ));
    assert_eq!(Type::try_from_u16(5).unwrap(), Type::CName);
    assert_eq!(Class::try_from_u16(3).unwrap(), Class::Chaos);
}
