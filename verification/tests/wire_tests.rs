use dns_codec::resource_record::{RecordData, ResourceRecord, ResourceRecordHeader};
use dns_codec::wire::{read_i32, read_ipv4, read_u16, DeserializationError};

#[test]
fn reads_u16_big_endian() {
    let buf = vec![0x12, 0x34, 0xFF, 0x00];
    assert_eq!(read_u16(&buf, 0).unwrap(), (2, 0x1234));
    assert_eq!(read_u16(&buf, 2).unwrap(), (2, 0xFF00));
    assert_eq!(read_u16(&buf, 3).unwrap_err(), DeserializationError::BufferOverflow);
    assert_eq!(read_u16(&buf, 4).unwrap_err(), DeserializationError::BufferOverflow);
}

#[test]
fn reads_i32_big_endian_sign_preserving() {
    let buf = vec![0x00, 0x00, 0x0E, 0x10, 0xFF, 0xFF, 0xFF, 0xFE];
    assert_eq!(read_i32(&buf, 0).unwrap(), (4, 3600));
    assert_eq!(read_i32(&buf, 4).unwrap(), (4, -2));
    assert_eq!(read_i32(&buf, 5).unwrap_err(), DeserializationError::BufferOverflow);
}

#[test]
fn reads_ipv4_octets() {
    let buf = vec![93, 184, 216, 34, 7];
    let (n, addr) = read_ipv4(&buf, 0).unwrap();
    assert_eq!(n, 4);
    assert_eq!((addr.o0, addr.o1, addr.o2, addr.o3), (93, 184, 216, 34));
    assert_eq!(read_ipv4(&buf, 2).unwrap_err(), DeserializationError::BufferOverflow);
}

#[test]
fn decodes_a_record_header() {
    let mut buf = vec![2, b'h', b'i', 0];
    buf.extend_from_slice(&[0, 5, 0, 1, 0x00, 0x01, 0x51, 0x80, 0, 9]);
    let (consumed, h) = ResourceRecordHeader::deserialize(&buf, 0).unwrap();
    assert_eq!(consumed, 14);
    assert_eq!(h.name.text().as_slice(), b"hi");
    assert_eq!(h.rr_type(), dns_codec::question::Type::CName);
    assert_eq!(h.rr_class, dns_codec::question::Class::Internet);
    assert_eq!(h.ttl, 86400);
    assert_eq!(h.rdlength, 9);
}

#[test]
fn record_header_with_negative_ttl_is_sign_preserved() {
    let mut buf = vec![1, b'a', 0];
    buf.extend_from_slice(&[0, 1, 0, 1, 0xFF, 0xFF, 0xFF, 0xFF, 0, 4]);
    let (_, h) = ResourceRecordHeader::deserialize(&buf, 0).unwrap();
    assert_eq!(h.ttl, -1);
}

#[test]
fn rdata_length_agrees_with_declared_rdlength() {
    // The declared rdlength is advisory: the A decoder knows its body is 4
    // bytes, and on well-formed input the two agree.
    let mut buf = vec![1, b'a', 0];
    buf.extend_from_slice(&[0, 1, 0, 1, 0, 0, 0, 9, 0, 4]);
    buf.extend_from_slice(&[10, 0, 0, 1]);
    let (consumed, rr) = ResourceRecord::deserialize(&buf, 0).unwrap();
    let (header_len, _) = ResourceRecordHeader::deserialize(&buf, 0).unwrap();
    assert_eq!(consumed - header_len, rr.header.rdlength as usize);
    match rr.data {
        RecordData::A(addr) => assert_eq!((addr.o0, addr.o1, addr.o2, addr.o3), (10, 0, 0, 1)),
        _ => panic!("expected an A body"),
    }
}

#[test]
fn truncated_record_header_is_buffer_overflow() {
    let buf = vec![1, b'a', 0, 0, 1, 0, 1];
    assert_eq!(
        ResourceRecordHeader::deserialize(&buf, 0).unwrap_err(),
        DeserializationError::BufferOverflow
    );
}
