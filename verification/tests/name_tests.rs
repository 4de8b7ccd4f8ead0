use dns_codec::domain_name::DomainName;
use dns_codec::wire::{DeserializationError, Field};

#[test]
fn accepts_simple_hostnames() {
    let dn = DomainName::from_string("example.com").unwrap();
    assert_eq!(dn.text().as_slice(), b"example.com");
    let dn = DomainName::from_string("a").unwrap();
    assert_eq!(dn.text().as_slice(), b"a");
    let dn = DomainName::from_string("xn--9ca.example").unwrap();
    assert_eq!(dn.text().as_slice(), b"xn--9ca.example");
    let dn = DomainName::from_string("123.456.789").unwrap();
    assert_eq!(dn.text().as_slice(), b"123.456.789");
}

#[test]
fn rejects_bad_hostnames() {
    assert!(DomainName::from_string("").is_err());
    assert!(DomainName::from_string(".").is_err());
    assert!(DomainName::from_string(".example").is_err());
    assert!(DomainName::from_string("example.").is_err());
    assert!(DomainName::from_string("a..b").is_err());
    assert!(DomainName::from_string("-leading.com").is_err());
    assert!(DomainName::from_string("trailing-.com").is_err());
    assert!(DomainName::from_string("under_score.com").is_err());
    assert!(DomainName::from_string("spa ce.com").is_err());
    assert!(DomainName::from_string("\u{00e9}.com").is_err());
}

#[test]
fn rejects_overlong_labels_and_names() {
    let label63 = "a".repeat(63);
    assert!(DomainName::from_string(&label63).is_ok());
    let label64 = "a".repeat(64);
    assert!(DomainName::from_string(&label64).is_err());

    // 63 + 1 + 63 + 1 + 63 + 1 + 61 = 253 octets: the longest legal text.
    let name253 = format!("{}.{}.{}.{}", label63, label63, label63, "a".repeat(61));
    assert_eq!(name253.len(), 253);
    assert!(DomainName::from_string(&name253).is_ok());
    let name254 = format!("{}.{}.{}.{}", label63, label63, label63, "a".repeat(62));
    assert_eq!(name254.len(), 254);
    assert!(DomainName::from_string(&name254).is_err());
}

#[test]
fn hostname_error_is_invalid_data() {
    assert_eq!(
        DomainName::from_string("a..b").unwrap_err(),
        DeserializationError::InvalidData(Field::Name, 0)
    );
}

#[test]
fn serializes_labels_with_length_prefixes() {
    let dn = DomainName::from_string("example.com").unwrap();
    assert_eq!(
        dn.serialize(),
        vec![7, b'e', b'x', b'a', b'm', b'p', b'l', b'e', 3, b'c', b'o', b'm', 0]
    );
    let dn = DomainName::from_string("a").unwrap();
    assert_eq!(dn.serialize(), vec![1, b'a', 0]);
}

#[test]
fn deserializes_plain_names() {
    let buf = vec![7, b'e', b'x', b'a', b'm', b'p', b'l', b'e', 3, b'c', b'o', b'm', 0];
    let (consumed, dn) = DomainName::deserialize(&buf, 0).unwrap();
    assert_eq!(consumed, 13);
    assert_eq!(dn.text().as_slice(), b"example.com");
}

#[test]
fn name_round_trips_through_wire_form() {
    let dn = DomainName::from_string("www.example-site.org").unwrap();
    let wire = dn.serialize();
    let (consumed, back) = DomainName::deserialize(&wire, 0).unwrap();
    assert_eq!(consumed, wire.len());
    assert_eq!(back.text(), dn.text());
}

#[test]
fn pointer_consumes_exactly_two_bytes() {
    // One name at offset 0, then a pure compression pointer to it at
    // offset 5: both decode to the same logical name, and the pointer's
    // consumed-byte count is exactly 2.
    let buf = vec![3, b'f', b'o', b'o', 0, 0xC0, 0x00];
    let (c1, n1) = DomainName::deserialize(&buf, 0).unwrap();
    let (c2, n2) = DomainName::deserialize(&buf, 5).unwrap();
    assert_eq!(n1.text().as_slice(), b"foo");
    assert_eq!(n2.text(), n1.text());
    assert_eq!(c1, 5);
    assert_eq!(c2, 2);
}

#[test]
fn pointer_chains_resolve() {
    // A pointer that lands on another pointer, which lands on labels.
    let buf = vec![3, b'b', b'a', b'r', 0, 0xC0, 0x00, 0xC0, 0x05];
    let (c, n) = DomainName::deserialize(&buf, 7).unwrap();
    assert_eq!(n.text().as_slice(), b"bar");
    assert_eq!(c, 2);
}

#[test]
fn labels_before_a_pointer_count_without_the_target() {
    // "www" then a pointer to "foo": text is www.foo; consumed is the
    // label (4 bytes) plus the pointer (2 bytes), not the target's bytes.
    let buf = vec![3, b'f', b'o', b'o', 0, 3, b'w', b'w', b'w', 0xC0, 0x00];
    let (c, n) = DomainName::deserialize(&buf, 5).unwrap();
    assert_eq!(n.text().as_slice(), b"www.foo");
    assert_eq!(c, 6);
}

#[test]
fn cyclic_pointer_fails_instead_of_looping() {
    // A pointer that points at itself: decoding must terminate with an
    // error, not loop forever.
    let buf = vec![0xC0, 0x00];
    let err = DomainName::deserialize(&buf, 0).unwrap_err();
    assert!(matches!(err, DeserializationError::InvalidData(Field::Pointer, _)));
}

#[test]
fn pointer_chains_end_at_the_hop_limit() {
    // A chain of pointers, each landing on the previous one, with literal
    // labels at the far end: a chain within the hop limit resolves, a
    // longer one is rejected as malformed instead of looping.
    let mut buf = vec![1, b'a', 0];
    for k in 0..17u16 {
        let target = if k == 0 { 0 } else { 3 + 2 * (k - 1) };
        buf.push(0xC0 | (target / 256) as u8);
        buf.push((target % 256) as u8);
    }
    // The pointer at offset 3 + 2*15 is the sixteenth hop: still resolved.
    let (c, n) = DomainName::deserialize(&buf, 3 + 2 * 15).unwrap();
    assert_eq!(n.text().as_slice(), b"a");
    assert_eq!(c, 2);
    // The pointer at offset 3 + 2*16 would need a seventeenth hop.
    let err = DomainName::deserialize(&buf, 3 + 2 * 16).unwrap_err();
    assert!(matches!(err, DeserializationError::InvalidData(Field::Pointer, _)));
}

#[test]
fn truncated_name_is_buffer_overflow() {
    // Length byte promises 5 octets but only 2 follow.
    let buf = vec![5, b'a', b'b'];
    assert_eq!(
        DomainName::deserialize(&buf, 0).unwrap_err(),
        DeserializationError::BufferOverflow
    );
    // Missing terminator.
    let buf = vec![1, b'a'];
    assert_eq!(
        DomainName::deserialize(&buf, 0).unwrap_err(),
        DeserializationError::BufferOverflow
    );
    // Pointer cut off after its first byte.
    let buf = vec![0xC0];
    assert_eq!(
        DomainName::deserialize(&buf, 0).unwrap_err(),
        DeserializationError::BufferOverflow
    );
}

#[test]
fn empty_name_is_rejected() {
    let buf = vec![0u8];
    assert_eq!(
        DomainName::deserialize(&buf, 0).unwrap_err(),
        DeserializationError::InvalidData(Field::Name, 0)
    );
}

#[test]
fn decoded_labels_are_validated_as_text() {
    // An underscore inside a label is not well-formed name text.
    let buf = vec![3, b'f', b'_', b'o', 0];
    assert!(matches!(
        DomainName::deserialize(&buf, 0).unwrap_err(),
        DeserializationError::InvalidData(Field::Name, _)
    ));
    // A length byte of 64 (top bits 01) is not a legal label length.
    let mut buf = vec![64u8];
    buf.extend(std::iter::repeat(b'a').take(64));
    buf.push(0);
    assert!(matches!(
        DomainName::deserialize(&buf, 0).unwrap_err(),
        DeserializationError::InvalidData(Field::Name, _)
    ));
}

#[test]
fn duplicate_copies_the_name() {
    let dn = DomainName::from_string("copy.me").unwrap();
    let dup = dn.duplicate();
    assert_eq!(dup.text(), dn.text());
}
