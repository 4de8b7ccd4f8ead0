//! A DNS wire-format codec: builds outbound query datagrams and decodes
//! inbound response datagrams (RFC 1035 message format), with label
//! compression, bit-packed header fields, and strict offset bookkeeping.

pub mod domain_name;
pub mod header;
pub mod message;
pub mod question;
pub mod resource_record;
pub mod wire;
