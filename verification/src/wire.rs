//! Wire primitive reader: bounds-checked big-endian reads from a byte buffer
//! at an offset. Every read checks the bound first; nothing indexes
//! speculatively.

use vstd::prelude::*;

verus! {

/// The field of a message whose numeric value was found outside the set this
/// codec recognizes.
#[derive(Clone, Copy, Debug, PartialEq, Eq, Structural)]
pub enum Field {
    MessageType,
    Opcode,
    ResponseCode,
    Type,
    Class,
    Name,
    Pointer,
}

/// Decoding failure: either a read would run past the end of the buffer, a
/// numeric enumeration field holds an unknown value, or a record carries a
/// recognized type whose body this codec does not decode.
#[derive(Clone, Copy, Debug, PartialEq, Eq, Structural)]
pub enum DeserializationError {
    BufferOverflow,
    InvalidData(Field, u16),
    UnsupportedRecordType,
}

/// The 16-bit value that two bytes hold in big-endian order.
pub open spec fn be16(b0: u8, b1: u8) -> u16 {
    (b0 as u16 * 256 + b1 as u16) as u16
}

/// The 32-bit value that four bytes hold in big-endian order.
pub open spec fn be32(b0: u8, b1: u8, b2: u8, b3: u8) -> u32 {
    (b0 as u32 * 0x1000000 + b1 as u32 * 0x10000 + b2 as u32 * 0x100 + b3 as u32) as u32
}

/// The signed 32-bit value that four bytes hold in big-endian two's-complement
/// order.
pub open spec fn be_i32(b0: u8, b1: u8, b2: u8, b3: u8) -> i32 {
    be32(b0, b1, b2, b3) as i32
}

/// An IPv4 address as its four dotted-quad octets.
#[derive(Clone, Copy, Debug, PartialEq, Eq, Structural)]
pub struct Ipv4Address {
    pub o0: u8,
    pub o1: u8,
    pub o2: u8,
    pub o3: u8,
}

/// Reads a big-endian 16-bit integer at `offset`, returning the number of
/// bytes consumed and the value, or `BufferOverflow` when fewer than two
/// bytes remain.
pub fn read_u16(bytes: &[u8], offset: usize) -> (r: Result<(usize, u16), DeserializationError>)
    ensures
        offset + 2 <= bytes@.len() ==> r == Ok::<_, DeserializationError>(
            (2usize, be16(bytes@[offset as int], bytes@[offset + 1])),
        ),
        offset + 2 > bytes@.len() ==> r == Err::<(usize, u16), _>(
            DeserializationError::BufferOverflow,
        ),
{
    if offset >= bytes.len() || bytes.len() - offset < 2 {
        return Err(DeserializationError::BufferOverflow);
    }
    let value = bytes[offset] as u16 * 256 + bytes[offset + 1] as u16;
    Ok((2, value))
}

/// Reads a big-endian, sign-preserving 32-bit integer at `offset`, returning
/// the number of bytes consumed and the value, or `BufferOverflow` when fewer
/// than four bytes remain.
pub fn read_i32(bytes: &[u8], offset: usize) -> (r: Result<(usize, i32), DeserializationError>)
    ensures
        offset + 4 <= bytes@.len() ==> r == Ok::<_, DeserializationError>(
            (
                4usize,
                be_i32(
                    bytes@[offset as int],
                    bytes@[offset + 1],
                    bytes@[offset + 2],
                    bytes@[offset + 3],
                ),
            ),
        ),
        offset + 4 > bytes@.len() ==> r == Err::<(usize, i32), _>(
            DeserializationError::BufferOverflow,
        ),
{
    if offset >= bytes.len() || bytes.len() - offset < 4 {
        return Err(DeserializationError::BufferOverflow);
    }
    let unsigned = bytes[offset] as u32 * 0x1000000 + bytes[offset + 1] as u32 * 0x10000
        + bytes[offset + 2] as u32 * 0x100 + bytes[offset + 3] as u32;
    #[verifier::truncate]
    let value = unsigned as i32;
    Ok((4, value))
}

/// Reads four octets at `offset` as an IPv4 address, returning the number of
/// bytes consumed and the address, or `BufferOverflow` when fewer than four
/// bytes remain.
pub fn read_ipv4(bytes: &[u8], offset: usize) -> (r: Result<
    (usize, Ipv4Address),
    DeserializationError,
>)
    ensures
        offset + 4 <= bytes@.len() ==> r == Ok::<_, DeserializationError>(
            (
                4usize,
                Ipv4Address {
                    o0: bytes@[offset as int],
                    o1: bytes@[offset + 1],
                    o2: bytes@[offset + 2],
                    o3: bytes@[offset + 3],
                },
            ),
        ),
        offset + 4 > bytes@.len() ==> r == Err::<(usize, Ipv4Address), _>(
            DeserializationError::BufferOverflow,
        ),
{
    if offset >= bytes.len() || bytes.len() - offset < 4 {
        return Err(DeserializationError::BufferOverflow);
    }
    Ok(
        (
            4,
            Ipv4Address {
                o0: bytes[offset],
                o1: bytes[offset + 1],
                o2: bytes[offset + 2],
                o3: bytes[offset + 3],
            },
        ),
    )
}

} // verus!
