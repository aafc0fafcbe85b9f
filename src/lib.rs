use vstd::prelude::*;

verus! {

/// Byte order used for every multi-byte value of a buffer.
#[derive(Clone, Copy, Debug, PartialEq, Eq, Structural)]
pub enum Endianess {
    LittleEndian,
    BigEndian,
}

/// Why an encode or a decode failed.
#[derive(Clone, Copy, Debug, PartialEq, Eq, Structural)]
pub enum CodecError {
    /// A read asked for more bytes than the source holds.
    EndOfStream,
    /// A decoded tag byte names no known variant.
    InvalidDiscriminant(u8),
    /// A payload measured in 16-bit words has an odd number of bytes.
    OddPayloadLength,
    /// A payload has more 16-bit words than its length field can count.
    PayloadTooLong,
}

} // verus!

pub mod bits;
pub mod message;
pub mod modbus;
pub mod read_buffer;
pub mod write_buffer;
