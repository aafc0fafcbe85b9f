use vstd::prelude::*;

use crate::read_buffer::ReadBuffer;
use crate::write_buffer::InternalWriteBuffer;
use crate::{CodecError, Endianess};

verus! {

/// A protocol record that is written to and read from a buffer in one
/// linear pass, fields in a fixed order.
pub trait Message: Sized {
    /// The bytes that stand for `self` on the wire in byte order `e`.
    spec fn wire(&self, e: Endianess) -> Seq<u8>;

    /// Whether `self` can be written at all.
    spec fn encodable(&self) -> bool;

    /// Writes `self`: all of its wire form when it is encodable, nothing
    /// otherwise.
    fn serialize(&self, writer: &mut InternalWriteBuffer) -> (r: Result<usize, CodecError>)
        requires
            old(writer).has_room(self.wire(old(writer).endianness).len() as int),
        ensures
            self.encodable() ==> r == Ok::<usize, CodecError>(
                self.wire(old(writer).endianness).len() as usize,
            ) && final(writer).wrote(*old(writer), self.wire(old(writer).endianness)),
            !self.encodable() ==> r is Err && *final(writer) == *old(writer),
    ;

    /// Reads a new value. What it reads is exactly the wire form of the
    /// value it returns; it succeeds whenever the source starts with the wire
    /// form of an encodable value.
    fn deserialize<R: ReadBuffer>(reader: &mut R) -> (r: Result<Self, CodecError>)
        ensures
            final(reader).byte_order() == old(reader).byte_order(),
            r matches Ok(m) ==> m.encodable() && old(reader).remaining() == m.wire(
                old(reader).byte_order(),
            ) + final(reader).remaining(),
            forall|m: Self|
                #![trigger m.wire(old(reader).byte_order())]
                m.encodable() && starts_with(old(reader).remaining(), m.wire(old(reader).byte_order()))
                    ==> r is Ok,
    ;
}

/// Whether `s` begins with `p`.
pub open spec fn starts_with(s: Seq<u8>, p: Seq<u8>) -> bool {
    p.len() <= s.len() && s.subrange(0, p.len() as int) == p
}

} // verus!
