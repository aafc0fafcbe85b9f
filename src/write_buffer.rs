use vstd::prelude::*;

use crate::bits::{
    bit_u64, byte_at, byte_bits, byte_prefix, int_bytes, lemma_bit_is_01, lemma_byte_from_bits,
    lemma_set_bit, lemma_stream_bits_push, low_bits, stream_bits,
};
use crate::Endianess;

verus! {

/// Packs values of any bit width into bytes, least significant bit first.
///
/// `value` holds the `position` bits that are pending; the bits above them
/// are clear. A byte leaves for the sink as soon as its eighth bit is set.
pub struct BitWriter {
    pub position: u8,
    pub value: u8,
}

impl BitWriter {
    /// Fewer than eight bits pending, and none set above them.
    pub open spec fn wf(&self) -> bool {
        &&& self.position < 8
        &&& self.value >> self.position == 0
    }

    /// The bits written so far that have not yet left as a byte.
    pub open spec fn pending(&self) -> Seq<bool> {
        byte_prefix(self.value, self.position as nat)
    }

    pub fn new() -> (r: BitWriter)
        ensures
            r.wf(),
            r.position == 0,
            r.value == 0,
    {
        let r = BitWriter { position: 0, value: 0 };
        assert(0u8 >> 0u8 == 0) by (bit_vector);
        r
    }

    /// Writes the low `bits` bits of `value`, least significant first, and
    /// returns how many full bytes went to `writer` meanwhile.
    pub fn write(&mut self, value: u64, bits: u8, writer: &mut Vec<u8>) -> (r: usize)
        requires
            old(self).wf(),
            bits <= 64,
        ensures
            final(self).wf(),
            stream_bits(final(writer)@) + final(self).pending() == stream_bits(old(writer)@)
                + old(self).pending() + low_bits(value, bits as nat),
            final(writer)@.len() == old(writer)@.len() + r,
            r == (old(self).position + bits) / 8,
            final(self).position == (old(self).position + bits) % 8,
            old(writer)@ =~= final(writer)@.subrange(0, old(writer)@.len() as int),
            old(self).position == 0 && bits == 8 ==> final(writer)@ == old(writer)@.push(
                (value & 0xff) as u8,
            ),
    {
        let mut results: usize = 0;
        let mut bit_index: u8 = 0;
        assert(low_bits(value, 0) =~= Seq::<bool>::empty());
        assert(stream_bits(old(writer)@) + old(self).pending() + low_bits(value, 0) =~= stream_bits(
            old(writer)@,
        ) + old(self).pending());
        while bit_index < bits
            invariant
                self.wf(),
                bit_index <= bits <= 64,
                stream_bits(writer@) + self.pending() == stream_bits(old(writer)@)
                    + old(self).pending() + low_bits(value, bit_index as nat),
                writer@.len() == old(writer)@.len() + results,
                results * 8 + self.position == old(self).position + bit_index,
                old(writer)@ =~= writer@.subrange(0, old(writer)@.len() as int),
            decreases bits - bit_index,
        {
            let ghost w0 = writer@;
            let ghost s0 = *self;
            let bit: u64 = (value >> bit_index as u64) & 1;
            proof {
                lemma_bit_is_01(value, bit_index as u64);
            }
            let b: u8 = bit as u8;
            self.value = self.value | (b << self.position);
            self.position = self.position + 1;
            bit_index = bit_index + 1;
            proof {
                let nb = bit_u64(value, (bit_index - 1) as nat);
                assert forall|k: int| 0 <= k < self.position implies #[trigger] self.pending()[k]
                    == s0.pending().push(nb)[k] by {
                    if k < s0.position {
                        lemma_set_bit(s0.value, s0.position, b, k as u8);
                    } else {
                        lemma_set_bit(s0.value, s0.position, b, 0);
                    }
                }
                lemma_set_bit(s0.value, s0.position, b, 0);
                assert(self.pending() =~= s0.pending().push(nb));
                assert(low_bits(value, bit_index as nat) =~= low_bits(value, (bit_index - 1) as nat).push(
                    bit_u64(value, (bit_index - 1) as nat),
                ));
                assert(stream_bits(w0) + self.pending() =~= stream_bits(w0) + s0.pending() + seq![
                    bit_u64(value, (bit_index - 1) as nat),
                ]);
            }
            if self.position == 8 {
                let ghost full = self.value;
                results = results + self.flush(writer);
                proof {
                    lemma_stream_bits_push(w0, full);
                    assert(byte_prefix(full, 8) =~= byte_bits(full));
                    assert(self.pending() =~= Seq::<bool>::empty());
                    assert(0u8 >> 0u8 == 0) by (bit_vector);
                    assert(stream_bits(writer@) + self.pending() =~= stream_bits(w0) + byte_bits(full));
                }
            }
        }
        proof {
            if old(self).position == 0 && bits == 8 {
                let w1 = writer@;
                let last = w1.last();
                assert(w1 =~= old(writer)@.push(last));
                lemma_stream_bits_push(old(writer)@, last);
                assert(self.pending() =~= Seq::<bool>::empty());
                assert(old(self).pending() =~= Seq::<bool>::empty());
                assert(stream_bits(w1) + self.pending() =~= stream_bits(w1));
                assert(stream_bits(old(writer)@) + old(self).pending() + low_bits(value, 8) =~= stream_bits(
                    old(writer)@,
                ) + low_bits(value, 8));
                let a = stream_bits(old(writer)@);
                assert((a + byte_bits(last)).subrange(a.len() as int, a.len() as int + 8) =~= byte_bits(last));
                assert((a + low_bits(value, 8)).subrange(a.len() as int, a.len() as int + 8) =~= low_bits(
                    value,
                    8,
                ));
                lemma_byte_from_bits(last, value);
            }
        }
        results
    }

    /// When bits are pending, sends their byte to `writer` as it stands, its
    /// unset bits zero; with nothing pending, writes nothing. Starts an empty
    /// byte either way and returns how many bytes were written.
    pub fn flush(&mut self, writer: &mut Vec<u8>) -> (r: usize)
        ensures
            old(self).position == 0 ==> final(writer)@ == old(writer)@ && r == 0,
            old(self).position > 0 ==> final(writer)@ == old(writer)@.push(old(self).value)
                && r == 1,
            final(self).position == 0,
            final(self).value == 0,
    {
        if self.position == 0 {
            self.value = 0;
            return 0;
        }
        writer.push(self.value);
        self.position = 0;
        self.value = 0;
        1
    }
}

/// A byte sink with a fixed byte order for multi-byte values, and a bit
/// packer for values that are not byte-aligned.
///
/// `position` counts the bytes this buffer has written. Byte-level and
/// bit-level writes are not to be mixed unless the bit packer holds no
/// pending bits.
pub struct InternalWriteBuffer {
    pub position: u64,
    pub endianness: Endianess,
    pub bit_writer: BitWriter,
    pub writer: Vec<u8>,
}

impl InternalWriteBuffer {
    /// The bit packer is in a valid state.
    pub open spec fn wf(&self) -> bool {
        self.bit_writer.wf()
    }

    /// Whether `n` more bytes can be counted in `position`.
    pub open spec fn has_room(&self, n: int) -> bool {
        self.position + n <= u64::MAX
    }

    /// What a byte-level write of `bytes` leaves behind.
    pub open spec fn wrote(&self, old_buf: Self, bytes: Seq<u8>) -> bool {
        &&& self.writer@ == old_buf.writer@ + bytes
        &&& self.position == old_buf.position + bytes.len()
        &&& self.endianness == old_buf.endianness
        &&& self.bit_writer == old_buf.bit_writer
    }

    pub fn new(endianness: Endianess, writer: Vec<u8>) -> (r: InternalWriteBuffer)
        ensures
            r.wf(),
            r.position == 0,
            r.endianness == endianness,
            r.bit_writer.position == 0,
            r.bit_writer.value == 0,
            r.writer@ == writer@,
    {
        InternalWriteBuffer { position: 0, endianness, bit_writer: BitWriter::new(), writer }
    }

    /// Appends `bytes` to the sink and returns how many were written.
    pub fn write(&mut self, bytes: &[u8]) -> (r: usize)
        requires
            old(self).has_room(bytes@.len() as int),
        ensures
            final(self).wrote(*old(self), bytes@),
            r == bytes@.len(),
    {
        let mut i: usize = 0;
        while i < bytes.len()
            invariant
                0 <= i <= bytes@.len(),
                self.writer@ == old(self).writer@ + bytes@.subrange(0, i as int),
                self.position == old(self).position,
                self.endianness == old(self).endianness,
                self.bit_writer == old(self).bit_writer,
            decreases bytes@.len() - i,
        {
            self.writer.push(bytes[i]);
            i = i + 1;
            assert(self.writer@ =~= old(self).writer@ + bytes@.subrange(0, i as int));
        }
        assert(bytes@.subrange(0, i as int) =~= bytes@);
        self.position = self.position + i as u64;
        i
    }

    /// Packs the low `num_bits` bits of `value`, least significant first,
    /// and returns how many full bytes left for the sink.
    pub fn write_u_n(&mut self, num_bits: u8, value: u64) -> (r: usize)
        requires
            old(self).wf(),
            old(self).has_room(8),
            num_bits <= 64,
        ensures
            final(self).wf(),
            stream_bits(final(self).writer@) + final(self).bit_writer.pending() == stream_bits(
                old(self).writer@,
            ) + old(self).bit_writer.pending() + low_bits(value, num_bits as nat),
            r == (old(self).bit_writer.position + num_bits) / 8,
            final(self).writer@.len() == old(self).writer@.len() + r,
            final(self).bit_writer.position == (old(self).bit_writer.position + num_bits) % 8,
            final(self).position == old(self).position + r,
            final(self).endianness == old(self).endianness,
            old(self).writer@ == final(self).writer@.subrange(0, old(self).writer@.len() as int),
    {
        let r = self.bit_writer.write(value, num_bits, &mut self.writer);
        self.position = self.position + r as u64;
        r
    }

    /// Brings the stream to a byte boundary: when bits are pending, sends
    /// their byte as it stands, its unset bits zero. Returns how many bytes
    /// were written.
    pub fn flush_partial(&mut self) -> (r: usize)
        requires
            old(self).wf(),
            old(self).has_room(1),
        ensures
            final(self).wf(),
            final(self).bit_writer.position == 0,
            final(self).bit_writer.value == 0,
            final(self).endianness == old(self).endianness,
            old(self).bit_writer.position == 0 ==> r == 0 && final(self).writer@ == old(
                self,
            ).writer@ && final(self).position == old(self).position,
            old(self).bit_writer.position > 0 ==> r == 1 && final(self).writer@ == old(
                self,
            ).writer@.push(old(self).bit_writer.value) && final(self).position == old(
                self,
            ).position + 1,
    {
        let r = self.bit_writer.flush(&mut self.writer);
        self.position = self.position + r as u64;
        assert(0u8 >> 0u8 == 0) by (bit_vector);
        r
    }

    /// Writes the `width` low bytes of `x` in the buffer's byte order.
    fn write_int(&mut self, x: u128, width: usize) -> (r: usize)
        requires
            1 <= width <= 16,
            old(self).has_room(width as int),
        ensures
            final(self).wrote(*old(self), int_bytes(x, width as nat, old(self).endianness)),
            r == width,
    {
        let ghost e = self.endianness;
        let mut k: usize = 0;
        while k < width
            invariant
                0 <= k <= width <= 16,
                self.endianness == e,
                self.position == old(self).position,
                self.bit_writer == old(self).bit_writer,
                self.writer@ == old(self).writer@ + int_bytes(x, width as nat, e).subrange(
                    0,
                    k as int,
                ),
            decreases width - k,
        {
            let idx: usize = match self.endianness {
                Endianess::LittleEndian => k,
                Endianess::BigEndian => width - 1 - k,
            };
            let b: u8 = ((x >> (8 * idx) as u128) & 0xff) as u8;
            assert(b == byte_at(x, idx as nat));
            self.writer.push(b);
            k = k + 1;
            assert(self.writer@ =~= old(self).writer@ + int_bytes(x, width as nat, e).subrange(
                0,
                k as int,
            ));
        }
        assert(int_bytes(x, width as nat, e).subrange(0, width as int) =~= int_bytes(
            x,
            width as nat,
            e,
        ));
        self.position = self.position + width as u64;
        width
    }

    pub fn write_u8(&mut self, x: u8) -> (r: usize)
        requires
            old(self).has_room(1),
        ensures
            final(self).wrote(*old(self), seq![x]),
            r == 1,
    {
        let r = self.write_int(x as u128, 1);
        proof {
            let y = x as u128;
            assert(((y >> 0u128) & 0xff) as u8 == x) by (bit_vector)
                requires
                    y == x as u128,
            ;
            assert(int_bytes(y, 1, old(self).endianness) =~= seq![x]);
        }
        r
    }

    pub fn write_u16(&mut self, x: u16) -> (r: usize)
        requires
            old(self).has_room(2),
        ensures
            final(self).wrote(*old(self), int_bytes(x as u128, 2, old(self).endianness)),
            r == 2,
    {
        self.write_int(x as u128, 2)
    }

    pub fn write_u32(&mut self, x: u32) -> (r: usize)
        requires
            old(self).has_room(4),
        ensures
            final(self).wrote(*old(self), int_bytes(x as u128, 4, old(self).endianness)),
            r == 4,
    {
        self.write_int(x as u128, 4)
    }

    pub fn write_u64(&mut self, x: u64) -> (r: usize)
        requires
            old(self).has_room(8),
        ensures
            final(self).wrote(*old(self), int_bytes(x as u128, 8, old(self).endianness)),
            r == 8,
    {
        self.write_int(x as u128, 8)
    }

    /// Writes the two's complement byte of `x`.
    pub fn write_i8(&mut self, x: i8) -> (r: usize)
        requires
            old(self).has_room(1),
        ensures
            final(self).wrote(*old(self), int_bytes(x as u8 as u128, 1, old(self).endianness)),
            r == 1,
    {
        self.write_int(x as u8 as u128, 1)
    }

    /// Writes the two's complement bytes of `x`.
    pub fn write_i16(&mut self, x: i16) -> (r: usize)
        requires
            old(self).has_room(2),
        ensures
            final(self).wrote(*old(self), int_bytes(x as u16 as u128, 2, old(self).endianness)),
            r == 2,
    {
        self.write_int(x as u16 as u128, 2)
    }

    /// Writes the two's complement bytes of `x`.
    pub fn write_i32(&mut self, x: i32) -> (r: usize)
        requires
            old(self).has_room(4),
        ensures
            final(self).wrote(*old(self), int_bytes(x as u32 as u128, 4, old(self).endianness)),
            r == 4,
    {
        self.write_int(x as u32 as u128, 4)
    }

    /// Writes the two's complement bytes of `x`.
    pub fn write_i64(&mut self, x: i64) -> (r: usize)
        requires
            old(self).has_room(8),
        ensures
            final(self).wrote(*old(self), int_bytes(x as u128, 8, old(self).endianness)),
            r == 8,
    {
        self.write_int(x as u128, 8)
    }

    pub fn write_u128(&mut self, x: u128) -> (r: usize)
        requires
            old(self).has_room(16),
        ensures
            final(self).wrote(*old(self), int_bytes(x, 16, old(self).endianness)),
            r == 16,
    {
        self.write_int(x, 16)
    }

    /// Writes the two's complement bytes of `x`.
    pub fn write_i128(&mut self, x: i128) -> (r: usize)
        requires
            old(self).has_room(16),
        ensures
            final(self).wrote(*old(self), int_bytes(x as u128, 16, old(self).endianness)),
            r == 16,
    {
        self.write_int(x as u128, 16)
    }

    /// Writes each byte of `bytes` in turn, as they stand.
    pub fn write_bytes(&mut self, bytes: &[u8]) -> (r: usize)
        requires
            old(self).has_room(bytes@.len() as int),
        ensures
            final(self).wrote(*old(self), bytes@),
            r == bytes@.len(),
    {
        self.write(bytes)
    }
}

} // verus!
