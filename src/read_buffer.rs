use vstd::prelude::*;

use crate::bits::{
    byte_at, byte_bits, int_bytes, lemma_set_byte, lemma_set_bit_u64, lemma_stream_bits_first, lemma_stream_bits_len, low_bits,
    stream_bits, u16_value,
};
use crate::{CodecError, Endianess};

verus! {

/// A forward-only source of bytes with a fixed byte order.
pub trait ReadBuffer {
    /// The bytes that have not been read yet.
    spec fn remaining(&self) -> Seq<u8>;

    /// The byte order of multi-byte values.
    spec fn byte_order(&self) -> Endianess;

    /// Reads one byte; fails with `EndOfStream`, reading nothing, when none is left.
    fn read_u8(&mut self) -> (r: Result<u8, CodecError>)
        ensures
            final(self).byte_order() == old(self).byte_order(),
            old(self).remaining().len() >= 1 ==> r == Ok::<u8, CodecError>(
                old(self).remaining()[0],
            ) && final(self).remaining() == old(self).remaining().subrange(
                1,
                old(self).remaining().len() as int,
            ),
            old(self).remaining().len() < 1 ==> r == Err::<u8, CodecError>(CodecError::EndOfStream)
                && final(self).remaining() == old(self).remaining(),
    ;

    /// Reads a 16-bit value in the buffer's byte order; fails with
    /// `EndOfStream`, reading nothing, when fewer than two bytes are left.
    fn read_u16(&mut self) -> (r: Result<u16, CodecError>)
        ensures
            final(self).byte_order() == old(self).byte_order(),
            old(self).remaining().len() >= 2 ==> r == Ok::<u16, CodecError>(
                u16_value(old(self).remaining().subrange(0, 2), old(self).byte_order()) as u16,
            ) && final(self).remaining() == old(self).remaining().subrange(
                2,
                old(self).remaining().len() as int,
            ),
            old(self).remaining().len() < 2 ==> r == Err::<u16, CodecError>(CodecError::EndOfStream)
                && final(self).remaining() == old(self).remaining(),
    ;

    /// Reads a 32-bit value in the buffer's byte order; fails with
    /// `EndOfStream`, reading nothing, when fewer than four bytes are left.
    fn read_u32(&mut self) -> (r: Result<u32, CodecError>)
        ensures
            final(self).byte_order() == old(self).byte_order(),
            old(self).remaining().len() >= 4 ==> (r matches Ok(v) && int_bytes(
                v as u128,
                4,
                old(self).byte_order(),
            ) == old(self).remaining().subrange(0, 4)) && final(self).remaining() == old(
                self,
            ).remaining().subrange(4, old(self).remaining().len() as int),
            old(self).remaining().len() < 4 ==> r == Err::<u32, CodecError>(CodecError::EndOfStream)
                && final(self).remaining() == old(self).remaining(),
    ;

    /// Reads a 64-bit value in the buffer's byte order; fails with
    /// `EndOfStream`, reading nothing, when fewer than eight bytes are left.
    fn read_u64(&mut self) -> (r: Result<u64, CodecError>)
        ensures
            final(self).byte_order() == old(self).byte_order(),
            old(self).remaining().len() >= 8 ==> (r matches Ok(v) && int_bytes(
                v as u128,
                8,
                old(self).byte_order(),
            ) == old(self).remaining().subrange(0, 8)) && final(self).remaining() == old(
                self,
            ).remaining().subrange(8, old(self).remaining().len() as int),
            old(self).remaining().len() < 8 ==> r == Err::<u64, CodecError>(CodecError::EndOfStream)
                && final(self).remaining() == old(self).remaining(),
    ;

    /// Reads a 128-bit value in the buffer's byte order; fails with
    /// `EndOfStream`, reading nothing, when fewer than sixteen bytes are left.
    fn read_u128(&mut self) -> (r: Result<u128, CodecError>)
        ensures
            final(self).byte_order() == old(self).byte_order(),
            old(self).remaining().len() >= 16 ==> (r matches Ok(v) && int_bytes(
                v,
                16,
                old(self).byte_order(),
            ) == old(self).remaining().subrange(0, 16)) && final(self).remaining() == old(
                self,
            ).remaining().subrange(16, old(self).remaining().len() as int),
            old(self).remaining().len() < 16 ==> r == Err::<u128, CodecError>(
                CodecError::EndOfStream,
            ) && final(self).remaining() == old(self).remaining(),
    ;

    /// Reads `length` bytes as they stand; fails with `EndOfStream`, reading
    /// nothing, when fewer are left.
    fn read_bytes(&mut self, length: usize) -> (r: Result<Vec<u8>, CodecError>)
        ensures
            final(self).byte_order() == old(self).byte_order(),
            old(self).remaining().len() >= length ==> (r matches Ok(v) && v@ == old(
                self,
            ).remaining().subrange(0, length as int)) && final(self).remaining() == old(
                self,
            ).remaining().subrange(length as int, old(self).remaining().len() as int),
            old(self).remaining().len() < length ==> r == Err::<Vec<u8>, CodecError>(
                CodecError::EndOfStream,
            ) && final(self).remaining() == old(self).remaining(),
    ;
}

/// A `ReadBuffer` over bytes held in memory; `position` is the offset of the
/// next byte to read.
pub struct InternalReadBuffer {
    pub position: usize,
    pub endianness: Endianess,
    pub data: Vec<u8>,
}

impl InternalReadBuffer {
    pub fn new(endianness: Endianess, data: Vec<u8>) -> (r: InternalReadBuffer)
        ensures
            r.remaining() == data@,
            r.byte_order() == endianness,
    {
        let r = InternalReadBuffer { position: 0, endianness, data };
        assert(r.remaining() =~= r.data@);
        r
    }
}

impl InternalReadBuffer {
    /// Reads `width` bytes as one value in the buffer's byte order.
    fn read_int(&mut self, width: usize) -> (r: Result<u128, CodecError>)
        requires
            1 <= width <= 16,
        ensures
            final(self).byte_order() == old(self).byte_order(),
            old(self).remaining().len() >= width ==> (r matches Ok(v) && int_bytes(
                v,
                width as nat,
                old(self).byte_order(),
            ) == old(self).remaining().subrange(0, width as int) && (width < 16 ==> v >> ((8
                * width) as u128) == 0)) && final(self).remaining() == old(self).remaining().subrange(
                width as int,
                old(self).remaining().len() as int,
            ),
            old(self).remaining().len() < width ==> r == Err::<u128, CodecError>(
                CodecError::EndOfStream,
            ) && final(self).remaining() == old(self).remaining(),
    {
        if !(self.position <= self.data.len() && self.data.len() - self.position >= width) {
            return Err(CodecError::EndOfStream);
        }
        let ghost s = old(self).remaining();
        let ghost e = self.endianness;
        let pos = self.position;
        let n = self.data.len();
        let mut v: u128 = 0;
        let mut k: usize = 0;
        assert(v >> 0u128 == 0) by (bit_vector)
            requires
                v == 0,
        ;
        while k < width
            invariant
                *self == *old(self),
                s == self.remaining(),
                e == self.endianness,
                pos == self.position,
                n == self.data@.len(),
                pos + width <= n,
                0 <= k <= width <= 16,
                k < 16 ==> v >> ((8 * k) as u128) == 0,
                forall|j: int|
                    0 <= j < k ==> #[trigger] byte_at(v, j as nat) == match e {
                        Endianess::LittleEndian => s[j],
                        Endianess::BigEndian => s[width - 1 - j],
                    },
            decreases width - k,
        {
            let idx: usize = match self.endianness {
                Endianess::LittleEndian => k,
                Endianess::BigEndian => width - 1 - k,
            };
            let b: u8 = self.data[pos + idx];
            let ghost v0 = v;
            v = v | ((b as u128) << (8 * k) as u128);
            proof {
                assert(s[idx as int] == b);
                assert forall|j: int| 0 <= j <= k implies #[trigger] byte_at(v, j as nat) == match e {
                    Endianess::LittleEndian => s[j],
                    Endianess::BigEndian => s[width - 1 - j],
                } by {
                    lemma_set_byte(v0, b as u128, (8 * k) as u128, (8 * j) as u128);
                    if j == k {
                        assert(byte_at(v, j as nat) == b);
                    } else {
                        assert(byte_at(v, j as nat) == byte_at(v0, j as nat));
                    }
                }
                lemma_set_byte(v0, b as u128, (8 * k) as u128, 0);
            }
            k = k + 1;
        }
        self.position = pos + width;
        assert(int_bytes(v, width as nat, e) =~= s.subrange(0, width as int));
        assert(self.remaining() =~= s.subrange(width as int, s.len() as int));
        Ok(v)
    }
}

impl ReadBuffer for InternalReadBuffer {
    open spec fn remaining(&self) -> Seq<u8> {
        if self.position <= self.data@.len() {
            self.data@.subrange(self.position as int, self.data@.len() as int)
        } else {
            Seq::empty()
        }
    }

    open spec fn byte_order(&self) -> Endianess {
        self.endianness
    }

    fn read_u8(&mut self) -> (r: Result<u8, CodecError>) {
        if self.position < self.data.len() {
            let b = self.data[self.position];
            self.position = self.position + 1;
            assert(self.remaining() =~= old(self).remaining().subrange(
                1,
                old(self).remaining().len() as int,
            ));
            Ok(b)
        } else {
            Err(CodecError::EndOfStream)
        }
    }

    fn read_u16(&mut self) -> (r: Result<u16, CodecError>) {
        if self.position < self.data.len() && self.data.len() - self.position >= 2 {
            let b0 = self.data[self.position];
            let b1 = self.data[self.position + 1];
            self.position = self.position + 2;
            assert(self.remaining() =~= old(self).remaining().subrange(
                2,
                old(self).remaining().len() as int,
            ));
            let v: u16 = match self.endianness {
                Endianess::LittleEndian => (b1 as u16) * 256 + b0 as u16,
                Endianess::BigEndian => (b0 as u16) * 256 + b1 as u16,
            };
            Ok(v)
        } else {
            Err(CodecError::EndOfStream)
        }
    }

    fn read_u32(&mut self) -> (r: Result<u32, CodecError>) {
        match self.read_int(4) {
            Ok(v) => {
                proof {
                    assert(v < 0x1_0000_0000) by (bit_vector)
                        requires
                            v >> 32u128 == 0,
                    ;
                }
                Ok(v as u32)
            },
            Err(e) => Err(e),
        }
    }

    fn read_u64(&mut self) -> (r: Result<u64, CodecError>) {
        match self.read_int(8) {
            Ok(v) => {
                proof {
                    assert(v < 0x1_0000_0000_0000_0000) by (bit_vector)
                        requires
                            v >> 64u128 == 0,
                    ;
                }
                Ok(v as u64)
            },
            Err(e) => Err(e),
        }
    }

    fn read_u128(&mut self) -> (r: Result<u128, CodecError>) {
        self.read_int(16)
    }

    fn read_bytes(&mut self, length: usize) -> (r: Result<Vec<u8>, CodecError>) {
        let avail: usize = if self.position <= self.data.len() {
            self.data.len() - self.position
        } else {
            0
        };
        if avail < length {
            return Err(CodecError::EndOfStream);
        }
        let mut out: Vec<u8> = Vec::new();
        if length == 0 {
            assert(out@ =~= old(self).remaining().subrange(0, 0));
            assert(self.remaining() =~= old(self).remaining().subrange(
                0,
                old(self).remaining().len() as int,
            ));
            return Ok(out);
        }
        let pos = self.position;
        let n = self.data.len();
        let mut i: usize = 0;
        while i < length
            invariant
                self.position == pos,
                self.data@ == old(self).data@,
                self.endianness == old(self).endianness,
                n == self.data@.len(),
                pos + length <= n,
                0 <= i <= length,
                out@ == self.data@.subrange(pos as int, pos + i),
            decreases length - i,
        {
            out.push(self.data[pos + i]);
            i = i + 1;
            assert(out@ =~= self.data@.subrange(pos as int, pos + i));
        }
        self.position = pos + length;
        assert(out@ =~= old(self).remaining().subrange(0, length as int));
        assert(self.remaining() =~= old(self).remaining().subrange(
            length as int,
            old(self).remaining().len() as int,
        ));
        Ok(out)
    }
}

/// Unpacks values of any bit width from a byte source, least significant bit
/// first: the mirror of `BitWriter`.
///
/// `value` is the byte being read and `position` how many of its bits are
/// used up; at 8 the next read fetches a fresh byte from the source.
pub struct BitReader {
    pub position: u8,
    pub value: u8,
}

/// The bits that a bit reader and its source still hold, in reading order.
pub open spec fn bits_left<R: ReadBuffer>(b: BitReader, source: R) -> Seq<bool> {
    b.unread() + stream_bits(source.remaining())
}

impl BitReader {
    /// At most eight bits of the current byte are used up.
    pub open spec fn wf(&self) -> bool {
        self.position <= 8
    }

    /// The bits of the current byte not yet read.
    pub open spec fn unread(&self) -> Seq<bool> {
        byte_bits(self.value).subrange(self.position as int, 8)
    }

    /// A reader that holds no byte yet.
    pub fn new() -> (r: BitReader)
        ensures
            r.wf(),
            r.unread() == Seq::<bool>::empty(),
    {
        let r = BitReader { position: 8, value: 0 };
        assert(r.unread() =~= Seq::<bool>::empty());
        r
    }

    /// Reads `bits` bits, least significant first, fetching bytes from
    /// `source` as they run out. Fails with `EndOfStream` when fewer bits are
    /// left; what was consumed then is lost.
    pub fn read<R: ReadBuffer>(&mut self, bits: u8, source: &mut R) -> (r: Result<u64, CodecError>)
        requires
            old(self).wf(),
            bits <= 64,
        ensures
            final(self).wf(),
            final(source).byte_order() == old(source).byte_order(),
            bits <= bits_left(*old(self), *old(source)).len() ==> (r matches Ok(v) && low_bits(
                v,
                bits as nat,
            ) == bits_left(*old(self), *old(source)).subrange(0, bits as int) && (bits < 64
                ==> v >> bits == 0)) && bits_left(*final(self), *final(source)) == bits_left(
                *old(self),
                *old(source),
            ).subrange(bits as int, bits_left(*old(self), *old(source)).len() as int),
            bits > bits_left(*old(self), *old(source)).len() ==> r == Err::<u64, CodecError>(
                CodecError::EndOfStream,
            ),
    {
        let ghost all = bits_left(*self, *source);
        let mut result: u64 = 0;
        let mut i: u8 = 0;
        assert(result >> 0u64 == 0) by (bit_vector)
            requires
                result == 0,
        ;
        assert(low_bits(result, 0) =~= all.subrange(0, 0));
        assert(all.subrange(0, all.len() as int) =~= all);
        while i < bits
            invariant
                self.wf(),
                i <= bits <= 64,
                source.byte_order() == old(source).byte_order(),
                all == bits_left(*old(self), *old(source)),
                i <= all.len(),
                bits_left(*self, *source) == all.subrange(i as int, all.len() as int),
                low_bits(result, i as nat) == all.subrange(0, i as int),
                i < 64 ==> result >> i == 0,
            decreases bits - i,
        {
            if self.position == 8 {
                let ghost rem = source.remaining();
                assert(self.unread() =~= Seq::<bool>::empty());
                assert(bits_left(*self, *source) =~= stream_bits(rem));
                match source.read_u8() {
                    Ok(b) => {
                        proof {
                            lemma_stream_bits_first(rem);
                        }
                        self.value = b;
                        self.position = 0;
                        assert(self.unread() =~= byte_bits(b));
                        assert(bits_left(*self, *source) =~= stream_bits(rem));
                    },
                    Err(e) => {
                        assert(stream_bits(rem) =~= Seq::<bool>::empty());
                        return Err(e);
                    },
                }
            }
            let ghost left = bits_left(*self, *source);
            let ghost u = self.unread();
            let ghost r0 = result;
            let bit: u8 = (self.value >> self.position) & 1;
            let bit64: u64 = bit as u64;
            proof {
                assert(u.len() > 0);
                assert(u[0] == ((self.value >> self.position) & 1 == 1));
                let cv = self.value;
                let cp = self.position;
                assert(bit <= 1) by (bit_vector)
                    requires
                        bit == (cv >> cp) & 1,
                ;
                lemma_stream_bits_len(source.remaining());
            }
            result = result | (bit64 << i as u64);
            self.position = self.position + 1;
            i = i + 1;
            proof {
                assert(left[0] == u[0]);
                assert(left[0] == all[i - 1]);
                assert(bit64 == 1 <==> u[0]);
                assert(self.unread() =~= u.subrange(1, u.len() as int));
                assert(bits_left(*self, *source) =~= left.subrange(1, left.len() as int));
                assert(left.subrange(1, left.len() as int) =~= all.subrange(
                    i as int,
                    all.len() as int,
                ));
                assert forall|k: int| 0 <= k < i implies #[trigger] low_bits(result, i as nat)[k]
                    == all.subrange(0, i as int)[k] by {
                    lemma_set_bit_u64(r0, (i - 1) as u64, bit64, k as u64);
                    if k < i - 1 {
                        assert(low_bits(r0, (i - 1) as nat)[k] == all.subrange(0, i - 1)[k]);
                    } else {
                        assert(all.subrange(0, i as int)[k] == all[i - 1]);
                    }
                }
                assert(low_bits(result, i as nat) =~= all.subrange(0, i as int));
                lemma_set_bit_u64(r0, (i - 1) as u64, bit64, 0);
            }
        }
        Ok(result)
    }
}

} // verus!
