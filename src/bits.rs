use vstd::prelude::*;

use crate::Endianess;

verus! {

/// Bit `i` of `x`, counting from the least significant bit.
pub open spec fn bit_u64(x: u64, i: nat) -> bool {
    (x >> (i as u64)) & 1 == 1
}

/// The low `n` bits of `x`, least significant first.
pub open spec fn low_bits(x: u64, n: nat) -> Seq<bool> {
    Seq::new(n, |i: int| bit_u64(x, i as nat))
}

/// The low `n` bits of the byte `b`, least significant first.
pub open spec fn byte_prefix(b: u8, n: nat) -> Seq<bool> {
    Seq::new(n, |i: int| (b >> (i as u8)) & 1 == 1)
}

/// All eight bits of `b`, least significant first.
pub open spec fn byte_bits(b: u8) -> Seq<bool> {
    byte_prefix(b, 8)
}

/// The bits of a byte stream: each byte's bits in turn, least significant first.
pub open spec fn stream_bits(s: Seq<u8>) -> Seq<bool>
    decreases s.len(),
{
    if s.len() == 0 {
        Seq::empty()
    } else {
        stream_bits(s.drop_last()) + byte_bits(s.last())
    }
}

pub proof fn lemma_stream_bits_push(s: Seq<u8>, b: u8)
    ensures
        stream_bits(s.push(b)) == stream_bits(s) + byte_bits(b),
{
    assert(s.push(b).drop_last() =~= s);
}

/// Setting bit `p` of a byte whose bits from `p` up are clear keeps the lower
/// bits, makes bit `p` equal to `b`, and leaves the bits above `p` clear.
pub proof fn lemma_set_bit(v: u8, p: u8, b: u8, k: u8)
    by (bit_vector)
    requires
        p < 8,
        v >> p == 0,
        b <= 1,
    ensures
        k < p ==> ((v | (b << p)) >> k) & 1 == (v >> k) & 1,
        ((v | (b << p)) >> p) & 1 == b,
        (v | (b << p)) >> ((p + 1) as u8) == 0,
{
}

pub proof fn lemma_bit_is_01(x: u64, i: u64)
    by (bit_vector)
    ensures
        (x >> i) & 1 <= 1,
{
}

} // verus!

verus! {

/// Byte `k` of `x`, counting from the least significant byte.
pub open spec fn byte_at(x: u128, k: nat) -> u8 {
    ((x >> ((8 * k) as u128)) & 0xff) as u8
}

/// The `width` low bytes of `x` in the given byte order.
pub open spec fn int_bytes(x: u128, width: nat, e: Endianess) -> Seq<u8> {
    match e {
        Endianess::LittleEndian => Seq::new(width, |k: int| byte_at(x, k as nat)),
        Endianess::BigEndian => Seq::new(width, |k: int| byte_at(x, (width - 1 - k) as nat)),
    }
}

/// The number that two bytes encode in the given byte order.
pub open spec fn u16_value(s: Seq<u8>, e: Endianess) -> int {
    match e {
        Endianess::LittleEndian => s[1] * 256 + s[0],
        Endianess::BigEndian => s[0] * 256 + s[1],
    }
}

pub proof fn lemma_u16_bytes(x: u16, e: Endianess)
    ensures
        int_bytes(x as u128, 2, e).len() == 2,
        u16_value(int_bytes(x as u128, 2, e), e) == x,
{
    let y = x as u128;
    assert(((y >> 0u128) & 0xff) == y % 256 && ((y >> 8u128) & 0xff) == y / 256) by (bit_vector)
        requires
            y < 65536,
    ;
    assert(byte_at(y, 0) == x % 256);
    assert(byte_at(y, 1) == x / 256);
}

/// A byte is fixed by its eight bits.
pub proof fn lemma_byte_from_bits(b: u8, x: u64)
    requires
        byte_bits(b) == low_bits(x, 8),
    ensures
        b == (x & 0xff) as u8,
{
    let bb = byte_bits(b);
    let lx = low_bits(x, 8);
    assert(bb[0] == ((b >> 0u8) & 1 == 1) && lx[0] == ((x >> 0u64) & 1 == 1));
    assert(bb[1] == ((b >> 1u8) & 1 == 1) && lx[1] == ((x >> 1u64) & 1 == 1));
    assert(bb[2] == ((b >> 2u8) & 1 == 1) && lx[2] == ((x >> 2u64) & 1 == 1));
    assert(bb[3] == ((b >> 3u8) & 1 == 1) && lx[3] == ((x >> 3u64) & 1 == 1));
    assert(bb[4] == ((b >> 4u8) & 1 == 1) && lx[4] == ((x >> 4u64) & 1 == 1));
    assert(bb[5] == ((b >> 5u8) & 1 == 1) && lx[5] == ((x >> 5u64) & 1 == 1));
    assert(bb[6] == ((b >> 6u8) & 1 == 1) && lx[6] == ((x >> 6u64) & 1 == 1));
    assert(bb[7] == ((b >> 7u8) & 1 == 1) && lx[7] == ((x >> 7u64) & 1 == 1));
    assert(b as u64 == x & 0xff) by (bit_vector)
        requires
            ((b >> 0u8) & 1 == 1) == ((x >> 0u64) & 1 == 1),
            ((b >> 1u8) & 1 == 1) == ((x >> 1u64) & 1 == 1),
            ((b >> 2u8) & 1 == 1) == ((x >> 2u64) & 1 == 1),
            ((b >> 3u8) & 1 == 1) == ((x >> 3u64) & 1 == 1),
            ((b >> 4u8) & 1 == 1) == ((x >> 4u64) & 1 == 1),
            ((b >> 5u8) & 1 == 1) == ((x >> 5u64) & 1 == 1),
            ((b >> 6u8) & 1 == 1) == ((x >> 6u64) & 1 == 1),
            ((b >> 7u8) & 1 == 1) == ((x >> 7u64) & 1 == 1),
    ;
}

pub proof fn lemma_stream_bits_len(s: Seq<u8>)
    ensures
        stream_bits(s).len() == 8 * s.len(),
    decreases s.len(),
{
    if s.len() > 0 {
        lemma_stream_bits_len(s.drop_last());
    }
}

/// The bits of a non-empty stream start with the bits of its first byte.
pub proof fn lemma_stream_bits_first(s: Seq<u8>)
    requires
        s.len() > 0,
    ensures
        stream_bits(s) == byte_bits(s[0]) + stream_bits(s.subrange(1, s.len() as int)),
    decreases s.len(),
{
    let tail = s.subrange(1, s.len() as int);
    if s.len() == 1 {
        assert(s.drop_last() =~= Seq::<u8>::empty());
        assert(tail =~= Seq::<u8>::empty());
        assert(stream_bits(s) =~= byte_bits(s[0]) + stream_bits(tail));
    } else {
        let d = s.drop_last();
        lemma_stream_bits_first(d);
        assert(tail.drop_last() =~= d.subrange(1, d.len() as int));
        assert(tail.last() == s.last());
        assert(stream_bits(s) =~= byte_bits(s[0]) + stream_bits(tail));
    }
}

/// Setting bit `i` of a word whose bits from `i` up are clear keeps the lower
/// bits, makes bit `i` equal to `b`, and leaves the bits above `i` clear.
pub proof fn lemma_set_bit_u64(r: u64, i: u64, b: u64, k: u64)
    by (bit_vector)
    requires
        i < 64,
        r >> i == 0,
        b <= 1,
    ensures
        k < i ==> ((r | (b << i)) >> k) & 1 == (r >> k) & 1,
        ((r | (b << i)) >> i) & 1 == b,
        i + 1 < 64 ==> (r | (b << i)) >> ((i + 1) as u64) == 0,
{
}

/// Two bytes read as a 16-bit value and written back in the same byte order
/// are the same two bytes.
pub proof fn lemma_u16_value_bytes(s: Seq<u8>, e: Endianess)
    requires
        s.len() == 2,
    ensures
        0 <= u16_value(s, e) <= u16::MAX,
        int_bytes(u16_value(s, e) as u16 as u128, 2, e) == s,
{
    let hi = match e {
        Endianess::LittleEndian => s[1],
        Endianess::BigEndian => s[0],
    };
    let lo = match e {
        Endianess::LittleEndian => s[0],
        Endianess::BigEndian => s[1],
    };
    let x: u128 = ((hi as u128) * 256 + (lo as u128)) as u128;
    assert(x == u16_value(s, e));
    let h = hi as u128;
    let l = lo as u128;
    assert(((x >> 0u128) & 0xff) == l && ((x >> 8u128) & 0xff) == h) by (bit_vector)
        requires
            h < 256,
            l < 256,
            x == h * 256 + l,
    ;
    assert(int_bytes(x, 2, e) =~= s);
}

/// Placing byte `b` at bit `s` of a word whose bits from `s` up are clear
/// keeps the bytes below it and leaves the bits above it clear.
pub proof fn lemma_set_byte(v: u128, b: u128, s: u128, t: u128)
    by (bit_vector)
    requires
        s <= 120,
        v >> s == 0,
        b < 256,
    ensures
        t + 8 <= s ==> ((v | (b << s)) >> t) & 0xff == (v >> t) & 0xff,
        ((v | (b << s)) >> s) & 0xff == b,
        s < 120 ==> (v | (b << s)) >> ((s + 8) as u128) == 0,
{
}

} // verus!
