use vstd::prelude::*;

use crate::bits::{int_bytes, lemma_u16_bytes, lemma_u16_value_bytes, u16_value};
use crate::message::{starts_with, Message};
use crate::read_buffer::ReadBuffer;
use crate::write_buffer::InternalWriteBuffer;
use crate::{CodecError, Endianess};

verus! {

/// The TCP port a Modbus server listens on by default.
pub const MODBUS_TCP_DEFAULT_PORT: u16 = 502;

/// The transport a Modbus driver speaks, tagged on the wire by one byte.
#[allow(non_camel_case_types)]
#[derive(Clone, Copy, Debug, PartialEq, Eq, Structural)]
pub enum DriverType {
    MODBUS_TCP,
    MODBUS_RTU,
    MODBUS_ASCII,
}

/// The tag byte of each driver type.
pub open spec fn driver_code(d: DriverType) -> u8 {
    match d {
        DriverType::MODBUS_TCP => 1,
        DriverType::MODBUS_RTU => 2,
        DriverType::MODBUS_ASCII => 3,
    }
}

/// The driver type a tag byte names, if any.
pub open spec fn driver_of_code(b: u8) -> Option<DriverType> {
    if b == 1 {
        Some(DriverType::MODBUS_TCP)
    } else if b == 2 {
        Some(DriverType::MODBUS_RTU)
    } else if b == 3 {
        Some(DriverType::MODBUS_ASCII)
    } else {
        None
    }
}

impl DriverType {
    pub fn try_from(value: u8) -> (r: Result<DriverType, CodecError>)
        ensures
            driver_of_code(value) matches Some(d) ==> r == Ok::<DriverType, CodecError>(d),
            driver_of_code(value) is None ==> r == Err::<DriverType, CodecError>(
                CodecError::InvalidDiscriminant(value),
            ),
    {
        match value {
            1 => Ok(DriverType::MODBUS_TCP),
            2 => Ok(DriverType::MODBUS_RTU),
            3 => Ok(DriverType::MODBUS_ASCII),
            _ => Err(CodecError::InvalidDiscriminant(value)),
        }
    }

    pub fn into_u8(self) -> (r: u8)
        ensures
            r == driver_code(self),
    {
        match self {
            DriverType::MODBUS_TCP => 1,
            DriverType::MODBUS_RTU => 2,
            DriverType::MODBUS_ASCII => 3,
        }
    }

    /// Writes the tag byte.
    pub fn serialize(&self, writer: &mut InternalWriteBuffer) -> (r: usize)
        requires
            old(writer).has_room(1),
        ensures
            final(writer).wrote(*old(writer), seq![driver_code(*self)]),
            r == 1,
    {
        writer.write_u8(self.into_u8())
    }

    /// Reads a tag byte and the driver type it names.
    pub fn deserialize<R: ReadBuffer>(reader: &mut R) -> (r: Result<DriverType, CodecError>)
        ensures
            final(reader).byte_order() == old(reader).byte_order(),
            old(reader).remaining().len() > 0 ==> final(reader).remaining() == old(
                reader,
            ).remaining().subrange(1, old(reader).remaining().len() as int),
            old(reader).remaining().len() == 0 ==> r == Err::<DriverType, CodecError>(
                CodecError::EndOfStream,
            ),
            old(reader).remaining().len() > 0 ==> match driver_of_code(old(reader).remaining()[0]) {
                Some(d) => r == Ok::<DriverType, CodecError>(d),
                None => r == Err::<DriverType, CodecError>(
                    CodecError::InvalidDiscriminant(old(reader).remaining()[0]),
                ),
            },
    {
        match reader.read_u8() {
            Ok(b) => DriverType::try_from(b),
            Err(e) => Err(e),
        }
    }
}

impl From<DriverType> for u8 {
    fn from(d: DriverType) -> (r: u8) {
        d.into_u8()
    }
}

impl vstd::std_specs::convert::FromSpecImpl<DriverType> for u8 {
    open spec fn obeys_from_spec() -> bool {
        true
    }

    open spec fn from_spec(d: DriverType) -> u8 {
        driver_code(d)
    }
}

/// A request for `record_length` 16-bit words of record `record_number` of
/// file `file_number`.
#[derive(Clone, Copy, Debug, PartialEq, Eq, Structural)]
pub struct ModbusPDUReadFileRecordRequestItem {
    pub reference_type: u8,
    pub file_number: u16,
    pub record_number: u16,
    pub record_length: u16,
}

/// Wire form of a read request item: the reference type, then the file
/// number, record number and record length in the given byte order.
pub open spec fn read_request_wire(v: ModbusPDUReadFileRecordRequestItem, e: Endianess) -> Seq<
    u8,
> {
    seq![v.reference_type] + int_bytes(v.file_number as u128, 2, e) + int_bytes(
        v.record_number as u128,
        2,
        e,
    ) + int_bytes(v.record_length as u128, 2, e)
}

/// The read request item at the start of `s`, and how many bytes it takes;
/// `None` when `s` is too short.
pub open spec fn parse_read_request(s: Seq<u8>, e: Endianess) -> Option<
    (ModbusPDUReadFileRecordRequestItem, nat),
> {
    if s.len() < 7 {
        None
    } else {
        Some(
            (
                ModbusPDUReadFileRecordRequestItem {
                    reference_type: s[0],
                    file_number: u16_value(s.subrange(1, 3), e) as u16,
                    record_number: u16_value(s.subrange(3, 5), e) as u16,
                    record_length: u16_value(s.subrange(5, 7), e) as u16,
                },
                7,
            ),
        )
    }
}

impl ModbusPDUReadFileRecordRequestItem {
    /// Writes the item and returns the number of bytes written.
    pub fn serialize(&self, writer: &mut InternalWriteBuffer) -> (r: usize)
        requires
            old(writer).has_room(7),
        ensures
            final(writer).wrote(*old(writer), read_request_wire(*self, old(writer).endianness)),
            r == 7,
    {
        let mut size = writer.write_u8(self.reference_type);
        size = size + writer.write_u16(self.file_number);
        size = size + writer.write_u16(self.record_number);
        size = size + writer.write_u16(self.record_length);
        assert(writer.writer@ =~= old(writer).writer@ + read_request_wire(
            *self,
            old(writer).endianness,
        ));
        size
    }

    /// Reads an item; fails with `EndOfStream` when fewer than seven bytes are left.
    pub fn deserialize<R: ReadBuffer>(reader: &mut R) -> (r: Result<
        ModbusPDUReadFileRecordRequestItem,
        CodecError,
    >)
        ensures
            final(reader).byte_order() == old(reader).byte_order(),
            match parse_read_request(old(reader).remaining(), old(reader).byte_order()) {
                Some((v, n)) => r == Ok::<ModbusPDUReadFileRecordRequestItem, CodecError>(v)
                    && final(reader).remaining() == old(reader).remaining().subrange(
                    n as int,
                    old(reader).remaining().len() as int,
                ),
                None => r == Err::<ModbusPDUReadFileRecordRequestItem, CodecError>(
                    CodecError::EndOfStream,
                ),
            },
    {
        let ghost s = reader.remaining();
        let reference_type = match reader.read_u8() {
            Ok(b) => b,
            Err(e) => return Err(e),
        };
        assert(reader.remaining() =~= s.subrange(1, s.len() as int));
        let file_number = match reader.read_u16() {
            Ok(x) => x,
            Err(e) => return Err(e),
        };
        assert(s.subrange(1, s.len() as int).subrange(0, 2) =~= s.subrange(1, 3));
        assert(reader.remaining() =~= s.subrange(3, s.len() as int));
        let record_number = match reader.read_u16() {
            Ok(x) => x,
            Err(e) => return Err(e),
        };
        assert(s.subrange(3, s.len() as int).subrange(0, 2) =~= s.subrange(3, 5));
        assert(reader.remaining() =~= s.subrange(5, s.len() as int));
        let record_length = match reader.read_u16() {
            Ok(x) => x,
            Err(e) => return Err(e),
        };
        assert(s.subrange(5, s.len() as int).subrange(0, 2) =~= s.subrange(5, 7));
        assert(reader.remaining() =~= s.subrange(7, s.len() as int));
        Ok(ModbusPDUReadFileRecordRequestItem {
            reference_type,
            file_number,
            record_number,
            record_length,
        })
    }
}

/// Decoding the wire form of a read request item gives the item back, and
/// consumes exactly its seven bytes, whatever follows it.
pub proof fn lemma_read_request_round_trip(
    v: ModbusPDUReadFileRecordRequestItem,
    e: Endianess,
    rest: Seq<u8>,
)
    ensures
        read_request_wire(v, e).len() == 7,
        parse_read_request(read_request_wire(v, e) + rest, e) == Some((v, 7nat)),
{
    let s = read_request_wire(v, e) + rest;
    lemma_u16_bytes(v.file_number, e);
    lemma_u16_bytes(v.record_number, e);
    lemma_u16_bytes(v.record_length, e);
    assert(s.subrange(1, 3) =~= int_bytes(v.file_number as u128, 2, e));
    assert(s.subrange(3, 5) =~= int_bytes(v.record_number as u128, 2, e));
    assert(s.subrange(5, 7) =~= int_bytes(v.record_length as u128, 2, e));
}

/// One record of a write-file-record exchange. Its record length, counted in
/// 16-bit words, is not stored: it is computed from `record_data` when the
/// item is written, and bounds how much data is read when it is decoded.
#[derive(Clone, Debug)]
pub struct ModbusPDUWriteFileRecordResponseItem {
    pub reference_type: u8,
    pub file_number: u16,
    pub record_number: u16,
    pub record_data: Vec<u8>,
}

/// Reference type, file number, record number and record data.
pub type WriteRecordView = (u8, u16, u16, Seq<u8>);

impl View for ModbusPDUWriteFileRecordResponseItem {
    type V = WriteRecordView;

    open spec fn view(&self) -> WriteRecordView {
        (self.reference_type, self.file_number, self.record_number, self.record_data@)
    }
}

impl PartialEq for ModbusPDUWriteFileRecordResponseItem {
    fn eq(&self, o: &ModbusPDUWriteFileRecordResponseItem) -> (r: bool) {
        if self.reference_type != o.reference_type || self.file_number != o.file_number
            || self.record_number != o.record_number || self.record_data.len()
            != o.record_data.len() {
            return false;
        }
        let mut i: usize = 0;
        while i < self.record_data.len()
            invariant
                self.record_data@.len() == o.record_data@.len(),
                0 <= i <= self.record_data@.len(),
                self.record_data@.subrange(0, i as int) == o.record_data@.subrange(0, i as int),
            decreases self.record_data@.len() - i,
        {
            if self.record_data[i] != o.record_data[i] {
                return false;
            }
            i = i + 1;
            assert(self.record_data@.subrange(0, i as int) =~= o.record_data@.subrange(
                0,
                i as int,
            ));
        }
        assert(self.record_data@ =~= self.record_data@.subrange(0, i as int));
        assert(o.record_data@ =~= o.record_data@.subrange(0, i as int));
        true
    }
}

impl vstd::std_specs::cmp::PartialEqSpecImpl for ModbusPDUWriteFileRecordResponseItem {
    open spec fn obeys_eq_spec() -> bool {
        true
    }

    open spec fn eq_spec(&self, o: &ModbusPDUWriteFileRecordResponseItem) -> bool {
        self@ == o@
    }
}

/// The record length field of an item: whole 16-bit words of its data.
pub open spec fn words_of(data: Seq<u8>) -> int {
    data.len() as int / 2
}

/// Whether an item can be written: its data is whole 16-bit words, and their
/// count fits the 16-bit length field.
pub open spec fn write_record_encodable(v: WriteRecordView) -> bool {
    v.3.len() % 2 == 0 && words_of(v.3) <= u16::MAX
}

/// Wire form of a write-record item: the reference type, the file number,
/// the record number and the record length in the given byte order, then
/// the record data as it stands.
pub open spec fn write_record_wire(v: WriteRecordView, e: Endianess) -> Seq<u8> {
    seq![v.0] + int_bytes(v.1 as u128, 2, e) + int_bytes(v.2 as u128, 2, e) + int_bytes(
        words_of(v.3) as u16 as u128,
        2,
        e,
    ) + v.3
}

/// The write-record item at the start of `s`, and how many bytes it takes:
/// the length field says how many 16-bit words of data follow the header.
/// `None` when `s` ends before the header or before the data it announces.
pub open spec fn parse_write_record(s: Seq<u8>, e: Endianess) -> Option<(WriteRecordView, nat)> {
    if s.len() < 7 {
        None
    } else {
        let n = 7 + 2 * u16_value(s.subrange(5, 7), e);
        if s.len() < n {
            None
        } else {
            Some(
                (
                    (
                        s[0],
                        u16_value(s.subrange(1, 3), e) as u16,
                        u16_value(s.subrange(3, 5), e) as u16,
                        s.subrange(7, n),
                    ),
                    n as nat,
                ),
            )
        }
    }
}

impl ModbusPDUWriteFileRecordResponseItem {
    /// Whole 16-bit words of record data, as the 16-bit length field holds it.
    pub fn record_length(&self) -> (r: u16)
        ensures
            r == words_of(self.record_data@) as u16,
    {
        (self.record_data.len() / 2) as u16
    }

    /// Writes the item and returns the number of bytes written. Data of odd
    /// length, or of more words than the length field counts, is refused
    /// before anything is written.
    pub fn serialize(&self, writer: &mut InternalWriteBuffer) -> (r: Result<usize, CodecError>)
        requires
            old(writer).has_room(7 + self.record_data@.len() as int),
        ensures
            self.record_data@.len() % 2 == 1 ==> r == Err::<usize, CodecError>(
                CodecError::OddPayloadLength,
            ) && *final(writer) == *old(writer),
            self.record_data@.len() % 2 == 0 && !write_record_encodable(self@) ==> r == Err::<
                usize,
                CodecError,
            >(CodecError::PayloadTooLong) && *final(writer) == *old(writer),
            write_record_encodable(self@) ==> r == Ok::<usize, CodecError>(
                (7 + self.record_data@.len()) as usize,
            ) && final(writer).wrote(*old(writer), write_record_wire(self@, old(writer).endianness)),
    {
        if self.record_data.len() % 2 == 1 {
            return Err(CodecError::OddPayloadLength);
        }
        if self.record_data.len() / 2 > 65535 {
            return Err(CodecError::PayloadTooLong);
        }
        let mut size = writer.write_u8(self.reference_type);
        size = size + writer.write_u16(self.file_number);
        size = size + writer.write_u16(self.record_number);
        size = size + writer.write_u16(self.record_length());
        size = size + writer.write_bytes(self.record_data.as_slice());
        assert(writer.writer@ =~= old(writer).writer@ + write_record_wire(
            self@,
            old(writer).endianness,
        ));
        Ok(size)
    }

    /// Reads an item: a header of seven bytes, then as many 16-bit words of
    /// data as its length field says. The length field is taken as it stands.
    /// Fails with `EndOfStream` when the source ends before the header or
    /// before the data the header announces.
    pub fn deserialize<R: ReadBuffer>(reader: &mut R) -> (r: Result<
        ModbusPDUWriteFileRecordResponseItem,
        CodecError,
    >)
        ensures
            final(reader).byte_order() == old(reader).byte_order(),
            match parse_write_record(old(reader).remaining(), old(reader).byte_order()) {
                Some((v, n)) => (r matches Ok(m) && m@ == v) && final(reader).remaining() == old(
                    reader,
                ).remaining().subrange(n as int, old(reader).remaining().len() as int),
                None => r == Err::<ModbusPDUWriteFileRecordResponseItem, CodecError>(
                    CodecError::EndOfStream,
                ),
            },
    {
        let ghost s = reader.remaining();
        let reference_type = match reader.read_u8() {
            Ok(b) => b,
            Err(e) => return Err(e),
        };
        assert(reader.remaining() =~= s.subrange(1, s.len() as int));
        let file_number = match reader.read_u16() {
            Ok(x) => x,
            Err(e) => return Err(e),
        };
        assert(s.subrange(1, s.len() as int).subrange(0, 2) =~= s.subrange(1, 3));
        assert(reader.remaining() =~= s.subrange(3, s.len() as int));
        let record_number = match reader.read_u16() {
            Ok(x) => x,
            Err(e) => return Err(e),
        };
        assert(s.subrange(3, s.len() as int).subrange(0, 2) =~= s.subrange(3, 5));
        assert(reader.remaining() =~= s.subrange(5, s.len() as int));
        let record_length = match reader.read_u16() {
            Ok(x) => x,
            Err(e) => return Err(e),
        };
        assert(s.subrange(5, s.len() as int).subrange(0, 2) =~= s.subrange(5, 7));
        assert(reader.remaining() =~= s.subrange(7, s.len() as int));
        let ghost n = 7 + 2 * record_length;
        let record_data = match reader.read_bytes(2 * record_length as usize) {
            Ok(d) => d,
            Err(e) => return Err(e),
        };
        assert(s.subrange(7, s.len() as int).subrange(0, 2 * record_length) =~= s.subrange(7, n));
        assert(reader.remaining() =~= s.subrange(n, s.len() as int));
        Ok(ModbusPDUWriteFileRecordResponseItem {
            reference_type,
            file_number,
            record_number,
            record_data,
        })
    }
}

/// Decoding the wire form of a write-record item whose data is whole 16-bit
/// words, and few enough for the length field, gives the item back and
/// consumes exactly its bytes, whatever follows it.
pub proof fn lemma_write_record_round_trip(v: WriteRecordView, e: Endianess, rest: Seq<u8>)
    requires
        write_record_encodable(v),
    ensures
        write_record_wire(v, e).len() == 7 + v.3.len(),
        parse_write_record(write_record_wire(v, e) + rest, e) == Some(
            (v, write_record_wire(v, e).len()),
        ),
{
    let w = write_record_wire(v, e);
    let s = w + rest;
    let words = words_of(v.3) as u16;
    lemma_u16_bytes(v.1, e);
    lemma_u16_bytes(v.2, e);
    lemma_u16_bytes(words, e);
    assert(s.subrange(1, 3) =~= int_bytes(v.1 as u128, 2, e));
    assert(s.subrange(3, 5) =~= int_bytes(v.2 as u128, 2, e));
    assert(s.subrange(5, 7) =~= int_bytes(words as u128, 2, e));
    assert(s.subrange(7, 7 + v.3.len() as int) =~= v.3);
}

/// When the length field announces more data than follows the header, no
/// item is decoded: the data is never cut short or padded.
pub proof fn lemma_write_record_truncated(s: Seq<u8>, e: Endianess)
    requires
        s.len() >= 7,
        s.len() - 7 < 2 * u16_value(s.subrange(5, 7), e),
    ensures
        parse_write_record(s, e) is None,
{
}

impl Message for DriverType {
    open spec fn wire(&self, e: Endianess) -> Seq<u8> {
        seq![driver_code(*self)]
    }

    open spec fn encodable(&self) -> bool {
        true
    }

    fn serialize(&self, writer: &mut InternalWriteBuffer) -> (r: Result<usize, CodecError>) {
        Ok(DriverType::serialize(self, writer))
    }

    fn deserialize<R: ReadBuffer>(reader: &mut R) -> (r: Result<DriverType, CodecError>) {
        let ghost s = reader.remaining();
        let r = DriverType::deserialize(reader);
        proof {
            if s.len() > 0 {
                let b = s[0];
                assert(driver_of_code(b) matches Some(d) ==> driver_code(d) == b);
                assert forall|m: DriverType| #![trigger m.wire(reader.byte_order())]
                    m.encodable() && starts_with(s, m.wire(reader.byte_order())) implies r is Ok by {
                    assert(s.subrange(0, 1)[0] == b);
                }
                if r is Ok {
                    assert(s =~= seq![b] + s.subrange(1, s.len() as int));
                }
            }
        }
        r
    }
}

impl Message for ModbusPDUReadFileRecordRequestItem {
    open spec fn wire(&self, e: Endianess) -> Seq<u8> {
        read_request_wire(*self, e)
    }

    open spec fn encodable(&self) -> bool {
        true
    }

    fn serialize(&self, writer: &mut InternalWriteBuffer) -> (r: Result<usize, CodecError>) {
        Ok(ModbusPDUReadFileRecordRequestItem::serialize(self, writer))
    }

    fn deserialize<R: ReadBuffer>(reader: &mut R) -> (r: Result<
        ModbusPDUReadFileRecordRequestItem,
        CodecError,
    >) {
        let ghost s = reader.remaining();
        let ghost e = reader.byte_order();
        let r = ModbusPDUReadFileRecordRequestItem::deserialize(reader);
        proof {
            if s.len() >= 7 {
                lemma_u16_value_bytes(s.subrange(1, 3), e);
                lemma_u16_value_bytes(s.subrange(3, 5), e);
                lemma_u16_value_bytes(s.subrange(5, 7), e);
                let (v, n) = parse_read_request(s, e).unwrap();
                assert(read_request_wire(v, e) =~= s.subrange(0, 7));
                assert(s =~= s.subrange(0, 7) + s.subrange(7, s.len() as int));
            }
        }
        r
    }
}

impl Message for ModbusPDUWriteFileRecordResponseItem {
    open spec fn wire(&self, e: Endianess) -> Seq<u8> {
        write_record_wire(self@, e)
    }

    open spec fn encodable(&self) -> bool {
        write_record_encodable(self@)
    }

    fn serialize(&self, writer: &mut InternalWriteBuffer) -> (r: Result<usize, CodecError>) {
        proof {
            lemma_write_record_wire_len(self@, writer.endianness);
        }
        ModbusPDUWriteFileRecordResponseItem::serialize(self, writer)
    }

    fn deserialize<R: ReadBuffer>(reader: &mut R) -> (r: Result<
        ModbusPDUWriteFileRecordResponseItem,
        CodecError,
    >) {
        let ghost s = reader.remaining();
        let ghost e = reader.byte_order();
        let r = ModbusPDUWriteFileRecordResponseItem::deserialize(reader);
        proof {
            if s.len() >= 7 {
                lemma_u16_value_bytes(s.subrange(1, 3), e);
                lemma_u16_value_bytes(s.subrange(3, 5), e);
                lemma_u16_value_bytes(s.subrange(5, 7), e);
            }
            if let Some((v, n)) = parse_write_record(s, e) {
                assert(words_of(v.3) == u16_value(s.subrange(5, 7), e));
                assert(write_record_wire(v, e) =~= s.subrange(0, n as int));
                assert(s =~= s.subrange(0, n as int) + s.subrange(n as int, s.len() as int));
            }
            assert forall|m: ModbusPDUWriteFileRecordResponseItem|
                #![trigger m.wire(e)]
                m.encodable() && starts_with(s, m.wire(e)) implies r is Ok by {
                let w = m.wire(e);
                lemma_write_record_wire_len(m@, e);
                lemma_u16_bytes(words_of(m@.3) as u16, e);
                assert(s.subrange(5, 7) =~= w.subrange(5, 7));
                assert(w.subrange(5, 7) =~= int_bytes(words_of(m@.3) as u16 as u128, 2, e));
            }
        }
        r
    }
}

/// The wire form of a write-record item is a seven-byte header and its data.
pub proof fn lemma_write_record_wire_len(v: WriteRecordView, e: Endianess)
    ensures
        write_record_wire(v, e).len() == 7 + v.3.len(),
{
    lemma_u16_bytes(v.1, e);
    lemma_u16_bytes(v.2, e);
    lemma_u16_bytes(words_of(v.3) as u16, e);
}

/// An item with no record data can be written: its wire form is the
/// reference type, the file and record numbers, a length field of zero, and
/// no data; and it decodes back to an item with no data.
pub proof fn lemma_write_record_empty_payload(v: WriteRecordView, e: Endianess, rest: Seq<u8>)
    requires
        v.3.len() == 0,
    ensures
        write_record_encodable(v),
        write_record_wire(v, e) == seq![v.0] + int_bytes(v.1 as u128, 2, e) + int_bytes(
            v.2 as u128,
            2,
            e,
        ) + seq![0u8, 0u8],
        write_record_wire(v, e).len() == 7,
        parse_write_record(write_record_wire(v, e) + rest, e) == Some((v, 7nat)),
{
    lemma_write_record_wire_len(v, e);
    lemma_write_record_round_trip(v, e, rest);
    let z = int_bytes(0u16 as u128, 2, e);
    assert(0u128 >> 0u128 == 0 && 0u128 >> 8u128 == 0) by (bit_vector);
    assert(z =~= seq![0u8, 0u8]);
    assert(write_record_wire(v, e) =~= seq![v.0] + int_bytes(v.1 as u128, 2, e) + int_bytes(
        v.2 as u128,
        2,
        e,
    ) + seq![0u8, 0u8]);
}

} // verus!
