use modbus_codec::modbus::{
    DriverType, ModbusPDUReadFileRecordRequestItem, ModbusPDUWriteFileRecordResponseItem,
};
use modbus_codec::read_buffer::{InternalReadBuffer, ReadBuffer};
use modbus_codec::write_buffer::InternalWriteBuffer;
use modbus_codec::{CodecError, Endianess};

#[test]
fn ser_deser() {
    let message = ModbusPDUWriteFileRecordResponseItem {
        reference_type: 0,
        file_number: 0,
        record_number: 0,
        record_data: vec![1, 2, 3, 4],
    };

    let bytes: Vec<u8> = vec![];

    let mut writer = InternalWriteBuffer::new(Endianess::BigEndian, bytes);

    let _ = message.serialize(&mut writer);

    let bytes = writer.writer.clone();

    assert_eq!(vec![0, 0, 0, 0, 0, 0, 2, 1, 2, 3, 4], bytes);

    let bytes = writer.writer.clone();
    let mut reader = InternalReadBuffer::new(Endianess::BigEndian, bytes);

    if let Ok(msg) = ModbusPDUWriteFileRecordResponseItem::deserialize(&mut reader) {
        assert_eq!(message, msg);
    } else {
        assert!(false);
    }
}

#[test]
fn write_record_little_endian_round_trip() {
    let message = ModbusPDUWriteFileRecordResponseItem {
        reference_type: 6,
        file_number: 0x0102,
        record_number: 0x0304,
        record_data: vec![9, 8, 7, 6, 5, 4],
    };
    let mut writer = InternalWriteBuffer::new(Endianess::LittleEndian, vec![]);
    assert_eq!(message.serialize(&mut writer), Ok(13));
    assert_eq!(writer.writer, vec![6, 2, 1, 4, 3, 3, 0, 9, 8, 7, 6, 5, 4]);
    let mut reader = InternalReadBuffer::new(Endianess::LittleEndian, writer.writer.clone());
    let back = ModbusPDUWriteFileRecordResponseItem::deserialize(&mut reader).unwrap();
    assert_eq!(back, message);
    assert_eq!(reader.position, 13);
}

#[test]
fn empty_payload_round_trips() {
    let message = ModbusPDUWriteFileRecordResponseItem {
        reference_type: 1,
        file_number: 2,
        record_number: 3,
        record_data: vec![],
    };
    assert_eq!(message.record_length(), 0);
    let mut writer = InternalWriteBuffer::new(Endianess::BigEndian, vec![]);
    assert_eq!(message.serialize(&mut writer), Ok(7));
    assert_eq!(writer.writer, vec![1, 0, 2, 0, 3, 0, 0]);
    let mut reader = InternalReadBuffer::new(Endianess::BigEndian, writer.writer.clone());
    let back = ModbusPDUWriteFileRecordResponseItem::deserialize(&mut reader).unwrap();
    assert!(back.record_data.is_empty());
    assert_eq!(back, message);
}

#[test]
fn truncated_payload_is_end_of_stream() {
    // The length field announces 3 words; only 4 bytes follow.
    let bytes = vec![0, 0, 1, 0, 2, 0, 3, 1, 2, 3, 4];
    let mut reader = InternalReadBuffer::new(Endianess::BigEndian, bytes);
    assert_eq!(
        ModbusPDUWriteFileRecordResponseItem::deserialize(&mut reader),
        Err(CodecError::EndOfStream)
    );
}

#[test]
fn truncated_header_is_end_of_stream() {
    let mut reader = InternalReadBuffer::new(Endianess::BigEndian, vec![0, 0, 1, 0]);
    assert_eq!(
        ModbusPDUWriteFileRecordResponseItem::deserialize(&mut reader),
        Err(CodecError::EndOfStream)
    );
}

#[test]
fn odd_payload_is_refused_before_writing() {
    let message = ModbusPDUWriteFileRecordResponseItem {
        reference_type: 0,
        file_number: 0,
        record_number: 0,
        record_data: vec![1, 2, 3],
    };
    assert_eq!(message.record_length(), 1);
    let mut writer = InternalWriteBuffer::new(Endianess::BigEndian, vec![]);
    assert_eq!(message.serialize(&mut writer), Err(CodecError::OddPayloadLength));
    assert!(writer.writer.is_empty());
    assert_eq!(writer.position, 0);
}

#[test]
fn oversized_payload_is_refused() {
    let message = ModbusPDUWriteFileRecordResponseItem {
        reference_type: 0,
        file_number: 0,
        record_number: 0,
        record_data: vec![0; 2 * 65536],
    };
    assert_eq!(message.record_length(), 0);
    let mut writer = InternalWriteBuffer::new(Endianess::BigEndian, vec![]);
    assert_eq!(message.serialize(&mut writer), Err(CodecError::PayloadTooLong));
    assert!(writer.writer.is_empty());
}

#[test]
fn largest_payload_round_trips() {
    let data: Vec<u8> = (0..2 * 65535).map(|i| (i % 251) as u8).collect();
    let message = ModbusPDUWriteFileRecordResponseItem {
        reference_type: 0,
        file_number: 0,
        record_number: 0,
        record_data: data,
    };
    assert_eq!(message.record_length(), 65535);
    let mut writer = InternalWriteBuffer::new(Endianess::BigEndian, vec![]);
    assert_eq!(message.serialize(&mut writer), Ok(7 + 2 * 65535));
    assert_eq!(&writer.writer[5..7], &[0xFF, 0xFF]);
    let mut reader = InternalReadBuffer::new(Endianess::BigEndian, writer.writer.clone());
    assert_eq!(ModbusPDUWriteFileRecordResponseItem::deserialize(&mut reader).unwrap(), message);
}

#[test]
fn length_field_is_trusted_over_payload() {
    // One word announced, two follow: only the announced word is taken.
    let bytes = vec![5, 0, 1, 0, 2, 0, 1, 0xA, 0xB, 0xC, 0xD];
    let mut reader = InternalReadBuffer::new(Endianess::BigEndian, bytes);
    let item = ModbusPDUWriteFileRecordResponseItem::deserialize(&mut reader).unwrap();
    assert_eq!(item.record_data, vec![0xA, 0xB]);
    assert_eq!(reader.read_u16(), Ok(0x0C0D));
}

#[test]
fn read_request_round_trip() {
    let item = ModbusPDUReadFileRecordRequestItem {
        reference_type: 6,
        file_number: 4,
        record_number: 0x0102,
        record_length: 2,
    };
    let mut writer = InternalWriteBuffer::new(Endianess::BigEndian, vec![]);
    assert_eq!(item.serialize(&mut writer), 7);
    assert_eq!(writer.writer, vec![6, 0, 4, 1, 2, 0, 2]);
    let mut reader = InternalReadBuffer::new(Endianess::BigEndian, writer.writer.clone());
    assert_eq!(ModbusPDUReadFileRecordRequestItem::deserialize(&mut reader), Ok(item));
    let mut short = InternalReadBuffer::new(Endianess::BigEndian, vec![6, 0, 4, 1, 2, 0]);
    assert_eq!(
        ModbusPDUReadFileRecordRequestItem::deserialize(&mut short),
        Err(CodecError::EndOfStream)
    );
}

#[test]
fn driver_type_tags() {
    assert_eq!(DriverType::try_from(1), Ok(DriverType::MODBUS_TCP));
    assert_eq!(DriverType::try_from(2), Ok(DriverType::MODBUS_RTU));
    assert_eq!(DriverType::try_from(3), Ok(DriverType::MODBUS_ASCII));
    assert_eq!(DriverType::try_from(4), Err(CodecError::InvalidDiscriminant(4)));
    assert_eq!(DriverType::MODBUS_RTU.into_u8(), 2);
    let tag: u8 = DriverType::MODBUS_TCP.into();
    assert_eq!(tag, 1);
    assert_eq!(u8::from(DriverType::MODBUS_ASCII), 3);
    let mut writer = InternalWriteBuffer::new(Endianess::BigEndian, vec![]);
    DriverType::MODBUS_ASCII.serialize(&mut writer);
    assert_eq!(writer.writer, vec![3]);
}

#[test]
fn driver_type_decoding() {
    let mut reader = InternalReadBuffer::new(Endianess::BigEndian, vec![2, 9]);
    assert_eq!(DriverType::deserialize(&mut reader), Ok(DriverType::MODBUS_RTU));
    assert_eq!(DriverType::deserialize(&mut reader), Err(CodecError::InvalidDiscriminant(9)));
    assert_eq!(DriverType::deserialize(&mut reader), Err(CodecError::EndOfStream));
}

#[test]
fn reader_primitives() {
    let mut reader = InternalReadBuffer::new(Endianess::LittleEndian, vec![1, 2, 3, 4, 5]);
    assert_eq!(reader.read_u8(), Ok(1));
    assert_eq!(reader.read_u16(), Ok(0x0302));
    assert_eq!(reader.read_bytes(3), Err(CodecError::EndOfStream));
    assert_eq!(reader.read_bytes(2), Ok(vec![4, 5]));
    assert_eq!(reader.read_u8(), Err(CodecError::EndOfStream));
    assert_eq!(reader.read_bytes(0), Ok(vec![]));
}

#[test]
fn reader_wide_integers() {
    let bytes: Vec<u8> = (1..=28).collect();
    let mut big = InternalReadBuffer::new(Endianess::BigEndian, bytes.clone());
    assert_eq!(big.read_u32(), Ok(0x0102_0304));
    assert_eq!(big.read_u64(), Ok(0x0506_0708_090A_0B0C));
    assert_eq!(big.read_u128(), Ok(0x0D0E_0F10_1112_1314_1516_1718_191A_1B1C));
    assert_eq!(big.read_u32(), Err(CodecError::EndOfStream));
    let mut little = InternalReadBuffer::new(Endianess::LittleEndian, bytes);
    assert_eq!(little.read_u32(), Ok(0x0403_0201));
    assert_eq!(little.read_u64(), Ok(0x0C0B_0A09_0807_0605));
    assert_eq!(little.read_u128(), Ok(0x1C1B_1A19_1817_1615_1413_1211_100F_0E0D));
}

#[test]
fn short_wide_read_consumes_nothing() {
    let mut reader = InternalReadBuffer::new(Endianess::BigEndian, vec![1, 2, 3]);
    assert_eq!(reader.read_u32(), Err(CodecError::EndOfStream));
    assert_eq!(reader.read_u64(), Err(CodecError::EndOfStream));
    assert_eq!(reader.read_u16(), Ok(0x0102));
}

#[test]
fn writer_and_reader_agree() {
    let mut writer = InternalWriteBuffer::new(Endianess::LittleEndian, vec![]);
    writer.write_u32(0xDEAD_BEEF);
    writer.write_u64(u64::MAX - 5);
    writer.write_u128(1 << 100);
    let mut reader = InternalReadBuffer::new(Endianess::LittleEndian, writer.writer);
    assert_eq!(reader.read_u32(), Ok(0xDEAD_BEEF));
    assert_eq!(reader.read_u64(), Ok(u64::MAX - 5));
    assert_eq!(reader.read_u128(), Ok(1 << 100));
}
