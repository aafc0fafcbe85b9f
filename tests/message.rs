use modbus_codec::message::Message;
use modbus_codec::modbus::{
    DriverType, ModbusPDUReadFileRecordRequestItem, ModbusPDUWriteFileRecordResponseItem,
};
use modbus_codec::read_buffer::InternalReadBuffer;
use modbus_codec::write_buffer::InternalWriteBuffer;
use modbus_codec::{CodecError, Endianess};
use std::fmt::Debug;

fn round_trip<M: Message + PartialEq + Debug>(m: &M, e: Endianess) -> Vec<u8> {
    let mut writer = InternalWriteBuffer::new(e, vec![]);
    let n = Message::serialize(m, &mut writer).unwrap();
    assert_eq!(n, writer.writer.len());
    let mut bytes = writer.writer.clone();
    bytes.push(0xEE);
    let mut reader = InternalReadBuffer::new(e, bytes);
    let back = <M as Message>::deserialize(&mut reader).unwrap();
    assert_eq!(&back, m);
    assert_eq!(reader.position, n);
    writer.writer
}

#[test]
fn messages_round_trip_through_the_trait() {
    assert_eq!(round_trip(&DriverType::MODBUS_ASCII, Endianess::BigEndian), vec![3]);
    let request = ModbusPDUReadFileRecordRequestItem {
        reference_type: 6,
        file_number: 0x0A0B,
        record_number: 1,
        record_length: 4,
    };
    assert_eq!(
        round_trip(&request, Endianess::LittleEndian),
        vec![6, 0x0B, 0x0A, 1, 0, 4, 0]
    );
    let record = ModbusPDUWriteFileRecordResponseItem {
        reference_type: 6,
        file_number: 1,
        record_number: 2,
        record_data: vec![0xDE, 0xAD, 0xBE, 0xEF],
    };
    assert_eq!(
        round_trip(&record, Endianess::BigEndian),
        vec![6, 0, 1, 0, 2, 0, 2, 0xDE, 0xAD, 0xBE, 0xEF]
    );
}

#[test]
fn trait_serialize_refuses_odd_payload() {
    let record = ModbusPDUWriteFileRecordResponseItem {
        reference_type: 6,
        file_number: 1,
        record_number: 2,
        record_data: vec![1],
    };
    let mut writer = InternalWriteBuffer::new(Endianess::BigEndian, vec![]);
    assert_eq!(Message::serialize(&record, &mut writer), Err(CodecError::OddPayloadLength));
    assert!(writer.writer.is_empty());
}
