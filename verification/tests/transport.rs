use minerust::network::buffer::Buffer;
use minerust::network::connection::{
    Connection, Pipeline, Readable, Stage, UuidValue, VarI32, Writable,
};
use minerust::network::framing::FrameEncoder;
use minerust::network::memory::{MemoryConnection, MemoryTransport};
use minerust::network::protocol::{
    FieldType, FieldValue, PacketData, PacketDescriptor, ProtocolInfo, read_field,
};
use minerust::network::{ByteOrder, Error, PacketDirection, PacketState};

#[test]
fn empty_pipeline_is_identity() {
    let pipeline = Pipeline::new();
    let buffer = Buffer::new(vec![0x41, 0x42], true, Some(ByteOrder::BigEndian));
    let encoded = pipeline.encode(buffer).unwrap();
    assert_eq!(encoded.to_bytes(), vec![0x41, 0x42]);
    let decoded = pipeline.decode(encoded).unwrap();
    assert_eq!(decoded.to_bytes(), vec![0x41, 0x42]);
}

#[test]
fn frame_stage_prefixes_the_payload_length() {
    let pipeline = Pipeline::new().add_last_encoder(
        Stage::Frame(FrameEncoder::new()),
        Some(String::from("frame")),
    );
    let buffer = Buffer::new(vec![0x41, 0x42], true, Some(ByteOrder::BigEndian));
    let framed = pipeline.encode(buffer).unwrap();
    assert_eq!(framed.to_bytes(), vec![0x02, 0x41, 0x42]);
}

#[test]
fn frame_bytes_decode_back_to_the_payload() {
    let mut stream = Buffer::new(vec![0x02, 0x41, 0x42], false, Some(ByteOrder::BigEndian));
    let length = stream.read_var_i32().unwrap();
    assert_eq!(length, 2);
    assert_eq!(stream.read_u8().unwrap(), 0x41);
    assert_eq!(stream.read_u8().unwrap(), 0x42);
    assert_eq!(stream.position(), 3);
}

#[test]
fn frame_stage_fails_on_non_writable_buffers() {
    let pipeline = Pipeline::new().add_last_encoder(Stage::Frame(FrameEncoder::new()), None);
    let buffer = Buffer::new(vec![0x41], false, None);
    assert!(matches!(pipeline.encode(buffer), Err(Error::NotWritable(_))));
}

#[test]
fn wire_values_round_trip_through_a_buffer() {
    let buffer = Buffer::empty(true, Some(ByteOrder::BigEndian));
    let buffer = 7u8.write(buffer).unwrap();
    let buffer = 0x1234u16.write(buffer).unwrap();
    let buffer = (-9i32).write(buffer).unwrap();
    let buffer = VarI32 { value: 300 }.write(buffer).unwrap();
    let buffer = String::from("ok").write(buffer).unwrap();
    let uuid = UuidValue { most_significant: 0x0123_4567_89AB_CDEF, least_significant: 42 };
    let buffer = uuid.write(buffer).unwrap();
    let mut buffer = buffer;
    buffer.reset();
    assert_eq!(u8::read(&mut buffer).unwrap(), 7);
    assert_eq!(u16::read(&mut buffer).unwrap(), 0x1234);
    assert_eq!(i32::read(&mut buffer).unwrap(), -9);
    assert_eq!(VarI32::read(&mut buffer).unwrap().value, 300);
    assert_eq!(String::read(&mut buffer).unwrap(), "ok");
    let back = UuidValue::read(&mut buffer).unwrap();
    assert_eq!(back, uuid);
}

#[test]
fn wire_sequences_carry_a_count_prefix() {
    let values: Vec<u16> = vec![1, 2, 3];
    let buffer = Buffer::empty(true, Some(ByteOrder::BigEndian));
    let buffer = values.write(buffer).unwrap();
    assert_eq!(buffer.to_bytes(), vec![0x03, 0x00, 0x01, 0x00, 0x02, 0x00, 0x03]);
    let mut buffer = buffer;
    buffer.reset();
    let back: Vec<u16> = Vec::read(&mut buffer).unwrap();
    assert_eq!(back, values);
}

#[test]
fn wire_sequences_with_zero_count_read_back_empty() {
    let mut buffer = Buffer::new(vec![0x00], false, Some(ByteOrder::BigEndian));
    let back: Vec<u16> = Vec::read(&mut buffer).unwrap();
    assert_eq!(back, Vec::<u16>::new());
    assert_eq!(buffer.position(), 1);
}

#[test]
fn connection_write_frames_and_sends_packets() {
    let pipeline = Pipeline::new().add_last_encoder(
        Stage::Frame(FrameEncoder::new()),
        Some(String::from("frame")),
    );
    let transport = MemoryTransport::new(None);
    let mut connection = MemoryConnection::new(transport, pipeline);
    let written = connection.write(VarI32 { value: 1 }).unwrap();
    assert_eq!(written, 2);
    assert_eq!(connection.sent_bytes(), vec![0x01, 0x01]);
    let written = connection.write(0x0203u16).unwrap();
    assert_eq!(written, 3);
    assert_eq!(connection.sent_bytes(), vec![0x01, 0x01, 0x02, 0x02, 0x03]);
    assert_eq!(connection.state(), PacketState::Handshaking);
    assert_eq!(MemoryConnection::bound(), PacketDirection::Clientbound);
}

#[test]
fn read_buffer_returns_tagged_chunks() {
    let transport = MemoryTransport::new(None);
    let mut connection = MemoryConnection::new(transport, Pipeline::new());
    connection.push_incoming(vec![9, 8, 7]);
    let (buffer, took) = connection.read_buffer(None, ByteOrder::LittleEndian).unwrap();
    assert_eq!(took, 0);
    assert_eq!(buffer.to_bytes(), vec![9, 8, 7]);
    assert_eq!(buffer.byte_order(), Some(ByteOrder::LittleEndian));
    assert!(buffer.writable());
    assert_eq!(buffer.position(), 0);
}

#[test]
fn read_buffer_reads_at_most_one_chunk() {
    let transport = MemoryTransport::new(None);
    let mut connection = MemoryConnection::new(transport, Pipeline::new());
    connection.push_incoming(vec![1u8; 1500]);
    let (buffer, _) = connection.read_buffer(None, ByteOrder::BigEndian).unwrap();
    assert_eq!(buffer.to_bytes().len(), 1024);
    let (buffer, _) = connection.read_buffer(None, ByteOrder::BigEndian).unwrap();
    assert_eq!(buffer.to_bytes().len(), 476);
}

#[test]
fn timeout_override_is_always_restored() {
    let transport = MemoryTransport::new(Some(5000));
    let mut connection = MemoryConnection::new(transport, Pipeline::new());
    assert_eq!(connection.get_timeout(), Some(5000));

    // A transient override on an empty transport: the read fails as
    // not-readable and the previous deadline is back in place.
    let result = connection.read_buffer(Some(10), ByteOrder::BigEndian);
    assert!(matches!(result, Err(Error::NotReadable(_))));
    assert_eq!(connection.get_timeout(), Some(5000));

    // The same on a successful read.
    connection.push_incoming(vec![1]);
    connection.read_buffer(Some(10), ByteOrder::BigEndian).unwrap();
    assert_eq!(connection.get_timeout(), Some(5000));

    connection.set_timeout(Some(250));
    assert_eq!(connection.get_timeout(), Some(250));
}

fn handshake_protocol() -> ProtocolInfo {
    ProtocolInfo {
        id: 754,
        literal: String::from("1.16.5"),
        packets: vec![
            PacketDescriptor {
                id: 0,
                direction: PacketDirection::Serverbound,
                state: PacketState::Handshaking,
                fields: vec![
                    (String::from("protocol_version"), FieldType::VarInt),
                    (String::from("server_address"), FieldType::Text),
                    (String::from("server_port"), FieldType::U16),
                ],
            },
        ],
    }
}

#[test]
fn packets_round_trip_against_the_registry() {
    let protocol = handshake_protocol();
    assert_eq!(protocol.packet_ids(), vec![0]);
    let packet = PacketData {
        id: 0,
        fields: vec![
            FieldValue::VarInt(754),
            FieldValue::Text(String::from("localhost")),
            FieldValue::U16(25565),
        ],
    };
    let buffer = Buffer::empty(true, Some(ByteOrder::BigEndian));
    let mut buffer = packet.write(buffer).unwrap();
    buffer.reset();
    let decoded = protocol
        .decode_packet(&mut buffer, PacketState::Handshaking, PacketDirection::Serverbound)
        .unwrap();
    assert_eq!(decoded.id, 0);
    assert_eq!(decoded.fields.len(), 3);
    assert!(matches!(decoded.fields[0], FieldValue::VarInt(754)));
    assert!(matches!(decoded.fields[1], FieldValue::Text(ref s) if s == "localhost"));
    assert!(matches!(decoded.fields[2], FieldValue::U16(25565)));
}

#[test]
fn unknown_packet_ids_are_illegal() {
    let protocol = handshake_protocol();
    let mut buffer = Buffer::new(vec![0x63], false, Some(ByteOrder::BigEndian));
    let result =
        protocol.decode_packet(&mut buffer, PacketState::Handshaking, PacketDirection::Serverbound);
    assert!(matches!(result, Err(Error::IllegalPacket(0x63, ref lit)) if lit == "1.16.5"));
}

#[test]
fn packet_ids_are_scoped_to_state_and_direction() {
    let protocol = handshake_protocol();
    let mut buffer = Buffer::new(vec![0x00], false, Some(ByteOrder::BigEndian));
    let result =
        protocol.decode_packet(&mut buffer, PacketState::Play, PacketDirection::Serverbound);
    assert!(matches!(result, Err(Error::IllegalPacket(0, _))));
}

#[test]
fn fields_read_one_value_per_declared_type() {
    let mut buffer = Buffer::new(vec![0xFF, 0x00, 0x2A], false, Some(ByteOrder::BigEndian));
    assert!(matches!(read_field(&mut buffer, FieldType::I8).unwrap(), FieldValue::I8(-1)));
    assert!(matches!(read_field(&mut buffer, FieldType::U16).unwrap(), FieldValue::U16(42)));
    assert!(matches!(read_field(&mut buffer, FieldType::U8), Err(Error::OutOfBounds(3, 3))));
}
