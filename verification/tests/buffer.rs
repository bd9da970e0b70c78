use minerust::network::buffer::Buffer;
use minerust::network::{ByteOrder, Error};

#[test]
fn varint_round_trip_small_values() {
    for value in [0i32, 1, 127, 128, 16383, 16384] {
        let mut buffer = Buffer::empty(true, None);
        buffer.write_var_i32(value).unwrap();
        buffer.reset();
        assert_eq!(buffer.read_var_i32().unwrap(), value);
    }
}

#[test]
fn varint_encoded_byte_counts() {
    let cases: [(i32, usize); 9] = [
        (0, 1),
        (1, 1),
        (127, 1),
        (128, 2),
        (16383, 2),
        (16384, 3),
        (i32::MAX, 5),
        (-1, 5),
        (i32::MIN, 5),
    ];
    for (value, count) in cases {
        let mut buffer = Buffer::empty(true, None);
        buffer.write_var_i32(value).unwrap();
        assert_eq!(buffer.to_bytes().len(), count, "byte count for {value}");
        assert_eq!(buffer.position(), count);
    }
}

#[test]
fn varint_known_encodings() {
    let mut buffer = Buffer::empty(true, None);
    buffer.write_var_i32(300).unwrap();
    assert_eq!(buffer.to_bytes(), vec![0xAC, 0x02]);

    let mut buffer = Buffer::empty(true, None);
    buffer.write_var_i32(127).unwrap();
    assert_eq!(buffer.to_bytes(), vec![0x7F]);

    let mut buffer = Buffer::empty(true, None);
    buffer.write_var_i32(128).unwrap();
    assert_eq!(buffer.to_bytes(), vec![0x80, 0x01]);

    let mut buffer = Buffer::empty(true, None);
    buffer.write_var_i32(-1).unwrap();
    assert_eq!(buffer.to_bytes(), vec![0xFF, 0xFF, 0xFF, 0xFF, 0x0F]);
}

#[test]
fn varint_decoder_stops_after_four_groups() {
    // The encoding of -1 takes five groups; the decoder reads at most
    // four, so it takes back only the low 28 bits and leaves the fifth
    // byte unread.
    let mut buffer = Buffer::new(vec![0xFF, 0xFF, 0xFF, 0xFF, 0x0F], false, None);
    assert_eq!(buffer.read_var_i32().unwrap(), 0x0FFF_FFFF);
    assert_eq!(buffer.position(), 4);
}

#[test]
fn fixed_width_round_trips_little_endian() {
    let mut buffer = Buffer::empty(true, Some(ByteOrder::LittleEndian));
    buffer.write_u16(0x1234).unwrap();
    assert_eq!(buffer.to_bytes(), vec![0x34, 0x12]);
    buffer.write_u32(0xDEAD_BEEF).unwrap();
    buffer.write_u64(0x0102_0304_0506_0708).unwrap();
    buffer.write_i8(-5).unwrap();
    buffer.write_i16(-2).unwrap();
    buffer.write_i32(-100_000).unwrap();
    buffer.write_i64(i64::MIN).unwrap();
    buffer.reset();
    assert_eq!(buffer.read_u16().unwrap(), 0x1234);
    assert_eq!(buffer.read_u32().unwrap(), 0xDEAD_BEEF);
    assert_eq!(buffer.read_u64().unwrap(), 0x0102_0304_0506_0708);
    assert_eq!(buffer.read_i8().unwrap(), -5);
    assert_eq!(buffer.read_i16().unwrap(), -2);
    assert_eq!(buffer.read_i32().unwrap(), -100_000);
    assert_eq!(buffer.read_i64().unwrap(), i64::MIN);
}

#[test]
fn fixed_width_round_trips_big_endian() {
    let mut buffer = Buffer::empty(true, Some(ByteOrder::BigEndian));
    buffer.write_u16(0x1234).unwrap();
    assert_eq!(buffer.to_bytes(), vec![0x12, 0x34]);
    buffer.write_i32(-7).unwrap();
    buffer.reset();
    assert_eq!(buffer.read_u16().unwrap(), 0x1234);
    assert_eq!(buffer.read_i32().unwrap(), -7);
}

#[test]
fn fixed_width_round_trips_native_order() {
    // With no explicit order both sides use the machine's own, so a write
    // followed by a read at the same spot must agree with itself.
    let mut buffer = Buffer::empty(true, None);
    buffer.write_u16(0xABCD).unwrap();
    buffer.reset();
    assert_eq!(buffer.read_u16().unwrap(), 0xABCD);
}

#[test]
fn position_tracks_bytes_written_and_read() {
    let mut buffer = Buffer::empty(true, Some(ByteOrder::BigEndian));
    buffer.write_u8(7).unwrap();
    assert_eq!(buffer.position(), 1);
    buffer.write_u16(0x0102).unwrap();
    assert_eq!(buffer.position(), 3);
    buffer.write_var_i32(300).unwrap();
    assert_eq!(buffer.position(), 5);
    buffer.write_str("ab").unwrap();
    assert_eq!(buffer.position(), 8);
    buffer.write_all(vec![0x2A]).unwrap();
    assert_eq!(buffer.position(), 9);
    assert_eq!(buffer.to_bytes().len(), 9);
    buffer.reset();
    assert_eq!(buffer.position(), 0);
    buffer.read_u8().unwrap();
    buffer.read_u16().unwrap();
    buffer.read_var_i32().unwrap();
    buffer.read_string().unwrap();
    assert_eq!(buffer.read_u8().unwrap(), 0x2A);
    assert_eq!(buffer.position(), 9);
}

#[test]
fn string_round_trip_ascii_and_multibyte() {
    for text in ["hello", "", "h\u{e9}llo \u{4e16}\u{754c}"] {
        let mut buffer = Buffer::empty(true, Some(ByteOrder::BigEndian));
        buffer.write_str(text).unwrap();
        buffer.reset();
        assert_eq!(buffer.read_string().unwrap(), text);
    }
}

#[test]
fn string_encoding_is_length_prefixed_utf8() {
    let mut buffer = Buffer::empty(true, None);
    buffer.write_string(String::from("h\u{e9}")).unwrap();
    // 'h' is one byte, 'é' two: a var-int length of 3, then the bytes.
    assert_eq!(buffer.to_bytes(), vec![0x03, b'h', 0xC3, 0xA9]);
}

#[test]
fn string_invalid_utf8_is_a_decode_error() {
    // A two-byte payload that is not valid UTF-8.
    let mut buffer = Buffer::new(vec![0x02, 0xFF, 0xFE], false, None);
    let result = buffer.read_string();
    assert!(matches!(result, Err(Error::Other(_))));
}

#[test]
fn not_writable_buffer_rejects_every_write() {
    let mut buffer = Buffer::empty(false, None);
    assert!(matches!(buffer.write_u8(1), Err(Error::NotWritable(ref s)) if s == "Buffer"));
    assert!(matches!(buffer.write_u16(1), Err(Error::NotWritable(_))));
    assert!(matches!(buffer.write_u32(1), Err(Error::NotWritable(_))));
    assert!(matches!(buffer.write_u64(1), Err(Error::NotWritable(_))));
    assert!(matches!(buffer.write_i8(1), Err(Error::NotWritable(_))));
    assert!(matches!(buffer.write_i16(1), Err(Error::NotWritable(_))));
    assert!(matches!(buffer.write_i32(1), Err(Error::NotWritable(_))));
    assert!(matches!(buffer.write_i64(1), Err(Error::NotWritable(_))));
    assert!(matches!(buffer.write_var_i32(1), Err(Error::NotWritable(_))));
    assert!(matches!(buffer.write_str("x"), Err(Error::NotWritable(_))));
    assert!(matches!(buffer.write_string(String::from("x")), Err(Error::NotWritable(_))));
    assert!(matches!(buffer.write_all(vec![1, 2]), Err(Error::NotWritable(_))));
    assert_eq!(buffer.position(), 0);
    assert_eq!(buffer.to_bytes(), Vec::<u8>::new());
}

#[test]
fn reading_past_the_end_is_out_of_bounds() {
    let mut buffer = Buffer::new(vec![1, 2], false, None);
    assert_eq!(buffer.read_u8().unwrap(), 1);
    assert_eq!(buffer.read_u8().unwrap(), 2);
    assert_eq!(buffer.read_u8(), Err(Error::OutOfBounds(2, 2)));
    assert_eq!(buffer.position(), 2);
}

#[test]
fn partial_read_past_the_end_is_out_of_bounds() {
    let mut buffer = Buffer::new(vec![1, 2], false, None);
    assert_eq!(buffer.read_u32(), Err(Error::OutOfBounds(2, 2)));
    assert_eq!(buffer.position(), 2);
    buffer.reset();
    assert!(matches!(buffer.read_var_i32(), Ok(_)));
}

#[test]
fn buffer_metadata_and_lifecycle() {
    let mut buffer = Buffer::new(vec![9, 8], true, Some(ByteOrder::LittleEndian));
    assert_eq!(buffer.byte_order(), Some(ByteOrder::LittleEndian));
    assert!(buffer.writable());
    let copy = buffer.cloned_metadata();
    assert_eq!(copy.byte_order(), Some(ByteOrder::LittleEndian));
    assert!(copy.writable());
    assert_eq!(copy.to_bytes(), Vec::<u8>::new());
    assert_eq!(copy.position(), 0);

    buffer.set_position(1);
    assert_eq!(buffer.position(), 1);
    buffer.clear();
    assert_eq!(buffer.to_bytes(), Vec::<u8>::new());
    assert_eq!(buffer.position(), 0);

    let mut buffer = Buffer::empty(true, None);
    buffer.write_all(vec![1, 2, 3]).unwrap();
    assert_eq!(buffer.to_bytes(), vec![1, 2, 3]);
    assert_eq!(buffer.position(), 3);
}

#[test]
fn error_values_carry_their_payloads() {
    let e = Error::IoError(String::from("connection reset"));
    assert_eq!(e.clone(), Error::IoError(String::from("connection reset")));
    assert!(matches!(Error::NotReadable(String::from("empty")), Error::NotReadable(_)));
    assert_ne!(Error::OutOfBounds(1, 2), Error::OutOfBounds(2, 2));
    assert!(matches!(Error::IllegalPacket(9, String::from("1.0")), Error::IllegalPacket(9, _)));
}
