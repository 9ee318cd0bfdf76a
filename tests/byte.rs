use gnet::byte::{ByteSerialize, SerializationError};

#[test]
fn u32_serializes() {
    let value: u32 = 0xDEAD_BEEF;
    let mut bytes = [0; 4];

    assert_eq!(value.byte_count(), 4);

    value.to_bytes(&mut bytes);

    // We expect the serialized version to be little-endian.
    assert_eq!(bytes, [0xEF, 0xBE, 0xAD, 0xDE]);

    let (deserialized, byte_count) = u32::from_bytes(&bytes).unwrap();

    assert_eq!(byte_count, 4);
    assert_eq!(value, deserialized);
}

#[test]
fn u16_and_u64_serialize_little_endian() {
    let mut bytes = [0xFF; 10];
    0x1234u16.to_bytes(&mut bytes);
    assert_eq!(&bytes[..3], &[0x34, 0x12, 0xFF]);
    0x0102_0304_0506_0708u64.to_bytes(&mut bytes);
    assert_eq!(&bytes[..9], &[8, 7, 6, 5, 4, 3, 2, 1, 0xFF]);
    assert_eq!(u64::from_bytes(&bytes).unwrap(), (0x0102_0304_0506_0708, 8));
    assert_eq!(u16::from_bytes(&bytes[..2]).unwrap(), (0x0708, 2));
}

#[test]
fn bool_serializes_as_one_byte() {
    let mut bytes = [0xFF; 2];
    true.to_bytes(&mut bytes);
    assert_eq!(bytes, [0x01, 0xFF]);
    false.to_bytes(&mut bytes[1..]);
    assert_eq!(bytes, [0x01, 0x00]);
    assert_eq!(bool::from_bytes(&bytes).unwrap(), (true, 1));
    assert_eq!(bool::from_bytes(&bytes[1..]).unwrap(), (false, 1));
    assert_eq!(bool::from_bytes(&[7]).unwrap(), (true, 1));
}

#[test]
fn short_buffer_is_an_overflow() {
    assert_eq!(u32::from_bytes(&[1, 2, 3]), Err(SerializationError::BufferOverflow));
    assert_eq!(u8::from_bytes(&[]), Err(SerializationError::BufferOverflow));
    assert_eq!(bool::from_bytes(&[]), Err(SerializationError::BufferOverflow));
    assert_eq!(u64::from_bytes(&[0; 7]), Err(SerializationError::BufferOverflow));
}

#[test]
fn single_element_tuple_serializes() {
    let value: (u32,) = (0xDEAD_BEEF,);
    let mut bytes = [0xFF; 4];

    assert_eq!(value.byte_count(), 4);

    value.to_bytes(&mut bytes);

    assert_eq!(bytes, [0xEF, 0xBE, 0xAD, 0xDE]);

    let (deserialized, byte_count) = <(u32,)>::from_bytes(&bytes).unwrap();

    assert_eq!(byte_count, 4);
    assert_eq!(value, deserialized);
}

#[test]
fn signed_integers_serialize_twos_complement() {
    let mut bytes = [0u8; 8];
    (-2i32).to_bytes(&mut bytes);
    assert_eq!(&bytes[..4], &[0xFE, 0xFF, 0xFF, 0xFF]);
    assert_eq!(i32::from_bytes(&bytes).unwrap(), (-2, 4));
    (-1i8).to_bytes(&mut bytes);
    assert_eq!(bytes[0], 0xFF);
    assert_eq!(i8::from_bytes(&bytes).unwrap(), (-1, 1));
    i64::MIN.to_bytes(&mut bytes);
    assert_eq!(bytes, [0, 0, 0, 0, 0, 0, 0, 0x80]);
    assert_eq!(i64::from_bytes(&bytes).unwrap(), (i64::MIN, 8));
    (-300i16).to_bytes(&mut bytes);
    assert_eq!(i16::from_bytes(&bytes).unwrap(), (-300, 2));
}

#[test]
fn wide_and_unit_values_serialize() {
    let mut bytes = [0xAA; 16];
    (0x0102_0304_0506_0708usize).to_bytes(&mut bytes);
    assert_eq!(&bytes[..9], &[8, 7, 6, 5, 4, 3, 2, 1, 0xAA]);
    assert_eq!(usize::from_bytes(&bytes).unwrap(), (0x0102_0304_0506_0708, 8));
    (-5isize).to_bytes(&mut bytes);
    assert_eq!(&bytes[..8], &[0xFB, 0xFF, 0xFF, 0xFF, 0xFF, 0xFF, 0xFF, 0xFF]);
    assert_eq!(isize::from_bytes(&bytes).unwrap(), (-5, 8));
    u128::MAX.to_bytes(&mut bytes);
    assert_eq!(bytes, [0xFF; 16]);
    assert_eq!(u128::from_bytes(&bytes).unwrap(), (u128::MAX, 16));
    (-2i128).to_bytes(&mut bytes);
    assert_eq!(bytes[0], 0xFE);
    assert_eq!(i128::from_bytes(&bytes).unwrap(), (-2, 16));
    assert_eq!(().byte_count(), 0);
    ().to_bytes(&mut bytes);
    assert_eq!(<()>::from_bytes(&[]).unwrap(), ((), 0));
    assert_eq!(u128::from_bytes(&[0; 15]), Err(SerializationError::BufferOverflow));
}
