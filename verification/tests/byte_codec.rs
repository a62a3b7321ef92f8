use packed_array::array::{PackedArray, PackedByteArray};
use packed_array::errors::ArrayError;

fn zeroed(n: usize) -> PackedByteArray {
    let mut a = PackedArray::<u8>::new();
    a.resize(n);
    a
}

#[test]
fn u32_round_trip() {
    let mut a = zeroed(4);
    assert_eq!(a.encode_u32(0, 0xDEADBEEF), Ok(()));
    assert_eq!(a.decode_u32(0), Ok(0xDEADBEEF));
}

#[test]
fn u32_rejects_short_buffer() {
    let mut a = zeroed(3);
    assert_eq!(a.encode_u32(0, 0xDEADBEEF), Err(ArrayError::InsufficientSpace));
    assert_eq!(a.decode_u32(0), Err(ArrayError::InsufficientSpace));
    assert_eq!(a.to_vec(), vec![0, 0, 0]);
}

#[test]
fn u32_little_endian_bytes() {
    let mut a = zeroed(4);
    a.encode_u32(0, 0xDEADBEEF).unwrap();
    assert_eq!(a.to_vec(), vec![0xEF, 0xBE, 0xAD, 0xDE]);
}

#[test]
fn u8_round_trip_and_bounds() {
    let mut a = zeroed(2);
    assert_eq!(a.encode_u8(1, 0x7F), Ok(()));
    assert_eq!(a.decode_u8(1), Ok(0x7F));
    assert_eq!(a.encode_u8(2, 1), Err(ArrayError::InsufficientSpace));
}

#[test]
fn s8_round_trip() {
    let mut a = zeroed(1);
    assert_eq!(a.encode_s8(0, -5), Ok(()));
    assert_eq!(a.decode_s8(0), Ok(-5));
}

#[test]
fn u16_round_trip_at_offset() {
    let mut a = zeroed(8);
    assert_eq!(a.encode_u16(3, 0xABCD), Ok(()));
    assert_eq!(a.decode_u16(3), Ok(0xABCD));
    assert_eq!(a.encode_u16(7, 1), Err(ArrayError::InsufficientSpace));
}

#[test]
fn s16_round_trip() {
    let mut a = zeroed(2);
    assert_eq!(a.encode_s16(0, -12345), Ok(()));
    assert_eq!(a.decode_s16(0), Ok(-12345));
}

#[test]
fn s32_round_trip() {
    let mut a = zeroed(4);
    assert_eq!(a.encode_s32(0, -2_000_000_000), Ok(()));
    assert_eq!(a.decode_s32(0), Ok(-2_000_000_000));
}

#[test]
fn u64_round_trip() {
    let mut a = zeroed(8);
    assert_eq!(a.encode_u64(0, 0x0123_4567_89AB_CDEF), Ok(()));
    assert_eq!(a.decode_u64(0), Ok(0x0123_4567_89AB_CDEF));
}

#[test]
fn s64_round_trip() {
    let mut a = zeroed(9);
    assert_eq!(a.encode_s64(1, i64::MIN), Ok(()));
    assert_eq!(a.decode_s64(1), Ok(i64::MIN));
    assert_eq!(a.encode_s64(2, 0), Err(ArrayError::InsufficientSpace));
}

#[test]
fn encode_leaves_neighbours_alone() {
    let mut a = PackedArray::from_vec(vec![9u8, 9, 9, 9, 9, 9]);
    a.encode_u16(2, 0x0102).unwrap();
    assert_eq!(a.to_vec(), vec![9, 9, 0x02, 0x01, 9, 9]);
}

#[test]
fn offset_overflow_is_insufficient_space() {
    let mut a = zeroed(8);
    assert_eq!(
        a.encode_u32(usize::MAX, 1),
        Err(ArrayError::InsufficientSpace)
    );
    assert_eq!(a.decode_u32(usize::MAX), Err(ArrayError::InsufficientSpace));
}

#[test]
fn bytes_to_int32_array() {
    let a = PackedArray::from_vec(vec![0xEFu8, 0xBE, 0xAD, 0xDE, 1, 0, 0, 0]);
    let ints = a.to_int32_array();
    assert_eq!(ints.to_vec(), vec![0xDEADBEEFu32 as i32, 1]);
}

#[test]
fn bytes_to_int32_array_misaligned_is_empty() {
    let a = PackedArray::from_vec(vec![1u8, 2, 3]);
    assert!(a.to_int32_array().is_empty());
}

#[test]
fn bytes_to_int64_array() {
    let a = PackedArray::from_vec(vec![0xFFu8, 0xFF, 0xFF, 0xFF, 0xFF, 0xFF, 0xFF, 0xFF]);
    assert_eq!(a.to_int64_array().to_vec(), vec![-1i64]);
    let b = PackedArray::from_vec(vec![1u8, 2, 3, 4]);
    assert!(b.to_int64_array().is_empty());
}

#[test]
fn int32_array_to_bytes_and_back() {
    let ints = PackedArray::from_vec(vec![-2i32, 7]);
    let bytes = ints.to_byte_array();
    assert_eq!(bytes.len(), 8);
    assert_eq!(bytes.to_int32_array().to_vec(), vec![-2, 7]);
}

#[test]
fn int64_array_to_bytes_and_back() {
    let ints = PackedArray::from_vec(vec![i64::MIN, i64::MAX, 0]);
    let bytes = ints.to_byte_array();
    assert_eq!(bytes.len(), 24);
    assert_eq!(bytes.to_int64_array().to_vec(), vec![i64::MIN, i64::MAX, 0]);
}
