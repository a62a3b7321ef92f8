use packed_array::array::{PackedArray, PackedByteArray};
use packed_array::errors::ArrayError;
use packed_array::variant::Variant;

fn zeroed(n: usize) -> PackedByteArray {
    let mut a = PackedArray::<u8>::new();
    a.resize(n);
    a
}

#[test]
fn int_round_trip() {
    let mut a = zeroed(16);
    let written = a.encode_var(2, &Variant::Int(-42), false).unwrap();
    assert_eq!(written, 12);
    assert_eq!(a.decode_var(2, false), Ok((Variant::Int(-42), 12)));
}

#[test]
fn bool_round_trip() {
    let mut a = zeroed(8);
    assert_eq!(a.encode_var(0, &Variant::Bool(true), false), Ok(8));
    assert_eq!(a.decode_var(0, false), Ok((Variant::Bool(true), 8)));
    assert_eq!(a.encode_var(0, &Variant::Bool(false), false), Ok(8));
    assert_eq!(a.decode_var(0, false), Ok((Variant::Bool(false), 8)));
}

#[test]
fn nil_decodes_as_failure() {
    let mut a = zeroed(4);
    assert_eq!(a.encode_var(0, &Variant::Nil, false), Ok(4));
    assert_eq!(a.decode_var(0, false), Err(ArrayError::DecodeFailure));
    // Zeroed memory reads back as an encoded Nil, indistinguishable from one.
    let z = zeroed(4);
    assert_eq!(z.decode_var(0, false), Err(ArrayError::DecodeFailure));
}

#[test]
fn allow_nil_reads_nil_with_size() {
    let mut a = zeroed(4);
    a.encode_var(0, &Variant::Nil, false).unwrap();
    assert_eq!(a.decode_var_allow_nil(0, false), (Variant::Nil, 4));
}

#[test]
fn object_requires_opt_in() {
    let mut a = zeroed(12);
    assert_eq!(a.encode_var(0, &Variant::Object(0xABCD), false), Ok(12));
    assert_eq!(a.decode_var(0, false), Err(ArrayError::DecodeFailure));
    assert_eq!(a.decode_var(0, true), Ok((Variant::Object(0xABCD), 12)));
    assert_eq!(a.decode_var_allow_nil(0, false), (Variant::Nil, 12));
    assert_eq!(a.decode_var_allow_nil(0, true), (Variant::Object(0xABCD), 12));
}

#[test]
fn encode_needs_room() {
    let mut a = zeroed(11);
    assert_eq!(
        a.encode_var(0, &Variant::Int(1), false),
        Err(ArrayError::EncodeFailure)
    );
    assert_eq!(a.encode_var(8, &Variant::Bool(true), false), Err(ArrayError::EncodeFailure));
    assert_eq!(a.to_vec(), vec![0; 11]);
}

#[test]
fn decode_garbage_tag_fails() {
    let mut a = zeroed(8);
    a.encode_u32(0, 999).unwrap();
    assert_eq!(a.decode_var(0, true), Err(ArrayError::DecodeFailure));
    assert_eq!(a.decode_var_allow_nil(0, true), (Variant::Nil, 0));
}

#[test]
fn decode_truncated_payload_fails() {
    let mut a = zeroed(6);
    a.encode_u32(0, 2).unwrap(); // an integer tag with no full payload
    assert_eq!(a.decode_var(0, false), Err(ArrayError::DecodeFailure));
    assert_eq!(a.decode_var_allow_nil(0, false), (Variant::Nil, 0));
}
