use packed_array::array::{PackedArray, PackedByteArray};
use packed_array::compress::CompressionMode;
use packed_array::errors::ArrayError;

fn bytes(v: Vec<u8>) -> PackedByteArray {
    PackedArray::from_vec(v)
}

#[test]
fn round_trip_run_length() {
    let data = vec![7u8, 7, 7, 0, 1, 1, 9];
    let a = bytes(data.clone());
    let c = a.compress(CompressionMode::RunLength).unwrap();
    let d = c.decompress(data.len(), CompressionMode::RunLength).unwrap();
    assert_eq!(d.to_vec(), data);
}

#[test]
fn round_trip_stored() {
    let data = vec![1u8, 2, 3];
    let a = bytes(data.clone());
    let c = a.compress(CompressionMode::Stored).unwrap();
    let d = c.decompress(data.len(), CompressionMode::Stored).unwrap();
    assert_eq!(d.to_vec(), data);
}

#[test]
fn compress_empty_reports_failure() {
    // The documented ambiguity: an empty result also signals failure, so
    // compressing empty data is reported as one, in every mode.
    let a = bytes(vec![]);
    assert!(matches!(a.compress(CompressionMode::Stored), Err(ArrayError::EncodeFailure)));
    assert!(matches!(a.compress(CompressionMode::RunLength), Err(ArrayError::EncodeFailure)));
}

#[test]
fn run_length_packs_runs() {
    let a = bytes(vec![5u8; 300]);
    let c = a.compress(CompressionMode::RunLength).unwrap();
    // One full run of 255 and one of 45.
    assert_eq!(c.to_vec(), vec![255, 5, 45, 5]);
}

#[test]
fn decompress_wrong_buffer_size_fails() {
    let a = bytes(vec![1u8, 1, 2]);
    let c = a.compress(CompressionMode::RunLength).unwrap();
    assert!(matches!(
        c.decompress(2, CompressionMode::RunLength),
        Err(ArrayError::DecodeFailure)
    ));
    assert!(matches!(
        c.decompress(0, CompressionMode::RunLength),
        Err(ArrayError::DecodeFailure)
    ));
}

#[test]
fn decompress_damaged_stream_fails() {
    let half_pair = bytes(vec![3u8]);
    assert!(matches!(
        half_pair.decompress(3, CompressionMode::RunLength),
        Err(ArrayError::DecodeFailure)
    ));
    let zero_count = bytes(vec![0u8, 9]);
    assert!(matches!(
        zero_count.decompress(1, CompressionMode::RunLength),
        Err(ArrayError::DecodeFailure)
    ));
}

#[test]
fn decompress_dynamic_unbounded() {
    let data = vec![4u8, 4, 4, 4, 8];
    let c = bytes(data.clone()).compress(CompressionMode::RunLength).unwrap();
    let d = c.decompress_dynamic(None, CompressionMode::RunLength).unwrap();
    assert_eq!(d.to_vec(), data);
}

#[test]
fn decompress_dynamic_respects_cap() {
    let data = vec![4u8; 100];
    let c = bytes(data.clone()).compress(CompressionMode::RunLength).unwrap();
    assert!(matches!(
        c.decompress_dynamic(Some(99), CompressionMode::RunLength),
        Err(ArrayError::DecodeFailure)
    ));
    let d = c
        .decompress_dynamic(Some(100), CompressionMode::RunLength)
        .unwrap();
    assert_eq!(d.to_vec(), data);
}

#[test]
fn decompress_dynamic_stored() {
    let data = vec![9u8, 9];
    let a = bytes(data.clone());
    let d = a.decompress_dynamic(Some(2), CompressionMode::Stored).unwrap();
    assert_eq!(d.to_vec(), data);
    assert!(matches!(
        a.decompress_dynamic(Some(1), CompressionMode::Stored),
        Err(ArrayError::DecodeFailure)
    ));
}
