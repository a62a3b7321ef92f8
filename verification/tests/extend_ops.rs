use packed_array::array::PackedArray;
use packed_array::errors::ArrayError;
use packed_array::extend::{ExtendBuffer, VecProducer};
use packed_array::strings::PackedString;

#[test]
fn extend_with_accurate_bound() {
    let mut a = PackedArray::from_vec(vec![1i32, 2]);
    let mut p = VecProducer::new(vec![3i32, 4, 5]);
    assert_eq!(a.extend_from_producer(&mut p), Ok(()));
    assert_eq!(a.to_vec(), vec![1, 2, 3, 4, 5]);
}

#[test]
fn extend_empty_producer() {
    let mut a = PackedArray::from_vec(vec![1i64]);
    let mut p = VecProducer::new(Vec::<i64>::new());
    assert_eq!(a.extend_from_producer(&mut p), Ok(()));
    assert_eq!(a.to_vec(), vec![1]);
}

#[test]
fn extend_with_zero_bound_still_appends_all() {
    let mut a = PackedArray::<u8>::new();
    let mut p = VecProducer::with_claim(vec![9u8, 8, 7], 0);
    assert_eq!(a.extend_from_producer(&mut p), Ok(()));
    assert_eq!(a.to_vec(), vec![9, 8, 7]);
}

#[test]
fn extend_with_understated_bound() {
    let mut a = PackedArray::<i32>::new();
    let mut p = VecProducer::with_claim(vec![1i32, 2, 3, 4], 2);
    assert_eq!(a.extend_from_producer(&mut p), Ok(()));
    assert_eq!(a.to_vec(), vec![1, 2, 3, 4]);
}

#[test]
fn extend_reports_overstated_bound() {
    let mut a = PackedArray::from_vec(vec![1i32]);
    let mut p = VecProducer::with_claim(vec![2i32, 3], 5);
    assert_eq!(
        a.extend_from_producer(&mut p),
        Err(ArrayError::ProducerContractViolation)
    );
    // The yielded elements are kept all the same, never silently dropped.
    assert_eq!(a.to_vec(), vec![1, 2, 3]);
}

#[test]
fn extend_reports_absurd_bound() {
    let mut a = PackedArray::<u8>::new();
    let mut p = VecProducer::with_claim(vec![1u8, 2], usize::MAX);
    assert_eq!(
        a.extend_from_producer(&mut p),
        Err(ArrayError::ProducerContractViolation)
    );
    assert_eq!(a.to_vec(), vec![1, 2]);
}

#[test]
fn extend_crosses_staging_batches() {
    // A zero bound forces the staged slow path; 5000 bytes cross several
    // staging-buffer commits.
    let items: Vec<u8> = (0..5000u32).map(|i| (i % 251) as u8).collect();
    let mut a = PackedArray::<u8>::new();
    let mut p = VecProducer::with_claim(items.clone(), 0);
    assert_eq!(a.extend_from_producer(&mut p), Ok(()));
    assert_eq!(a.to_vec(), items);
}

#[test]
fn extend_fast_path_large() {
    let items: Vec<i64> = (0..3000i64).collect();
    let mut a = PackedArray::<i64>::new();
    let mut p = VecProducer::new(items.clone());
    assert_eq!(a.extend_from_producer(&mut p), Ok(()));
    assert_eq!(a.to_vec(), items);
}

#[test]
fn from_producer_collects() {
    let mut p = VecProducer::new(vec![4u8, 5]);
    let a = match PackedArray::from_producer(&mut p) {
        Ok(a) => a,
        Err(_) => panic!("producer was accurate"),
    };
    assert_eq!(a.to_vec(), vec![4, 5]);
}

#[test]
fn from_producer_reports_violation() {
    let mut p = VecProducer::with_claim(vec![4u8], 3);
    assert!(matches!(
        PackedArray::<u8>::from_producer(&mut p),
        Err(ArrayError::ProducerContractViolation)
    ));
}

#[test]
fn staging_buffer_stages_and_drains() {
    let mut buf = ExtendBuffer::<i64>::new();
    assert!(!buf.is_full());
    buf.push(1);
    buf.push(2);
    let staged = buf.drain();
    assert_eq!(staged, vec![1, 2]);
    assert!(!buf.is_full());
    assert!(buf.drain().is_empty());
}

#[test]
fn extend_strings_through_staging() {
    let items: Vec<PackedString> = (0..200u32)
        .map(|i| PackedString::from_bytes(format!("item-{i}").into_bytes()))
        .collect();
    let mut a = PackedArray::<PackedString>::new();
    let mut p = VecProducer::with_claim(items, 0);
    assert_eq!(a.extend_from_producer(&mut p), Ok(()));
    assert_eq!(a.len(), 200);
    assert_eq!(a.get(199).unwrap().as_bytes(), b"item-199");
}
