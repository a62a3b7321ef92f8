use packed_array::array::{copy_and_push, vec_round_trip, PackedArray, PackedByteArray};
use packed_array::errors::ArrayError;

#[test]
fn new_array_is_empty() {
    let a = PackedArray::<i32>::new();
    assert!(a.is_empty());
    assert_eq!(a.len(), 0);
}

#[test]
fn push_and_get() {
    let mut a = PackedArray::<i64>::new();
    a.push(10);
    a.push(20);
    assert_eq!(a.len(), 2);
    assert_eq!(a.get(0), Some(10));
    assert_eq!(a.get(1), Some(20));
    assert_eq!(a.get(2), None);
}

#[test]
fn get_bounds() {
    let a = PackedArray::from_vec(vec![1i32, 2, 3]);
    assert_eq!(a.get(0), Some(1));
    assert_eq!(a.get(2), Some(3));
    assert_eq!(a.get(3), None);
    assert_eq!(a.get(usize::MAX), None);
}

#[test]
fn vec_round_trip_preserves_elements() {
    let v = vec![5u8, 4, 3, 2, 1];
    let r = vec_round_trip(v.clone());
    assert_eq!(r, v);
}

#[test]
fn vec_round_trip_empty() {
    let r = vec_round_trip(Vec::<i64>::new());
    assert!(r.is_empty());
}

#[test]
fn from_vec_to_vec() {
    let a = PackedArray::from_vec(vec![7i64, 8, 9]);
    assert_eq!(a.to_vec(), vec![7, 8, 9]);
}

#[test]
fn clone_is_independent() {
    let a = PackedArray::from_vec(vec![1i32, 2, 3]);
    let mut b = a.clone();
    b.push(4);
    b.set(0, 100);
    assert_eq!(a.len(), 3);
    assert_eq!(a.to_vec(), vec![1, 2, 3]);
    assert_eq!(b.to_vec(), vec![100, 2, 3, 4]);
}

#[test]
fn copy_and_push_leaves_source() {
    let a = PackedArray::from_vec(vec![9u8, 8]);
    let b = copy_and_push(&a, 7);
    assert_eq!(a.to_vec(), vec![9, 8]);
    assert_eq!(b.to_vec(), vec![9, 8, 7]);
}

#[test]
fn insert_at_end_appends() {
    let mut a = PackedArray::from_vec(vec![1i32, 2]);
    a.insert(2, 3);
    assert_eq!(a.to_vec(), vec![1, 2, 3]);
}

#[test]
fn insert_shifts() {
    let mut a = PackedArray::from_vec(vec![1i32, 3]);
    a.insert(1, 2);
    assert_eq!(a.to_vec(), vec![1, 2, 3]);
}

#[test]
fn try_insert_bounds() {
    let mut a = PackedArray::from_vec(vec![1i32, 2]);
    assert_eq!(a.try_insert(2, 3), Ok(()));
    assert_eq!(
        a.try_insert(4, 9),
        Err(ArrayError::OutOfBounds { index: 4, length: 3 })
    );
    assert_eq!(a.to_vec(), vec![1, 2, 3]);
}

#[test]
fn remove_returns_element() {
    let mut a = PackedArray::from_vec(vec![10i64, 20, 30]);
    let e = a.remove(1);
    assert_eq!(e, 20);
    assert_eq!(a.to_vec(), vec![10, 30]);
}

#[test]
fn try_remove_bounds() {
    let mut a = PackedArray::from_vec(vec![10i64, 20]);
    assert_eq!(a.try_remove(1), Ok(20));
    assert_eq!(
        a.try_remove(1),
        Err(ArrayError::OutOfBounds { index: 1, length: 1 })
    );
    assert_eq!(a.to_vec(), vec![10]);
}

#[test]
fn set_and_try_set() {
    let mut a = PackedArray::from_vec(vec![0u8, 0]);
    a.set(1, 9);
    assert_eq!(a.to_vec(), vec![0, 9]);
    assert_eq!(
        a.try_set(2, 1),
        Err(ArrayError::OutOfBounds { index: 2, length: 2 })
    );
    assert_eq!(a.try_set(0, 8), Ok(()));
    assert_eq!(a.to_vec(), vec![8, 9]);
}

#[test]
fn fill_overwrites_all() {
    let mut a = PackedArray::from_vec(vec![1i32, 2, 3]);
    a.fill(&7);
    assert_eq!(a.to_vec(), vec![7, 7, 7]);
}

#[test]
fn resize_grows_with_defaults_and_shrinks() {
    let mut a = PackedArray::from_vec(vec![5i64, 6]);
    a.resize(4);
    assert_eq!(a.to_vec(), vec![5, 6, 0, 0]);
    a.resize(1);
    assert_eq!(a.to_vec(), vec![5]);
    a.resize(0);
    assert!(a.is_empty());
}

#[test]
fn clear_empties() {
    let mut a = PackedArray::from_vec(vec![1u8, 2]);
    a.clear();
    assert!(a.is_empty());
}

#[test]
fn extend_array_appends_all() {
    let mut a = PackedArray::from_vec(vec![1i32, 2]);
    let b = PackedArray::from_vec(vec![3i32, 4, 5]);
    a.extend_array(&b);
    assert_eq!(a.to_vec(), vec![1, 2, 3, 4, 5]);
    assert_eq!(b.to_vec(), vec![3, 4, 5]);
}

#[test]
fn subarray_clamps() {
    let a = PackedArray::from_vec(vec![0i32, 1, 2, 3, 4]);
    let s = a.subarray(3, 100);
    assert_eq!(s.to_vec(), vec![3, 4]);
}

#[test]
fn subarray_plain_and_crossed() {
    let a = PackedArray::from_vec(vec![0i32, 1, 2, 3, 4]);
    assert_eq!(a.subarray(1, 3).to_vec(), vec![1, 2]);
    assert_eq!(a.subarray(3, 3).len(), 0);
    assert_eq!(a.subarray(4, 2).len(), 0);
    assert_eq!(a.subarray(9, 12).len(), 0);
}

#[test]
fn find_maps_sentinels() {
    let a = PackedArray::from_vec(vec![1i32, 2, 3]);
    assert_eq!(a.find(&5, None), None);
    assert_eq!(a.find(&2, None), Some(1));
}

#[test]
fn find_from_position() {
    let a = PackedArray::from_vec(vec![2i32, 1, 2, 1]);
    assert_eq!(a.find(&2, Some(1)), Some(2));
    assert_eq!(a.find(&2, Some(3)), None);
    assert_eq!(a.find(&2, Some(100)), None);
}

#[test]
fn rfind_finds_last() {
    let a = PackedArray::from_vec(vec![2i32, 2, 2]);
    assert_eq!(a.rfind(&2, None), Some(2));
    assert_eq!(a.rfind(&2, Some(1)), Some(1));
    assert_eq!(a.rfind(&9, None), None);
}

#[test]
fn bsearch_insertion_index() {
    let a = PackedArray::from_vec(vec![10i64, 20, 30]);
    assert_eq!(a.bsearch(&20), 1);
    assert_eq!(a.bsearch(&5), 0);
    assert_eq!(a.bsearch(&25), 2);
    assert_eq!(a.bsearch(&99), 3);
}

#[test]
fn contains_and_count() {
    let a = PackedArray::from_vec(vec![1u8, 2, 2, 3]);
    assert!(a.contains(&2));
    assert!(!a.contains(&9));
    assert_eq!(a.count(&2), 2);
    assert_eq!(a.count(&9), 0);
}

#[test]
fn reverse_reverses() {
    let mut a = PackedArray::from_vec(vec![1i32, 2, 3]);
    a.reverse();
    assert_eq!(a.to_vec(), vec![3, 2, 1]);
}

#[test]
fn sort_orders_ascending() {
    let mut a = PackedArray::from_vec(vec![3i32, 1, 2]);
    a.sort();
    assert_eq!(a.to_vec(), vec![1, 2, 3]);
}

#[test]
fn sort_sorted_is_noop() {
    let mut a = PackedArray::from_vec(vec![1i32, 2, 3]);
    a.sort();
    assert_eq!(a.to_vec(), vec![1, 2, 3]);
}

#[test]
fn sort_with_duplicates() {
    let mut a = PackedArray::from_vec(vec![5u8, 1, 5, 0, 1]);
    a.sort();
    assert_eq!(a.to_vec(), vec![0, 1, 1, 5, 5]);
}

#[test]
fn equals_is_element_wise() {
    let a = PackedArray::from_vec(vec![1i64, 2]);
    let b = PackedArray::from_vec(vec![1i64, 2]);
    let c = PackedArray::from_vec(vec![1i64, 3]);
    let d = PackedArray::from_vec(vec![1i64]);
    assert!(a.equals(&b));
    assert!(!a.equals(&c));
    assert!(!a.equals(&d));
}

#[test]
fn as_slice_views_all() {
    let a: PackedByteArray = PackedArray::from_vec(vec![1u8, 2, 3]);
    assert_eq!(a.as_slice(), &[1, 2, 3]);
}

#[test]
fn default_is_empty() {
    let a: PackedArray<u8> = Default::default();
    assert!(a.is_empty());
}

#[test]
fn operator_eq_matches_equals() {
    let a = PackedArray::from_vec(vec![1i32, 2]);
    let b = PackedArray::from_vec(vec![1i32, 2]);
    let c = PackedArray::from_vec(vec![2i32, 1]);
    assert!(a == b);
    assert!(a != c);
}
