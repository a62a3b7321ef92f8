use packed_array::array::PackedArray;
use packed_array::strings::{PackedString, PackedStringArray};

fn s(text: &str) -> PackedString {
    PackedString::from_bytes(text.as_bytes().to_vec())
}

fn texts(a: &PackedStringArray) -> Vec<Vec<u8>> {
    a.to_vec().into_iter().map(|e| e.as_bytes().to_vec()).collect()
}

#[test]
fn push_and_get_strings() {
    let mut a = PackedArray::<PackedString>::new();
    a.push(s("hello"));
    a.push(s("world"));
    assert_eq!(a.len(), 2);
    assert_eq!(a.get(0).unwrap().as_bytes(), b"hello");
    assert_eq!(a.get(1).unwrap().as_bytes(), b"world");
}

#[test]
fn string_copy_is_independent() {
    let a = PackedArray::from_vec(vec![s("one"), s("two")]);
    let mut b = a.clone();
    b.set(0, s("other"));
    assert_eq!(texts(&a), vec![b"one".to_vec(), b"two".to_vec()]);
    assert_eq!(texts(&b), vec![b"other".to_vec(), b"two".to_vec()]);
}

#[test]
fn sort_strings_lexicographically() {
    let mut a = PackedArray::from_vec(vec![s("pear"), s("apple"), s("peach"), s("")]);
    a.sort();
    assert_eq!(
        texts(&a),
        vec![
            b"".to_vec(),
            b"apple".to_vec(),
            b"peach".to_vec(),
            b"pear".to_vec()
        ]
    );
}

#[test]
fn prefix_sorts_before_extension() {
    let mut a = PackedArray::from_vec(vec![s("abc"), s("ab")]);
    a.sort();
    assert_eq!(texts(&a), vec![b"ab".to_vec(), b"abc".to_vec()]);
}

#[test]
fn find_strings() {
    let a = PackedArray::from_vec(vec![s("x"), s("y"), s("x")]);
    assert_eq!(a.find(&s("x"), None), Some(0));
    assert_eq!(a.rfind(&s("x"), None), Some(2));
    assert_eq!(a.find(&s("z"), None), None);
    assert!(a.contains(&s("y")));
    assert_eq!(a.count(&s("x")), 2);
}

#[test]
fn bsearch_strings() {
    let a = PackedArray::from_vec(vec![s("a"), s("c"), s("e")]);
    assert_eq!(a.bsearch(&s("c")), 1);
    assert_eq!(a.bsearch(&s("b")), 1);
    assert_eq!(a.bsearch(&s("f")), 3);
}

#[test]
fn resize_fills_with_empty_strings() {
    let mut a = PackedArray::<PackedString>::new();
    a.resize(2);
    assert_eq!(texts(&a), vec![Vec::<u8>::new(), Vec::<u8>::new()]);
}

#[test]
fn string_arrays_compare_element_wise() {
    let a = PackedArray::from_vec(vec![s("q")]);
    let b = PackedArray::from_vec(vec![s("q")]);
    let c = PackedArray::from_vec(vec![s("r")]);
    assert!(a == b);
    assert!(a != c);
}
