use vcat_cli::shared::Vector;

#[test]
fn from_bytes_round_trip() {
    let bytes: Vec<u8> = vec![7, 0, 255, 3, 3];
    let v = Vector::from_bytes(bytes.clone());
    assert_eq!(v.len(), 5);
    assert_eq!(v.capacity(), 5);
    assert_eq!(v.as_slice(), bytes.as_slice());
    for i in 0..bytes.len() {
        assert_eq!(*v.get(i), bytes[i]);
    }
    v.destroy();
}

#[test]
fn from_bytes_empty() {
    let v: Vector<u8> = Vector::from_bytes(Vec::new());
    assert_eq!(v.len(), 0);
    assert_eq!(v.capacity(), 0);
    assert_eq!(v.as_slice(), &[] as &[u8]);
    v.destroy();
}

#[test]
fn construct_empty() {
    let v: Vector<u8> = Vector::new();
    assert_eq!(v.len(), 0);
    assert_eq!(v.capacity(), 0);
    v.destroy();
}

#[test]
fn appends_keep_every_element() {
    let mut v: Vector<u64> = Vector::new();
    for i in 0..100u64 {
        v.append(i * i);
    }
    assert_eq!(v.len(), 100);
    assert!(v.capacity() >= 100);
    for i in 0..100usize {
        assert_eq!(*v.get(i), (i * i) as u64);
    }
    v.destroy();
}

#[test]
fn append_all_keeps_order() {
    let mut v: Vector<u8> = Vector::from_bytes(vec![1, 2]);
    v.append_all(vec![3, 4, 5]);
    assert_eq!(v.len(), 5);
    assert!(v.capacity() >= 5);
    assert_eq!(v.as_slice(), &[1, 2, 3, 4, 5]);
    v.destroy();
}

#[test]
fn growth_policy_doubles_plus_three() {
    // From nothing, the capacity runs 0 -> 3 -> 9 -> 21 -> ...
    let mut v: Vector<u8> = Vector::new();
    v.append(1);
    assert_eq!(v.capacity(), 3);
    v.append(2);
    v.append(3);
    assert_eq!(v.capacity(), 3);
    v.append(4);
    assert_eq!(v.capacity(), 9);
    v.destroy();
}

#[test]
fn reserve_twice_reallocates_once() {
    let mut v: Vector<u8> = Vector::new();
    v.reserve(5);
    let after_first = v.capacity();
    assert!(after_first >= 5);
    // The second identical request is already satisfied: no reallocation,
    // nothing changes.
    v.reserve(5);
    assert_eq!(v.capacity(), after_first);
    assert_eq!(v.len(), 0);
    v.destroy();
}

#[test]
fn reserve_is_exact_over_contents() {
    let mut v: Vector<u8> = Vector::from_bytes(vec![9, 8, 7]);
    v.reserve(10);
    assert!(v.capacity() >= 13);
    assert_eq!(v.as_slice(), &[9, 8, 7]);
    let c = v.capacity();
    v.reserve(10);
    assert_eq!(v.capacity(), c);
    v.destroy();
}
