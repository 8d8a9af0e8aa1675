use lattice::bitpacked::BitpackedArray;
use lattice::lattice::bitpacked::BitpackedArray as FixedArray;

fn contents(a: &BitpackedArray) -> Vec<u32> {
    (0..a.len()).map(|i| a.get(i)).collect()
}

#[test]
fn push_grows_the_width() {
    let mut a = BitpackedArray::new();
    assert!(a.is_empty());
    assert_eq!(a.bits, 1);
    a.push(1);
    assert_eq!(a.bits, 1);
    a.push(3);
    assert_eq!(a.bits, 2);
    a.push(200);
    assert_eq!(a.bits, 8);
    a.push(5);
    assert_eq!(a.bits, 8);
    assert_eq!(a.len(), 4);
    assert_eq!(contents(&a), vec![1, 3, 200, 5]);
}

#[test]
fn push_many_values_reads_back() {
    let mut a = BitpackedArray::new();
    let mut expected = Vec::new();
    for i in 0..1000u32 {
        let v = (i * 37) % 300;
        a.push(v);
        expected.push(v);
    }
    assert_eq!(a.bits, 16);
    assert_eq!(contents(&a), expected);
}

#[test]
fn set_replaces_one_entry() {
    let mut a = BitpackedArray::new();
    for v in [1, 0, 1, 1] {
        a.push(v);
    }
    a.set(1, 70000);
    assert_eq!(a.bits, 32);
    assert_eq!(contents(&a), vec![1, 70000, 1, 1]);
    a.set(3, 0);
    assert_eq!(contents(&a), vec![1, 70000, 1, 0]);
}

#[test]
fn insert_and_remove_shift_entries() {
    let mut a = BitpackedArray::new();
    for v in [1, 3, 200] {
        a.push(v);
    }
    a.insert(0, 5);
    assert_eq!(contents(&a), vec![5, 1, 3, 200]);
    a.insert(4, 9);
    assert_eq!(contents(&a), vec![5, 1, 3, 200, 9]);
    assert_eq!(a.remove(2), 3);
    assert_eq!(contents(&a), vec![5, 1, 200, 9]);
    assert_eq!(a.len(), 4);
}

#[test]
fn remove_undoes_insert() {
    let mut a = BitpackedArray::new();
    for v in [7, 2, 9, 4] {
        a.push(v);
    }
    a.insert(2, 300);
    assert_eq!(a.remove(2), 300);
    assert_eq!(contents(&a), vec![7, 2, 9, 4]);
    let removed = a.remove(1);
    a.insert(1, removed);
    assert_eq!(contents(&a), vec![7, 2, 9, 4]);
}

#[test]
fn insert_into_empty_array() {
    let mut a = BitpackedArray::new();
    a.insert(0, 6);
    assert_eq!(contents(&a), vec![6]);
    assert_eq!(a.bits, 4);
}

#[test]
fn repack_keeps_values() {
    let mut a = BitpackedArray::new();
    for v in [1, 2, 3, 0, 2] {
        a.push(v);
    }
    assert_eq!(a.bits, 2);
    let wide = a.repack(8);
    assert_eq!(wide.bits, 8);
    assert_eq!(contents(&wide), vec![1, 2, 3, 0, 2]);
    let mut b = wide.clone();
    b.repack_in_place(32);
    assert_eq!(b.bits, 32);
    assert_eq!(contents(&b), vec![1, 2, 3, 0, 2]);
    b.repack_in_place(2);
    assert_eq!(b.bits, 2);
    assert_eq!(b.data.len(), 1);
    assert_eq!(contents(&b), vec![1, 2, 3, 0, 2]);
}

#[test]
fn clear_and_default_are_empty() {
    let mut a = BitpackedArray::new();
    a.push(40);
    a.clear();
    assert_eq!(a.len(), 0);
    assert_eq!(a.bits, 1);
    assert!(a.data.is_empty());
    let d = BitpackedArray::default();
    assert_eq!(d.len(), 0);
    assert_eq!(d.bits, 1);
}

#[test]
fn min_bits_is_the_least_power_of_two_width() {
    assert_eq!(BitpackedArray::min_bits(0), 1);
    assert_eq!(BitpackedArray::min_bits(1), 1);
    assert_eq!(BitpackedArray::min_bits(2), 1);
    assert_eq!(BitpackedArray::min_bits(3), 2);
    assert_eq!(BitpackedArray::min_bits(4), 2);
    assert_eq!(BitpackedArray::min_bits(5), 4);
    assert_eq!(BitpackedArray::min_bits(16), 4);
    assert_eq!(BitpackedArray::min_bits(17), 8);
    assert_eq!(BitpackedArray::min_bits(256), 8);
    assert_eq!(BitpackedArray::min_bits(257), 16);
    assert_eq!(BitpackedArray::min_bits(65537), 32);
    assert_eq!(BitpackedArray::min_bits(u32::MAX), 32);
}

#[test]
fn fixed_width_array_round_trips() {
    let mut a = FixedArray::new(4);
    assert!(a.is_empty());
    for v in [3, 15, 0, 7] {
        a.push(v);
    }
    assert_eq!(a.len(), 4);
    assert_eq!((0..4).map(|i| a.get(i)).collect::<Vec<_>>(), vec![3, 15, 0, 7]);
    a.set(2, 9);
    assert_eq!(a.get(2), 9);
    assert_eq!(a.get(1), 15);
    let wide = a.repack(16);
    assert_eq!((0..4).map(|i| wide.get(i)).collect::<Vec<_>>(), vec![3, 15, 9, 7]);
    let b = FixedArray::with_capacity(8, 100);
    assert_eq!(b.len(), 0);
}

#[test]
fn fixed_width_min_bits() {
    assert_eq!(FixedArray::min_bits(0), 1);
    assert_eq!(FixedArray::min_bits(2), 1);
    assert_eq!(FixedArray::min_bits(3), 2);
    assert_eq!(FixedArray::min_bits(16), 4);
    assert_eq!(FixedArray::min_bits(17), 8);
    assert_eq!(FixedArray::min_bits(65536), 16);
    assert_eq!(FixedArray::min_bits(65537), 32);
}

#[test]
fn push_after_remove_reads_back_the_value() {
    let mut a = BitpackedArray::new();
    a.push(1);
    a.push(1);
    assert_eq!(a.remove(1), 1);
    a.push(0);
    assert_eq!(a.bits, 1);
    assert_eq!(contents(&a), vec![1, 0]);
    let mut b = BitpackedArray::new();
    for v in [3, 2, 1] {
        b.push(v);
    }
    assert_eq!(b.remove(0), 3);
    b.push(0);
    assert_eq!(contents(&b), vec![2, 1, 0]);
}

#[test]
fn push_after_remove_at_a_word_boundary_is_exact() {
    let mut a = BitpackedArray::new();
    for _ in 0..33 {
        a.push(1);
    }
    a.remove(32);
    a.push(0);
    assert_eq!(a.len(), 33);
    assert_eq!(a.get(32), 0);
}

#[test]
fn shrinking_keeps_the_low_bits() {
    let mut a = BitpackedArray::new();
    for v in [1, 5, 2] {
        a.push(v);
    }
    assert_eq!(a.bits, 4);
    let narrow = a.repack(2);
    assert_eq!(contents(&narrow), vec![1, 1, 2]);
    a.repack_in_place(1);
    assert_eq!(contents(&a), vec![1, 1, 0]);
}

#[test]
fn pushes_end_at_the_width_of_the_largest_value() {
    let cases: [(&[u32], u8); 5] = [
        (&[], 1),
        (&[1, 0, 1], 1),
        (&[15, 3, 2], 4),
        (&[300, 7], 16),
        (&[3, 200, 70000, 1], 32),
    ];
    for (values, bits) in cases {
        let mut a = BitpackedArray::new();
        for &v in values {
            a.push(v);
        }
        assert_eq!(a.bits, bits);
        assert_eq!(contents(&a), values.to_vec());
    }
}
