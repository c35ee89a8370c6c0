use qvnt::math::{count_bits, qubit_list, tensor_split, BitsIter};

#[test]
fn bits_iter() {
    let number = 0b10011001101010;
    let mut iter = BitsIter::from(number);

    assert_eq!(iter.next(), Some(1 << 1));
    assert_eq!(iter.next(), Some(1 << 3));
    assert_eq!(iter.next(), Some(1 << 5));
    assert_eq!(iter.next(), Some(1 << 6));
    assert_eq!(iter.next(), Some(1 << 9));
    assert_eq!(iter.next(), Some(1 << 10));
    assert_eq!(iter.next(), Some(1 << 13));
    assert_eq!(iter.next(), None);
}

#[test]
fn bits_iter_empty_and_top_bit() {
    let mut iter = BitsIter::from(0);
    assert_eq!(iter.next(), None);
    assert_eq!(iter.next(), None);

    let top = 1usize << (usize::BITS - 1);
    let mut iter = BitsIter::from(top | 1);
    assert_eq!(iter.next(), Some(1));
    assert_eq!(iter.next(), Some(top));
    assert_eq!(iter.next(), None);
}

#[test]
fn count_bits_values() {
    assert_eq!(count_bits(0), 0);
    assert_eq!(count_bits(0b1011), 3);
    assert_eq!(count_bits(usize::MAX), usize::BITS as usize);
}

#[test]
fn qubit_list_values() {
    assert_eq!(qubit_list(0), Vec::<usize>::new());
    assert_eq!(qubit_list(0b10110), vec![0b10, 0b100, 0b10000]);
}

#[test]
fn tensor_split_values() {
    assert_eq!(tensor_split(0b1101, 2), (0b01, 0b11));
    assert_eq!(tensor_split(7, 0), (0, 7));
    let (lo, hi) = tensor_split(0b101101, 3);
    assert_eq!((hi << 3) | lo, 0b101101);
}
