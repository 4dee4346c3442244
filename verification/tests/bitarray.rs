use tools::bitarray::{BitArray, BitArrayIter, Ones, Zeroes};

fn collect_bits<B: tools::Base>(mut it: BitArrayIter<B>) -> Vec<bool> {
    let mut out = Vec::new();
    while let Some(b) = it.next() {
        out.push(b);
    }
    out
}

fn collect_ones<B: tools::Base>(mut it: Ones<B>) -> Vec<u8> {
    let mut out = Vec::new();
    while let Some(i) = it.next() {
        out.push(i);
    }
    out
}

fn collect_zeroes<B: tools::Base>(mut it: Zeroes<B>) -> Vec<u8> {
    let mut out = Vec::new();
    while let Some(i) = it.next() {
        out.push(i);
    }
    out
}

#[test]
fn from_bits_works() {
    let arr = BitArray::<u8>::from_bits(&[true, false, false, false, false, true, true, true]);
    assert_eq!(arr.to_string(), "11100001");
}

#[test]
fn from_indexes_works() {
    let arr = BitArray::<u8>::from_indices(&[0, 5, 6, 7]);
    assert_eq!(arr.to_string(), "11100001")
}

#[test]
fn new_with_too_large_iter_works() {
    let arr = BitArray::<u128>::from_bits(&[true; 129]);
    assert_eq!(arr, BitArray::all_one())
}

#[test]
fn get_works() {
    let arr = BitArray::<u64>::from_bits(&[true, false, false, false, false, true, true, true]);

    assert!(arr.get(0));
    assert!(!arr.get(2));
}

#[test]
fn iter_works() {
    let iter = [true, false, false, false, false, true, true, true];
    let arr = BitArray::<u64>::from_bits(&iter);

    let bits = collect_bits(arr.iter());
    assert_eq!(bits.len(), 64);
    for (i, b) in bits.into_iter().enumerate() {
        if i < iter.len() {
            assert_eq!(
                iter[i], b,
                "the first elements must be the same as in the given iter"
            );
        } else {
            assert!(
                !b,
                "the remaining elements must be false, as they were not set"
            )
        }
    }
}

#[test]
fn ones_work() {
    let expected = vec![0, 2, 4, 6];
    let arr = BitArray::<u8>::from_bits(&[true, false, true, false, true, false, true, false]);

    assert_eq!(collect_ones(arr.ones()), expected)
}

#[test]
fn zeroes_work() {
    let expected = vec![1, 3, 5, 7];
    let arr = BitArray::<u8>::from_bits(&[true, false, true, false, true, false, true, false]);

    assert_eq!(collect_zeroes(arr.zeroes()), expected)
}

#[test]
fn new_keeps_the_value_and_prints_binary() {
    assert_eq!(BitArray::new(0b1011_0000u8).to_string(), "10110000");
    assert_eq!(BitArray::new(5u16).to_string(), "101");
    assert_eq!(BitArray::new(u32::MAX).to_string(), format!("{:b}", u32::MAX));
    assert_eq!(BitArray::new(1u64 << 63).to_string(), format!("{:b}", 1u64 << 63));
    assert_eq!(BitArray::new(u128::MAX).to_string(), "1".repeat(128));
    assert_eq!(BitArray::new(12usize).to_string(), "1100");
}

#[test]
fn zero_prints_as_single_digit() {
    assert_eq!(BitArray::<u8>::all_zero().to_string(), "0");
    assert_eq!(BitArray::<u128>::default().to_string(), "0");
    assert_eq!(BitArray::<u8>::new(0).to_string(), "0");
}

#[test]
fn all_one_and_all_zero() {
    assert_eq!(BitArray::<u8>::all_one().to_string(), "11111111");
    assert_eq!(BitArray::<u8>::all_one(), BitArray::new(u8::MAX));
    assert_eq!(BitArray::<u16>::all_zero(), BitArray::new(0));
    assert_eq!(BitArray::<usize>::all_one(), BitArray::new(usize::MAX));
    assert_eq!(BitArray::<u64>::default(), BitArray::all_zero());
}

#[test]
fn set_then_get_reads_back_and_keeps_others() {
    let mut arr = BitArray::<u32>::new(0b1010);
    arr.set(0, true);
    assert!(arr.get(0));
    assert!(arr.get(1));
    assert!(!arr.get(2));
    assert!(arr.get(3));
    arr.set(3, false);
    assert!(!arr.get(3));
    assert_eq!(arr, BitArray::new(0b0011));
    arr.set(31, true);
    arr.set(31, true);
    assert_eq!(arr, BitArray::new(0x8000_0003));
    arr.set(31, false);
    assert_eq!(arr, BitArray::new(0b0011));
}

#[test]
fn set_on_every_base() {
    let mut a = BitArray::<u8>::all_zero();
    a.set(7, true);
    assert_eq!(a, BitArray::new(0x80));
    let mut b = BitArray::<u16>::all_one();
    b.set(15, false);
    assert_eq!(b, BitArray::new(0x7fff));
    let mut c = BitArray::<u64>::all_zero();
    c.set(40, true);
    assert_eq!(c, BitArray::new(1u64 << 40));
    let mut d = BitArray::<u128>::all_zero();
    d.set(127, true);
    assert!(d.get(127));
    assert!(!d.get(126));
    let mut e = BitArray::<usize>::all_zero();
    e.set(5, true);
    assert_eq!(e, BitArray::new(32));
}

#[test]
fn from_bits_short_input_leaves_high_bits_clear() {
    let arr = BitArray::<u16>::from_bits(&[false, true]);
    assert_eq!(arr, BitArray::new(2));
    let empty = BitArray::<u32>::from_bits(&[]);
    assert_eq!(empty, BitArray::all_zero());
}

#[test]
fn from_bits_round_trips_through_iter() {
    let arr = BitArray::<u16>::new(0xa5c3);
    let bits = collect_bits(arr.iter());
    assert_eq!(BitArray::<u16>::from_bits(&bits), arr);
}

#[test]
fn from_indices_with_repeats_and_ones_round_trip() {
    let arr = BitArray::<u32>::from_indices(&[9, 3, 9, 31, 0]);
    assert_eq!(collect_ones(arr.ones()), vec![0, 3, 9, 31]);
    assert_eq!(BitArray::<u32>::from_indices(&[]), BitArray::all_zero());
}

#[test]
fn ones_and_zeroes_partition_the_indices() {
    let arr = BitArray::<u16>::new(0b1001_0110_0000_1101);
    let ones = collect_ones(arr.ones());
    let zeroes = collect_zeroes(arr.zeroes());
    assert_eq!(ones.len() + zeroes.len(), 16);
    for i in 0..16u8 {
        assert!(ones.contains(&i) != zeroes.contains(&i));
        assert_eq!(ones.contains(&i), arr.get(i));
    }
    assert!(collect_ones(BitArray::<u8>::all_zero().ones()).is_empty());
    assert!(collect_zeroes(BitArray::<u8>::all_one().zeroes()).is_empty());
    assert_eq!(collect_ones(BitArray::<u8>::all_one().ones()), (0..8).collect::<Vec<u8>>());
}

#[test]
fn iterators_stay_exhausted() {
    let arr = BitArray::<u8>::new(1);
    let mut it = arr.iter();
    for _ in 0..8 {
        assert!(it.next().is_some());
    }
    assert_eq!(it.next(), None);
    assert_eq!(it.next(), None);
    let mut ones = arr.ones();
    assert_eq!(ones.next(), Some(0));
    assert_eq!(ones.next(), None);
    assert_eq!(ones.next(), None);
    let mut zeroes = BitArray::<u8>::new(0x7f).zeroes();
    assert_eq!(zeroes.next(), Some(7));
    assert_eq!(zeroes.next(), None);
}

#[test]
fn size_hint_is_up_to_max_len() {
    assert_eq!(BitArray::<u8>::all_zero().iter().size_hint(), (0, Some(8)));
    assert_eq!(BitArray::<u128>::all_zero().iter().size_hint(), (0, Some(128)));
    assert_eq!(
        BitArray::<usize>::all_zero().iter().size_hint(),
        (0, Some(usize::BITS as usize))
    );
}
