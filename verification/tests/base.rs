use tools::Base;

#[test]
fn max_len_per_base() {
    assert_eq!(<u8 as Base>::max_len(), 8);
    assert_eq!(<u16 as Base>::max_len(), 16);
    assert_eq!(<u32 as Base>::max_len(), 32);
    assert_eq!(<u64 as Base>::max_len(), 64);
    assert_eq!(<u128 as Base>::max_len(), 128);
    assert_eq!(<usize as Base>::max_len() as u32, usize::BITS);
}

#[test]
fn constants_per_base() {
    assert_eq!(<u8 as Base>::max(), u8::MAX);
    assert_eq!(<u16 as Base>::zero(), 0);
    assert_eq!(<u32 as Base>::one(), 1);
    assert_eq!(<u64 as Base>::one_at_index(63), 1u64 << 63);
    assert_eq!(<u128 as Base>::one_at_index(100), 1u128 << 100);
    assert_eq!(<usize as Base>::max(), usize::MAX);
    assert_eq!(<u8 as Base>::one_at_index(3), 8);
}

#[test]
fn bit_operations() {
    assert_eq!(0b1100u8.bit_and(0b1010), 0b1000);
    assert_eq!(0b1100u16.bit_or(0b1010), 0b1110);
    assert_eq!(0b1100u32.bit_not(), !0b1100u32);
    assert!(0u64.is_zero());
    assert!(!(1u128 << 127).is_zero());
    assert!(!(7usize).is_zero());
}
