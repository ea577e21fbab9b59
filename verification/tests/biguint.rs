use experience::BigUint;

fn n(v: u64) -> BigUint {
    BigUint::from_u64(v)
}

/// 2^64, one more than a `u64` can hold.
fn two_to_64() -> BigUint {
    BigUint::from_bytes_be(&[1, 0, 0, 0, 0, 0, 0, 0, 0])
}

#[test]
fn zero_is_zero() {
    assert!(BigUint::zero().is_zero());
    assert_eq!(BigUint::zero().to_u64(), Some(0));
    assert!(!n(1).is_zero());
    assert!(n(0).is_zero());
    assert!(BigUint::from_bytes_be(&[0, 0, 0]).is_zero());
    assert!(!BigUint::from_bytes_be(&[0, 1, 0]).is_zero());
}

#[test]
fn from_u64_and_back() {
    for v in [0u64, 1, 255, 256, 257, 65_535, 65_536, 4_294_967_296, u64::MAX - 1, u64::MAX] {
        assert_eq!(n(v).to_u64(), Some(v));
    }
}

#[test]
fn to_u64_refuses_what_does_not_fit() {
    assert_eq!(two_to_64().to_u64(), None);
    assert_eq!(n(u64::MAX).add(&n(1)).to_u64(), None);
    assert_eq!(BigUint::from_bytes_be(&[0, 0, 0xff, 0xff, 0xff, 0xff, 0xff, 0xff, 0xff, 0xff]).to_u64(), Some(u64::MAX));
    assert_eq!(BigUint::from_bytes_be(&[0xff; 16]).to_u64(), None);
}

#[test]
fn addition_carries_across_digits() {
    assert_eq!(n(255).add(&n(1)).to_u64(), Some(256));
    assert_eq!(n(0xffff_ffff).add(&n(1)).to_u64(), Some(0x1_0000_0000));
    assert_eq!(n(123_456_789).add(&n(987_654_321)).to_u64(), Some(1_111_111_110));
    assert_eq!(n(7).add(&n(0)).to_u64(), Some(7));
    assert_eq!(n(0).add(&n(7)).to_u64(), Some(7));
}

#[test]
fn addition_has_no_ceiling() {
    let sum = n(u64::MAX).add(&n(1));
    assert_eq!(sum, two_to_64());
    assert_eq!(sum.to_bytes_be(), vec![1, 0, 0, 0, 0, 0, 0, 0, 0]);
    let twice = n(u64::MAX).add(&n(u64::MAX));
    assert_eq!(twice.to_bytes_be(), vec![1, 0xff, 0xff, 0xff, 0xff, 0xff, 0xff, 0xff, 0xfe]);
    let big = BigUint::from_bytes_be(&[0xff; 40]);
    let bigger = big.add(&n(1));
    let mut expected = vec![0u8; 41];
    expected[0] = 1;
    assert_eq!(bigger.to_bytes_be(), expected);
}

#[test]
fn subtraction_borrows_across_digits() {
    assert_eq!(n(256).sub(&n(1)).to_u64(), Some(255));
    assert_eq!(n(0x1_0000_0000).sub(&n(1)).to_u64(), Some(0xffff_ffff));
    assert_eq!(two_to_64().sub(&n(1)).to_u64(), Some(u64::MAX));
    assert_eq!(n(1_111_111_110).sub(&n(987_654_321)).to_u64(), Some(123_456_789));
    assert_eq!(n(9).sub(&n(0)).to_u64(), Some(9));
}

#[test]
fn subtraction_of_itself_is_zero() {
    assert!(n(77).sub(&n(77)).is_zero());
    assert!(two_to_64().sub(&two_to_64()).is_zero());
    assert_eq!(two_to_64().sub(&two_to_64()).to_bytes_be(), Vec::<u8>::new());
}

#[test]
fn subtraction_undoes_addition() {
    let a = BigUint::from_bytes_be(&[0x12, 0x34, 0x56, 0x78, 0x9a, 0xbc, 0xde, 0xf0, 0x11, 0x22]);
    let b = BigUint::from_bytes_be(&[0xff, 0xff, 0xff, 0xff, 0xff, 0xff, 0xff, 0xff, 0xff]);
    assert_eq!(a.add(&b).sub(&b), a);
    assert_eq!(a.add(&b).sub(&a), b);
}

#[test]
fn ordering_of_small_numbers() {
    assert!(n(3).lt(&n(5)));
    assert!(!n(5).lt(&n(3)));
    assert!(!n(5).lt(&n(5)));
    assert!(n(5).le(&n(5)));
    assert!(n(3).le(&n(5)));
    assert!(!n(5).le(&n(3)));
    assert!(n(5).gt(&n(3)));
    assert!(!n(3).gt(&n(5)));
    assert!(!n(5).gt(&n(5)));
    assert!(n(5).ge(&n(5)));
    assert!(n(5).ge(&n(3)));
    assert!(!n(3).ge(&n(5)));
    assert!(n(255).lt(&n(256)));
    assert!(n(256).gt(&n(255)));
    assert!(n(0x0100).lt(&n(0x0201)));
    assert!(n(0x02ff).lt(&n(0x0300)));
}

#[test]
fn ordering_of_numbers_beyond_u64() {
    assert!(n(u64::MAX).lt(&two_to_64()));
    assert!(two_to_64().gt(&n(u64::MAX)));
    assert!(two_to_64().ge(&two_to_64()));
    assert!(two_to_64().le(&two_to_64()));
    assert!(two_to_64() == n(u64::MAX).add(&n(1)));
    assert!(two_to_64() != n(u64::MAX));
}

#[test]
fn ordering_ignores_high_zero_digits() {
    let padded = BigUint::from_bytes_be(&[0, 0, 5]);
    assert_eq!(padded, n(5));
    assert_eq!(n(5), padded);
    assert!(!padded.lt(&n(5)));
    assert!(!padded.gt(&n(5)));
    assert!(padded.lt(&n(6)));
    assert!(padded.gt(&n(4)));
    assert!(BigUint::from_bytes_be(&[0, 0, 0]) == BigUint::zero());
}

#[test]
fn bytes_are_read_most_significant_first() {
    assert_eq!(BigUint::from_bytes_be(&[]).to_u64(), Some(0));
    assert_eq!(BigUint::from_bytes_be(&[7]).to_u64(), Some(7));
    assert_eq!(BigUint::from_bytes_be(&[1, 0]).to_u64(), Some(256));
    assert_eq!(BigUint::from_bytes_be(&[1, 2, 3]).to_u64(), Some(0x010203));
    assert_eq!(BigUint::from_bytes_be(&[0xde, 0xad, 0xbe, 0xef]).to_u64(), Some(0xdead_beef));
}

#[test]
fn bytes_are_written_without_leading_zeros() {
    assert_eq!(BigUint::zero().to_bytes_be(), Vec::<u8>::new());
    assert_eq!(n(7).to_bytes_be(), vec![7]);
    assert_eq!(n(256).to_bytes_be(), vec![1, 0]);
    assert_eq!(n(0xdead_beef).to_bytes_be(), vec![0xde, 0xad, 0xbe, 0xef]);
    assert_eq!(BigUint::from_bytes_be(&[0, 0, 1, 0]).to_bytes_be(), vec![1, 0]);
    assert_eq!(n(300).sub(&n(299)).to_bytes_be(), vec![1]);
}

#[test]
fn clone_has_the_same_value() {
    let a = two_to_64().add(&n(12345));
    let b = a.clone();
    assert_eq!(a, b);
    assert_eq!(a.to_bytes_be(), b.to_bytes_be());
}
