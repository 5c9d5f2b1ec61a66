use ppm_cli::number_types::constraints::get_used_bits_num;
use ppm_cli::number_types::{
    BitsConstraintError, ConstrainedNum, FREQUENCY_BITS, INTERVAL_BITS,
};

#[test]
fn widths_leave_headroom() {
    assert_eq!(FREQUENCY_BITS, 31);
    assert_eq!(INTERVAL_BITS, 33);
    assert!(INTERVAL_BITS >= FREQUENCY_BITS + 2);
    assert!(u64::BITS >= INTERVAL_BITS + FREQUENCY_BITS);
}

#[test]
fn used_bits_counts_binary_digits() {
    assert_eq!(get_used_bits_num(0), 0);
    assert_eq!(get_used_bits_num(1), 1);
    assert_eq!(get_used_bits_num(0b1010), 4);
    assert_eq!(get_used_bits_num(u64::MAX), 64);
}

#[test]
fn zero_one_and_max() {
    assert_eq!(*ConstrainedNum::<5>::zero(), 0);
    assert_eq!(*ConstrainedNum::<5>::one(), 1);
    assert_eq!(*ConstrainedNum::<5>::max(), 31);
    assert_eq!(*ConstrainedNum::<1>::max(), 1);
    assert_eq!(*ConstrainedNum::<31>::max(), 0x7fff_ffff);
    assert_eq!(*ConstrainedNum::<33>::max(), 0x1_ffff_ffff);
    assert_eq!(*ConstrainedNum::<64>::max(), u64::MAX);
    assert_eq!(ConstrainedNum::<5>::max().value(), 31);
}

#[test]
fn new_accepts_exactly_what_fits() {
    assert!(ConstrainedNum::<33>::new(0x1_ffff_ffff).is_ok());
    assert!(matches!(
        ConstrainedNum::<33>::new(0x2_0000_0000),
        Err(BitsConstraintError::ValueUsesTooManyBits { value: 0x2_0000_0000, used_bits: 34 })
    ));
    assert!(ConstrainedNum::<64>::new(u64::MAX).is_ok());
    assert!(ConstrainedNum::<1>::new(2).is_err());
}

#[test]
fn numbers_compare_as_their_values() {
    let two = ConstrainedNum::<4>::new(2).unwrap();
    let three = ConstrainedNum::<4>::new(3).unwrap();
    assert!(two < three);
    assert!(three > two);
    assert!(two <= two);
    assert!(two != three);
    assert_eq!(two, ConstrainedNum::<4>::new(2).unwrap());
    assert_eq!(two.max(three), three);
    assert_eq!(two.partial_cmp(&three), Some(std::cmp::Ordering::Less));
}

#[test]
fn numbers_come_from_bools_and_go_to_integers() {
    assert_eq!(*ConstrainedNum::<3>::from(true), 1);
    assert_eq!(*ConstrainedNum::<3>::from(false), 0);
    let seven = ConstrainedNum::<3>::max();
    assert_eq!(u64::from(seven), 7);
}

#[test]
fn every_operator_stays_within_the_bits() {
    for a in 0..8u64 {
        for b in 0..=255u8 {
            let x = ConstrainedNum::<3>::new(a).unwrap();
            assert_eq!(*(x & b), a & b as u64);
            assert_eq!(*(x | b), (a | b as u64) & 7);
            assert_eq!(*(x ^ b), (a ^ b as u64) & 7);
            assert!(*(x | b) < 8 && *(x ^ b) < 8 && *(x & b) < 8);
        }
        let x = ConstrainedNum::<3>::new(a).unwrap();
        assert_eq!(*!x, !a & 7);
        for shift in 0..64u8 {
            assert_eq!(*(x << shift), (a << shift) & 7);
            assert_eq!(*(x >> shift), a >> shift);
        }
    }
}
