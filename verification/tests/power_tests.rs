use quadratic_voting::sqrt::integer_sqrt;
use quadratic_voting::voting::{Error, Pallet};

#[test]
fn integer_sqrt_exact_values() {
    assert_eq!(integer_sqrt(0), 0);
    assert_eq!(integer_sqrt(1), 1);
    assert_eq!(integer_sqrt(2), 1);
    assert_eq!(integer_sqrt(3), 1);
    assert_eq!(integer_sqrt(4), 2);
    assert_eq!(integer_sqrt(999_999), 999);
    assert_eq!(integer_sqrt(1_000_000), 1_000);
    assert_eq!(integer_sqrt(1_000_001), 1_000);
    assert_eq!(integer_sqrt(1_000_000_000_000_000), 31_622_776);
    assert_eq!(integer_sqrt(u128::MAX), u64::MAX as u128);
}

#[test]
fn voter_power_is_the_square_root_of_the_reserve() {
    assert_eq!(Pallet::calc_voter_power_from_reserve(1_000_000), Ok::<u128, Error>(1_000));
    assert_eq!(Pallet::calc_voter_power_from_reserve(0), Ok::<u128, Error>(0));
    assert_eq!(Pallet::calc_voter_power_from_reserve(10_000_000), Ok::<u128, Error>(3_162));
    // At this numeric width the conversion to tally power never fails.
    assert_eq!(Pallet::calc_voter_power_from_reserve(u128::MAX), Ok::<u128, Error>(u64::MAX as u128));
}
