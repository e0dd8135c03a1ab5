use offences::offence::MockOffence;
use offences::perbill::{slash_fraction, Perbill};

#[test]
fn a_third_of_the_set_saturates() {
    assert_eq!(slash_fraction(1, 3).deconstruct(), 1_000_000_000);
    assert_eq!(slash_fraction(5, 3).deconstruct(), 1_000_000_000);
    assert_eq!(slash_fraction(34, 100).deconstruct(), 1_000_000_000);
}

#[test]
fn one_of_ten() {
    assert_eq!(slash_fraction(1, 10).deconstruct(), 90_000_000);
}

#[test]
fn one_of_eleven() {
    assert_eq!(slash_fraction(1, 11).deconstruct(), 74_380_165);
}

#[test]
fn no_offenders_no_slash() {
    assert_eq!(slash_fraction(0, 10).deconstruct(), 0);
}

#[test]
fn grows_with_offenders() {
    assert_eq!(slash_fraction(1, 100).deconstruct(), 900_000);
    assert_eq!(slash_fraction(2, 100).deconstruct(), 3_600_000);
    let mut last = 0;
    for k in 0..40 {
        let f = slash_fraction(k, 100).deconstruct();
        assert!(f >= last);
        if 3 * k < 100 && k > 0 {
            assert!(f > last);
        }
        last = f;
    }
}

#[test]
fn largest_counts() {
    assert_eq!(slash_fraction(u32::MAX, u32::MAX).deconstruct(), 1_000_000_000);
    assert_eq!(slash_fraction(1, u32::MAX).deconstruct(), 0);
}

#[test]
fn rational_rounds_down_and_caps() {
    assert_eq!(Perbill::from_rational(1, 3).deconstruct(), 333_333_333);
    assert_eq!(Perbill::from_rational(2, 3).deconstruct(), 666_666_666);
    assert_eq!(Perbill::from_rational(7, 7).deconstruct(), 1_000_000_000);
    assert_eq!(Perbill::from_rational(9, 7).deconstruct(), 1_000_000_000);
}

#[test]
fn square_rounds_to_nearest() {
    assert_eq!(Perbill::from_parts(500_000_000).square().deconstruct(), 250_000_000);
    // 22_361^2 = 500_014_321: just over half a part
    assert_eq!(Perbill::from_parts(22_361).square().deconstruct(), 1);
    // 22_360^2 = 499_969_600: under half a part
    assert_eq!(Perbill::from_parts(22_360).square().deconstruct(), 0);
    assert_eq!(Perbill::one().square().deconstruct(), 1_000_000_000);
    assert_eq!(Perbill::zero().square().deconstruct(), 0);
}

#[test]
fn from_parts_caps_at_one() {
    assert_eq!(Perbill::from_parts(2_000_000_000), Perbill::one());
}

#[test]
fn equivocation_offence_uses_the_formula() {
    assert_eq!(MockOffence::slash_fraction(1, 10), slash_fraction(1, 10));
    let o = MockOffence { slot: 9, session_index: 2, validator_set_count: 11, offender: 5 };
    assert_eq!(o.offenders(), vec![5]);
    assert_eq!(o.time_slot(), 9);
    assert_eq!(o.session_index(), 2);
    assert_eq!(o.validator_set_count(), 11);
    let g = o.to_offence();
    assert_eq!(g.offenders, vec![5]);
    assert_eq!(g.time_slot, 9);
}
