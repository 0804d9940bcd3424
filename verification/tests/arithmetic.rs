use paytp_merchant::bignat::BigNat;
use paytp_merchant::decimal::{canon_u128, canon_u64, decimal, parse_u128};
use paytp_merchant::meed::{
    credit_all, find_amount, meed_carve, outstanding_meed_per_role, outstanding_merchant_net,
    prepay_unconsumed_deposit, roles_ascend, same_rows, sum_rows,
};

fn n(x: u128) -> BigNat {
    BigNat::from_u128(x)
}

fn rows(r: &[(u8, u128)]) -> Vec<(u8, BigNat)> {
    r.iter().map(|(role, x)| (*role, n(*x))).collect()
}

fn plain(r: &[(u8, BigNat)]) -> Vec<(u8, u128)> {
    r.iter().map(|(role, x)| (*role, x.to_u128().unwrap())).collect()
}

/// `2^256`.
fn two_pow_256() -> BigNat {
    let mut x = n(1);
    for _ in 0..256 {
        x = x.plus(&x);
    }
    x
}

#[test]
fn naturals_grow_past_128_bits() {
    let max = n(u128::MAX);
    assert_eq!(max.to_u128(), Some(u128::MAX));
    let big = max.plus(&n(1));
    assert_eq!(big.to_u128(), None);
    assert!(max.less(&big));
    assert!(!big.less(&max));
    assert_eq!(big.minus(&n(1)).unwrap().to_u128(), Some(u128::MAX));
    assert!(n(1).minus(&n(2)).is_none());
    assert!(n(2).minus(&n(2)).unwrap().same(&BigNat::zero()));
    let mut bytes = vec![1u8];
    bytes.extend_from_slice(&[0; 16]);
    assert_eq!(big.to_bytes(), bytes);
    assert_eq!(n(0x0102).to_bytes(), vec![1, 2]);
    assert_eq!(BigNat::zero().to_bytes(), vec![0]);
    assert_eq!(big.over(2).to_u128(), Some(1u128 << 127));
    assert_eq!(n(99_999).over(10_000).to_u128(), Some(9));
    assert!(n(7).same(&n(7).copy()));
    assert!(!n(7).same(&n(8)));
}

#[test]
fn the_width_of_a_number_is_256_bits() {
    let limit = two_pow_256();
    assert!(!limit.fits_256());
    assert!(limit.minus(&n(1)).unwrap().fits_256());
}

#[test]
fn a_carve_is_a_ten_thousandth_rounded_down() {
    let r = rows(&[(0x10, 750_000), (0x11, 150_000), (0x12, 450_000), (0x13, 149_999)]);
    assert_eq!(sum_rows(&r).to_u128(), Some(1_499_999));
    assert_eq!(meed_carve(&r).to_u128(), Some(149));
    assert_eq!(find_amount(&r, 0x12).to_u128(), Some(450_000));
    assert_eq!(find_amount(&r, 0x99).to_u128(), Some(0));
    assert!(roles_ascend(&r));
    assert!(!roles_ascend(&rows(&[(1, 0), (1, 0)])));
    assert!(same_rows(&r, &r));
    assert!(!same_rows(&r, &rows(&[(0x10, 750_000)])));
}

#[test]
fn what_is_settled_is_taken_from_what_accrued() {
    let accrued = rows(&[(1, 100), (2, 50)]);
    let owed = outstanding_meed_per_role(&accrued, &rows(&[(2, 20)])).unwrap();
    assert_eq!(plain(&owed), vec![(1, 100), (2, 30)]);
    // More settled than accrued, or a role that never accrued.
    assert!(outstanding_meed_per_role(&accrued, &rows(&[(1, 101)])).is_none());
}

#[test]
fn a_fold_adds_role_by_role() {
    let mut settled = rows(&[(2, 5)]);
    credit_all(&mut settled, &rows(&[(1, 7), (2, 3)]));
    assert_eq!(find_amount(&settled, 1).to_u128(), Some(7));
    assert_eq!(find_amount(&settled, 2).to_u128(), Some(8));
}

#[test]
fn the_net_is_the_gross_less_the_carve_and_what_was_paid() {
    let accrued = rows(&[(1, 1_500_000)]);
    let owed = |legs, funding| outstanding_merchant_net(&n(15_000), &accrued, legs, funding).to_u128();
    assert_eq!(owed(0, 0), Some(14_850));
    assert_eq!(owed(850, 4_000), Some(10_000));
    assert_eq!(owed(14_850, 1), Some(0));
    assert_eq!(owed(u128::MAX, u128::MAX), Some(0));
}

#[test]
fn an_unconsumed_deposit_is_the_difference() {
    assert_eq!(prepay_unconsumed_deposit(1_000_000, 400_000), Some(600_000));
    assert_eq!(prepay_unconsumed_deposit(5, 5), Some(0));
    assert_eq!(prepay_unconsumed_deposit(4, 5), None);
}

#[test]
fn decimals() {
    assert_eq!(decimal(0), "0");
    assert_eq!(decimal(u128::MAX), "340282366920938463463374607431768211455");
    assert_eq!(parse_u128("340282366920938463463374607431768211455"), Some(u128::MAX));
    assert_eq!(parse_u128("340282366920938463463374607431768211456"), None);
    assert_eq!(parse_u128("+007"), Some(7));
    assert_eq!(parse_u128("+"), None);
    assert_eq!(parse_u128(""), None);
    assert_eq!(parse_u128("-1"), None);
    assert_eq!(parse_u128("1 "), None);
    assert_eq!(canon_u128("7"), Some(7));
    assert_eq!(canon_u128("0"), Some(0));
    assert_eq!(canon_u128("07"), None);
    assert_eq!(canon_u128("+7"), None);
    assert_eq!(canon_u64("18446744073709551615"), Some(u64::MAX));
    assert_eq!(canon_u64("18446744073709551616"), None);
    assert_eq!(canon_u64(""), None);
}
