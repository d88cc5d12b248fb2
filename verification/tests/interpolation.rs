//! Tests of the interpolation engine on synthetic shares with known values.
use rln::interp::recover_key;
use rln::{RlnError, Scalar};

/// Shares of f(x) = 7 + 3x + 2x^2 + x^3 at small integer points.
fn share(x: u64, y: u64) -> (Scalar, Scalar) {
    (Scalar::from_u64(x), Scalar::from_u64(y))
}

fn assert_recovers(shares: Vec<(Scalar, Scalar)>, expected: u64) {
    match recover_key(&shares) {
        Ok(s) => assert!(s.eq_value(&Scalar::from_u64(expected))),
        Err(_) => panic!("recovery failed on distinct points"),
    }
}

#[test]
fn degree_three_first_four_points() {
    // f(1) = 13, f(2) = 37, f(3) = 97, f(4) = 211
    assert_recovers(vec![share(1, 13), share(2, 37), share(3, 97), share(4, 211)], 7);
}

#[test]
fn degree_three_last_four_points() {
    // f(5) = 397
    assert_recovers(vec![share(2, 37), share(3, 97), share(4, 211), share(5, 397)], 7);
}

#[test]
fn degree_three_skipping_a_middle_point() {
    assert_recovers(vec![share(1, 13), share(3, 97), share(4, 211), share(5, 397)], 7);
}

#[test]
fn degree_three_out_of_order_points() {
    assert_recovers(vec![share(5, 397), share(2, 37), share(1, 13), share(4, 211)], 7);
}

#[test]
fn single_share_recovers_its_value() {
    assert_recovers(vec![share(4, 9)], 9);
}

#[test]
fn repeated_point_is_singular() {
    let shares = vec![share(1, 5), share(1, 9)];
    match recover_key(&shares) {
        Err(RlnError::SingularShareSet) => (),
        _ => panic!("a repeated point must be rejected as singular"),
    }
}

#[test]
fn degree_one_line() {
    // g(x) = 11 + 5x: g(2) = 21, g(9) = 56
    assert_recovers(vec![share(2, 21), share(9, 56)], 11);
}
