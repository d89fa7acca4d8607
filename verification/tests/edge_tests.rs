use sicp::arith::abs;
use sicp::arith::average;
use sicp::arith::cube;
use sicp::arith::gcd;
use sicp::arith::is_even;
use sicp::arith::max;
use sicp::arith::min;
use sicp::arith::power;
use sicp::arith::square;
use sicp::ch1::ex1_21_22::eratos_prime;
use sicp::ch1::ex1_21_22::eratos_smallest_divider;
use sicp::ch1::ex1_21_22::eular_prime;
use sicp::ch1::ex1_21_22::eular_smallest_divider;
use sicp::ch1::ex1_24::fast_expmod;
use sicp::ch2::ex2_05::count_divider;
use sicp::ch2::ex2_01::Rat;
use sicp::ch1::ex1_11::cc;
use sicp::ch1::ex1_11::count_change;

#[test]
fn arith_helpers() {
    assert_eq!(9, square(3));
    assert_eq!(27, cube(3));
    assert_eq!(-27, cube(-3));
    assert_eq!(8, power(2, 3));
    assert_eq!(1, power(7, 0));
    assert_eq!(5, abs(-5));
    assert_eq!(5, abs(5));
    assert!(is_even(4));
    assert!(!is_even(7));
    assert_eq!(6, average(4, 8));
    assert_eq!(6, gcd(12, 18));
    assert_eq!(12, gcd(12, 0));
    assert_eq!(3, min(3, 9));
    assert_eq!(9, max(3, 9));
}

#[test]
fn sieve_small_bounds() {
    // bounds where the square cut-off leaves squares unmarked
    assert_eq!(Vec::<i64>::new(), eratos_prime(0));
    assert_eq!(Vec::<i64>::new(), eratos_prime(1));
    assert_eq!(vec![2, 3, 4], eratos_prime(4));
    assert_eq!(vec![2, 3, 5, 7, 9], eratos_prime(9));
    assert_eq!(4, eratos_smallest_divider(4));
    assert_eq!(1, eratos_smallest_divider(1));
    // the product schedule has no such blind spot
    assert_eq!(vec![2, 3], eular_prime(4));
    assert_eq!(vec![2, 3, 5, 7], eular_prime(9));
    assert_eq!(2, eular_smallest_divider(4));
    assert_eq!(1, eular_smallest_divider(1));
    assert_eq!(0, eular_smallest_divider(0));
}

#[test]
fn expmod_edges() {
    assert_eq!(0, fast_expmod(5, 3, 1));
    assert_eq!(1, fast_expmod(5, 0, 7));
    assert_eq!(0, fast_expmod(0, 5, 7));
    assert_eq!(4, fast_expmod(2, 10, 10));
}

#[test]
fn count_divider_edges() {
    assert_eq!(0, count_divider(7, 2));
    assert_eq!(3, count_divider(8, 2));
    assert_eq!(2, count_divider(36, 3));
    assert_eq!(0, count_divider(1, 3));
}

#[test]
fn rat_ops() {
    let half = Rat::new(1, 2);
    let third = Rat::new(1, 3);
    let sum = half.add(third);
    assert_eq!(5, sum.numer);
    assert_eq!(6, sum.denom);
    let diff = half.sub(third);
    assert_eq!(1, diff.numer);
    assert_eq!(6, diff.denom);
    let prod = half.mul(third);
    assert_eq!(1, prod.numer);
    assert_eq!(6, prod.denom);
    let quot = half.div(third);
    assert_eq!(3, quot.numer);
    assert_eq!(2, quot.denom);
    assert!(Rat::new(2, 4).eq(Rat::new(1, 2)));
    assert!(!Rat::new(2, 4).eq(Rat::new(1, 3)));
    let neg = Rat::new(-4, -8);
    assert_eq!(1, neg.numer);
    assert_eq!(2, neg.denom);
}

#[test]
fn change_counting_small() {
    assert_eq!(1, count_change(0));
    assert_eq!(1, count_change(1));
    assert_eq!(2, count_change(5));
    assert_eq!(0, cc(3, 0));
}
