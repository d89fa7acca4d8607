use sicp::ch1::ex1_03::ex1_03;
use sicp::ch1::ex1_04::a_plus_abs_b;
use sicp::ch1::ex1_11::count_change;
use sicp::ch1::ex1_11::iter;
use sicp::ch1::ex1_11::rec;
use sicp::ch1::ex1_12::yanghui_rec;
use sicp::ch1::ex1_16::exp;
use sicp::ch1::ex1_17::mul;
use sicp::ch1::ex1_19::fib;
use sicp::ch1::ex1_19::russian_peasant_exp;
use sicp::ch1::ex1_19::russian_peasant_mul;
use sicp::ch1::ex1_21_22::eratos_prime;
use sicp::ch1::ex1_21_22::eratos_smallest_divider;
use sicp::ch1::ex1_21_22::eular_prime;
use sicp::ch1::ex1_21_22::eular_smallest_divider;
use sicp::ch1::ex1_24::exhaustive_prime_test;
use sicp::ch1::ex1_24::fast_expmod;
use sicp::ch1::ex1_24::fast_prime_test;
use sicp::ch1::ex1_33::prime_square_sum;
use sicp::ch1::ex1_33::prime_square_sum_iter;
use sicp::ch1::ex1_33::product_relative_prime_iter;
use sicp::ch1::ex1_41_42_43_44_45::compose;
use sicp::ch1::ex1_41_42_43_44_45::double;
use sicp::ch1::ex1_41_42_43_44_45::inc;
use sicp::ch1::ex1_41_42_43_44_45::repeat;
use sicp::ch1::learn_1_3_4::avg_damping;
use sicp::arith::square;

#[test]
fn test_ex1_3() {
    assert_eq!(41, ex1_03(3, 4, 5));
}

#[test]
fn ch1_1_test_ex1_3() {
    assert_eq!(41, ex1_03(3, 4, 5));
}

#[test]
fn test_ex1_04() {
    assert_eq!(9, a_plus_abs_b(4, 5));
    assert_eq!(9, a_plus_abs_b(4, -5));
}

#[test]
fn ch1_1_test_ex1_04() {
    assert_eq!(9, a_plus_abs_b(4, 5));
    assert_eq!(9, a_plus_abs_b(4, -5));
}

#[test]
fn test_ex1_11() {
    assert_eq!(2, rec(2));
    assert_eq!(59, rec(6));
    assert_eq!(2, iter(2));
    assert_eq!(59, iter(6));
}

#[test]
fn ch1_1_test_ex1_11() {
    assert_eq!(2, rec(2));
    assert_eq!(59, rec(6));
    assert_eq!(2, iter(2));
    assert_eq!(59, iter(6));
}

#[test]
fn test_count_amount() {
    assert_eq!(4, count_change(10));
    assert_eq!(292, count_change(100));
}

#[test]
fn test_ex1_12() {
    assert_eq!(1, yanghui_rec(1, 1));
    assert_eq!(6, yanghui_rec(5, 3));
}

#[test]
fn ch1_1_test_ex1_12() {
    assert_eq!(1, yanghui_rec(1, 1));
    assert_eq!(6, yanghui_rec(5, 3));
}

#[test]
fn test_ex1_16() {
    assert_eq!(1, exp(5, 0));
    assert_eq!(5, exp(5, 1));
    assert_eq!(125, exp(5, 3));
}

#[test]
fn ch1_1_test_ex1_16() {
    assert_eq!(1, exp(5, 0));
    assert_eq!(5, exp(5, 1));
    assert_eq!(125, exp(5, 3));
}

#[test]
fn test_ex1_17() {
    assert_eq!(0, mul(5, 0));
    assert_eq!(5, mul(5, 1));
    assert_eq!(20, mul(5, 4));
}

#[test]
fn ch1_1_test_ex1_17() {
    assert_eq!(0, mul(5, 0));
    assert_eq!(5, mul(5, 1));
    assert_eq!(20, mul(5, 4));
}

#[test]
fn test_russian_peasant_mul() {
    assert_eq!(25, russian_peasant_mul(5, 5))
}

#[test]
fn ch1_1_test_russian_peasant_mul() {
    assert_eq!(25, russian_peasant_mul(5, 5))
}

#[test]
fn test_russian_peasant_exp() {
    assert_eq!(25, russian_peasant_exp(5, 2));
    assert_eq!(625, russian_peasant_exp(5, 4));
}

#[test]
fn ch1_1_test_russian_peasant_exp() {
    assert_eq!(25, russian_peasant_exp(5, 2));
    assert_eq!(625, russian_peasant_exp(5, 4));
}

#[test]
fn test_fib() {
    assert_eq!(5, fib(5));
    assert_eq!(55, fib(10));
}

#[test]
fn ch1_1_test_fib() {
    assert_eq!(5, fib(5));
    assert_eq!(55, fib(10));
}

#[test]
fn test_eratos_prime() {
    assert_eq!(vec![2, 3, 5, 7], eratos_prime(10));
    assert_eq!(vec![2, 3, 5, 7, 11, 13, 17, 19], eratos_prime(19));
}

#[test]
fn test_eratos_smallest_divider() {
    assert_eq!(2, eratos_smallest_divider(10));
    assert_eq!(3, eratos_smallest_divider(15));
    assert_eq!(19, eratos_smallest_divider(19));
}

#[test]
fn test_eular_prime() {
    assert_eq!(vec![2, 3, 5, 7], eular_prime(10));
    assert_eq!(vec![2, 3, 5, 7, 11, 13, 17, 19], eular_prime(19));
}

#[test]
fn test_eular_smallest_divider() {
    assert_eq!(2, eular_smallest_divider(10));
    assert_eq!(3, eular_smallest_divider(15));
    assert_eq!(19, eular_smallest_divider(19));
}

#[test]
fn test_exhaustive_prime_test() {
    assert_eq!(true, exhaustive_prime_test(31));
    assert_eq!(false, exhaustive_prime_test(15));
    assert_eq!(true, exhaustive_prime_test(19));
}

#[test]
fn test_fast_prime_test() {
    assert_eq!(true, fast_prime_test(23, 3));
    assert_eq!(false, fast_prime_test(4, 4));
    assert_eq!(true, fast_prime_test(3, 4));
}

#[test]
fn test_fast_expmod() {
    assert_eq!(2, fast_expmod(2, 3, 3));
    assert_eq!(1, fast_expmod(4, 4, 3));
    assert_eq!(0, fast_expmod(3, 3, 3));
}

#[test]
fn test_prime_square_sum() {
    assert_eq!(339, prime_square_sum(7, 13));
}

#[test]
fn test_prime_square_sum_iter() {
    assert_eq!(339, prime_square_sum_iter(7, 13));
}

#[test]
fn test_product_relative_prime_iter() {
    assert_eq!(24, product_relative_prime_iter(5));
    assert_eq!(189, product_relative_prime_iter(10));
}

#[test]
fn test_inc() {
    assert_eq!(3, double(&inc, 1));
    // doubling the doubling twice applies the increment sixteen times
    let d1 = |x: i64| double(&inc, x);
    let d2 = |x: i64| double(&d1, x);
    let d3 = |x: i64| double(&d2, x);
    assert_eq!(17, double(&d3, 1));
}

#[test]
fn test_compose() {
    assert_eq!(4, compose(&|x: i64| square(x), &|x: i64| inc(x), 1));
}

#[test]
fn test_repeat() {
    assert_eq!(625, repeat(&|x: i64| square(x), 2, 5));
}

#[test]
fn test_avg_damping() {
    assert_eq!(55, avg_damping(&|x: i64| square(x), 10));
    assert_eq!(15, avg_damping(&|x: i64| square(x), 5));
}
