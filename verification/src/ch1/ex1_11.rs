//! A three-term recurrence, computed by recursion and by iteration,
//! and the classic change-counting recursion.

use vstd::prelude::*;

use crate::arith::spec_pow;
use crate::arith::lemma_pow_increases;
use crate::arith::lemma_pow_pos;

verus! {

/// The recurrence: `f(n) = n` below three, otherwise
/// `f(n-1) + 2 f(n-2) + 3 f(n-3)`.
pub open spec fn spec_f(n: int) -> int
    decreases n,
{
    if n < 3 {
        n
    } else {
        spec_f(n - 1) + 2 * spec_f(n - 2) + 3 * spec_f(n - 3)
    }
}

/// The recurrence stays between zero and the matching power of six.
pub proof fn lemma_f_bound(n: int)
    requires
        0 <= n,
    ensures
        0 <= spec_f(n) <= spec_pow(6, n as nat),
    decreases n,
{
    lemma_pow_pos(6, n as nat);
    if n >= 3 {
        lemma_f_bound(n - 1);
        lemma_f_bound(n - 2);
        lemma_f_bound(n - 3);
        lemma_pow_increases(6, (n - 3) as nat, (n - 1) as nat);
        lemma_pow_increases(6, (n - 2) as nat, (n - 1) as nat);
        assert(spec_pow(6, n as nat) == 6 * spec_pow(6, (n - 1) as nat));
    }
}

/// The recurrence by direct recursion.
pub fn rec(n: i64) -> (r: i64)
    requires
        n <= 23,
    ensures
        r == spec_f(n as int),
    decreases (if n >= 0 { n + 3 } else { 0 }),
{
    if n < 3 {
        return n;
    }

    proof {
        lemma_f_bound(n as int);
        lemma_f_bound(n - 1);
        lemma_f_bound(n - 2);
        lemma_f_bound(n - 3);
        lemma_pow23_bound();
        lemma_pow_increases(6, (n - 3) as nat, 23);
        lemma_pow_increases(6, (n - 2) as nat, 23);
        lemma_pow_increases(6, (n - 1) as nat, 23);
    }
    let r1 = rec(n - 1);
    let r2 = rec(n - 2);
    let r3 = rec(n - 3);
    return r1 + 2 * r2 + 3 * r3;
}

/// The twenty-third power of six still fits the machine word.
proof fn lemma_pow23_bound()
    ensures
        spec_pow(6, 23) <= 0x1000_0000_0000_0000,
{
    assert(spec_pow(6, 0) == 1);
    assert(spec_pow(6, 1) == 6 * spec_pow(6, 0));
    assert(spec_pow(6, 2) == 6 * spec_pow(6, 1));
    assert(spec_pow(6, 3) == 6 * spec_pow(6, 2));
    assert(spec_pow(6, 4) == 6 * spec_pow(6, 3));
    assert(spec_pow(6, 5) == 6 * spec_pow(6, 4));
    assert(spec_pow(6, 6) == 6 * spec_pow(6, 5));
    assert(spec_pow(6, 7) == 6 * spec_pow(6, 6));
    assert(spec_pow(6, 8) == 6 * spec_pow(6, 7));
    assert(spec_pow(6, 9) == 6 * spec_pow(6, 8));
    assert(spec_pow(6, 10) == 6 * spec_pow(6, 9));
    assert(spec_pow(6, 11) == 6 * spec_pow(6, 10));
    assert(spec_pow(6, 12) == 6 * spec_pow(6, 11));
    assert(spec_pow(6, 13) == 6 * spec_pow(6, 12));
    assert(spec_pow(6, 14) == 6 * spec_pow(6, 13));
    assert(spec_pow(6, 15) == 6 * spec_pow(6, 14));
    assert(spec_pow(6, 16) == 6 * spec_pow(6, 15));
    assert(spec_pow(6, 17) == 6 * spec_pow(6, 16));
    assert(spec_pow(6, 18) == 6 * spec_pow(6, 17));
    assert(spec_pow(6, 19) == 6 * spec_pow(6, 18));
    assert(spec_pow(6, 20) == 6 * spec_pow(6, 19));
    assert(spec_pow(6, 21) == 6 * spec_pow(6, 20));
    assert(spec_pow(6, 22) == 6 * spec_pow(6, 21));
    assert(spec_pow(6, 23) == 6 * spec_pow(6, 22));
}

/// The recurrence by iteration over a sliding window of three values.
pub fn iter(n: i64) -> (r: i64)
    requires
        n <= 23,
    ensures
        r == spec_f(n as int),
{
    if n < 3 {
        return n;
    }

    let mut a: i64 = 2;
    let mut b: i64 = 1;
    let mut c: i64 = 0;
    let mut next: i64 = 0;
    let mut k: i64 = 3;
    while k <= n
        invariant
            3 <= k <= n + 1,
            n <= 23,
            a == spec_f(k - 1),
            b == spec_f(k - 2),
            c == spec_f(k - 3),
            k > 3 ==> next == spec_f(k - 1),
        decreases n + 1 - k,
    {
        proof {
            lemma_f_bound(k - 1);
            lemma_f_bound(k - 2);
            lemma_f_bound(k - 3);
            lemma_pow23_bound();
            lemma_pow_increases(6, (k - 3) as nat, 23);
            lemma_pow_increases(6, (k - 2) as nat, 23);
            lemma_pow_increases(6, (k - 1) as nat, 23);
        }
        next = a + 2 * b + 3 * c;
        c = b;
        b = a;
        a = next;
        k = k + 1;
    }
    next
}

/// The available coin denominations, from the smallest to the largest.
pub fn coins_value(i: i64) -> (r: i64)
    ensures
        r == spec_coin(i as int),
{
    match i {
        1 => 1,
        2 => 5,
        3 => 10,
        4 => 25,
        5 => 50,
        _ => 0,
    }
}

/// The denomination of each coin index.
pub open spec fn spec_coin(i: int) -> int {
    if i == 1 {
        1
    } else if i == 2 {
        5
    } else if i == 3 {
        10
    } else if i == 4 {
        25
    } else if i == 5 {
        50
    } else {
        0
    }
}

/// The number of ways to make change for `amount` using the first
/// `coin` denominations.
pub open spec fn spec_cc(amount: int, coin: int) -> int
    decreases coin, (if amount > 0 { amount } else { 0 }),
{
    if amount == 0 {
        1
    } else if amount < 0 || coin <= 0 {
        0
    } else if coin > 5 {
        0
    } else {
        spec_cc(amount, coin - 1) + spec_cc(amount - spec_coin(coin), coin)
    }
}

/// Change counts are never negative.
pub proof fn lemma_cc_nonneg(amount: int, coin: int)
    ensures
        0 <= spec_cc(amount, coin),
    decreases coin, (if amount > 0 { amount } else { 0 }),
{
    if amount == 0 {
    } else if amount < 0 || coin <= 0 {
    } else if coin > 5 {
    } else {
        lemma_cc_nonneg(amount, coin - 1);
        lemma_cc_nonneg(amount - spec_coin(coin), coin);
    }
}

/// Using fewer denominations never increases the count, and paying
/// out a coin never increases it either.
pub proof fn lemma_cc_sub(amount: int, coin: int)
    requires
        1 <= coin <= 5,
        amount > 0,
    ensures
        spec_cc(amount, coin - 1) <= spec_cc(amount, coin),
        spec_cc(amount - spec_coin(coin), coin) <= spec_cc(amount, coin),
{
    lemma_cc_nonneg(amount, coin - 1);
    lemma_cc_nonneg(amount - spec_coin(coin), coin);
}

/// The change-counting recursion over the indexed denominations.
pub fn cc(amount: i64, coin: i64) -> (r: i64)
    requires
        0 <= coin <= 5,
        amount <= i64::MAX - 1,
        spec_cc(amount as int, coin as int) <= i64::MAX,
    ensures
        r == spec_cc(amount as int, coin as int),
    decreases coin, (if amount > 0 { amount + 1 } else { 0 }),
{
    if amount == 0 {
        return 1;
    }

    if amount < 0 || coin <= 0 {
        return 0;
    }

    proof {
        lemma_cc_sub(amount as int, coin as int);
        lemma_cc_nonneg(amount as int, (coin - 1) as int);
        lemma_cc_nonneg(amount - spec_coin(coin as int), coin as int);
    }
    let a = cc(amount, coin - 1);
    let b = cc(amount - coins_value(coin), coin);
    a + b
}

/// The number of ways to make change with the whole coin set.
pub fn count_change(amount: i64) -> (r: i64)
    requires
        amount <= i64::MAX - 1,
        spec_cc(amount as int, 5) <= i64::MAX,
    ensures
        r == spec_cc(amount as int, 5),
{
    cc(amount, 5)
}

} // verus!
