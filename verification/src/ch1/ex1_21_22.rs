//! Prime sieves and smallest-divisor search, in two schedules: the
//! classic crossing-out of multiples, stopped once the square of the
//! candidate reaches the bound, and the product schedule that marks
//! every product of two factors.

use vstd::prelude::*;

use crate::ch1::ex1_24::is_prime;

verus! {

/// A proper divisor whose square is below the sieve bound `n`.
pub open spec fn has_small_divisor(n: int, k: int) -> bool {
    exists|d: int| 2 <= d && d * d < n && #[trigger] (k % d) == 0 && d != k
}

/// What the square-bounded sieve keeps: numbers in range with no
/// proper divisor whose square is below the bound.
pub open spec fn eratos_keeps(n: int, k: int) -> bool {
    2 <= k <= n && !has_small_divisor(n, k)
}

/// Divisibility carries through a middle factor.
proof fn lemma_div_trans(k: int, i: int, d: int)
    requires
        1 <= d,
        1 <= i,
        1 <= k,
        i % d == 0,
        k % i == 0,
    ensures
        k % d == 0,
{
    vstd::arithmetic::div_mod::lemma_fundamental_div_mod(i, d);
    vstd::arithmetic::div_mod::lemma_fundamental_div_mod(k, i);
    let q1 = i / d;
    let q2 = k / i;
    assert(k == d * (q1 * q2)) by (nonlinear_arith)
        requires
            i == d * q1,
            k == i * q2,
    ;
    assert((q1 * q2) * d == d * (q1 * q2)) by (nonlinear_arith);
    vstd::arithmetic::div_mod::lemma_mod_multiples_basic(q1 * q2, d);
}

/// The numbers below the bound that survive the square-bounded sieve,
/// in increasing order.
pub fn eratos_prime(n: i64) -> (primes: Vec<i64>)
    requires
        0 <= n <= 100_000_000,
    ensures
        forall|idx: int| 0 <= idx < primes@.len() ==> eratos_keeps(n as int, #[trigger] primes@[idx] as int),
        forall|k: int| eratos_keeps(n as int, k) ==> primes@.map_values(|x: i64| x as int).contains(k),
        forall|i1: int, i2: int| 0 <= i1 < i2 < primes@.len() ==> primes@[i1] < primes@[i2],
{
    let mut primes: Vec<i64> = Vec::new();
    if n < 2 {
        return primes;
    }

    let mut mark: Vec<bool> = Vec::new();
    let mut t: i64 = 0;
    while t <= n
        invariant
            0 <= t <= n + 1,
            n <= 100_000_000,
            mark@.len() == t,
            forall|k: int| 0 <= k < t ==> mark@[k],
        decreases n + 1 - t,
    {
        mark.push(true);
        t = t + 1;
    }

    let mut i: i64 = 2;
    while i * i < n
        invariant
            2 <= i <= 100_000_001,
            i * i <= 0x2386_F26F_C10000,
            2 <= n <= 100_000_000,
            i <= n + 1,
            mark@.len() == n + 1,
            forall|k: int|
                2 <= k <= n && !(#[trigger] mark@[k]) ==> exists|d: int|
                    2 <= d < i && d * d < n && #[trigger] (k % d) == 0 && d != k,
            forall|k: int, d: int|
                2 <= k <= n && 2 <= d < i && d * d < n && #[trigger] (k % d) == 0 && d != k
                    ==> !mark@[k],
        decreases n - i,
    {
        proof {
            assert(i < n) by (nonlinear_arith)
                requires
                    i * i < n,
                    2 <= i,
            ;
        }
        if mark[i as usize] {
            let mut j: i64 = i + i;
            proof {
                assert(i + i == 2 * i);
                vstd::arithmetic::div_mod::lemma_mod_multiples_basic(2, i as int);
            }
            while j <= n
                invariant
                    2 <= i,
                    2 <= n <= 100_000_000,
                    i * i < n,
                    i + i <= j,
                    j % i == 0,
                    j <= n + i,
                    mark@.len() == n + 1,
                    forall|k: int|
                        2 <= k <= n && !(#[trigger] mark@[k]) ==> exists|d: int|
                            2 <= d <= i && d * d < n && #[trigger] (k % d) == 0 && d != k,
                    forall|k: int, d: int|
                        2 <= k <= n && 2 <= d < i && d * d < n && #[trigger] (k % d) == 0 && d
                            != k ==> !mark@[k],
                    forall|k: int|
                        i + i <= k < j && #[trigger] (k % i as int) == 0 ==> !mark@[k],
                decreases n + i - j,
            {
                let slot = &mut mark[j as usize];
                *slot = false;
                proof {
                    assert(j % i == 0 && j != i && i * i < n);
                }
                let ghost j0: int = j as int;
                j = j + i;
                proof {
                    vstd::arithmetic::div_mod::lemma_mod_add_multiples_vanish(
                        j - i,
                        i as int,
                    );
                    assert forall|k: int|
                        i + i <= k < j && #[trigger] (k % i as int) == 0 implies !mark@[k] by {
                        if k >= j0 && k != j0 {
                            let i_int = i as int;
                            vstd::arithmetic::div_mod::lemma_fundamental_div_mod(k, i_int);
                            vstd::arithmetic::div_mod::lemma_fundamental_div_mod(j0, i_int);
                            let qk = k / i_int;
                            let qj = j0 / i_int;
                            assert(false) by (nonlinear_arith)
                                requires
                                    k == i_int * qk,
                                    j0 == i_int * qj,
                                    j0 < k < j0 + i_int,
                                    2 <= i_int,
                            ;
                        }
                    }
                }
            }
            proof {
                assert forall|k: int, d: int|
                    2 <= k <= n && 2 <= d < i + 1 && d * d < n && #[trigger] (k % d) == 0 && d
                        != k implies !mark@[k] by {
                    if d == i {
                        let i_int = i as int;
                        vstd::arithmetic::div_mod::lemma_fundamental_div_mod(k, i_int);
                        let q = k / i_int;
                        assert(k >= i_int + i_int) by (nonlinear_arith)
                            requires
                                k == i_int * q,
                                k != i_int,
                                2 <= k,
                                2 <= i_int,
                        ;
                    }
                }
            }
        } else {
            proof {
                let i_int = i as int;
                assert(!mark@[i_int]);
                let dd = choose|d: int|
                    2 <= d < i && d * d < n && #[trigger] (i_int % d) == 0 && d != i_int;
                assert forall|k: int, d: int|
                    2 <= k <= n && 2 <= d < i + 1 && d * d < n && #[trigger] (k % d) == 0 && d
                        != k implies !mark@[k] by {
                    if d == i {
                        lemma_div_trans(k, i_int, dd);
                        vstd::arithmetic::div_mod::lemma_fundamental_div_mod(k, i_int);
                        let q = k / i_int;
                        assert(k >= i_int + i_int) by (nonlinear_arith)
                            requires
                                k == i_int * q,
                                k != i_int,
                                2 <= k,
                                2 <= i_int,
                        ;
                        assert(dd != k);
                    }
                }
            }
        }
        proof {
            assert((i + 1) * (i + 1) == i * i + 2 * i + 1) by (nonlinear_arith);
        }
        i = i + 1;
    }

    proof {
        assert forall|k: int| 2 <= k <= n && !(#[trigger] mark@[k]) implies has_small_divisor(
            n as int,
            k,
        ) by {
            let d = choose|d: int| 2 <= d < i && d * d < n && #[trigger] (k % d) == 0 && d != k;
            assert(2 <= d && d * d < n && k % d == 0 && d != k);
        }
        assert forall|k: int| 2 <= k <= n && has_small_divisor(n as int, k) implies !(
        #[trigger] mark@[k]) by {
            let d = choose|d: int| 2 <= d && d * d < n && #[trigger] (k % d) == 0 && d != k;
            assert(d * d < n <= i * i) by (nonlinear_arith)
                requires
                    d * d < n,
                    !(i * i < n),
            ;
            assert(d < i) by (nonlinear_arith)
                requires
                    d * d < i * i,
                    2 <= d,
                    2 <= i,
            ;
        }
    }

    let mut k: i64 = 2;
    while k <= n
        invariant
            2 <= k <= n + 1,
            2 <= n <= 100_000_000,
            mark@.len() == n + 1,
            forall|kk: int| 2 <= kk <= n ==> (#[trigger] mark@[kk] <==> !has_small_divisor(n as int, kk)),
            forall|idx: int| 0 <= idx < primes@.len() ==> eratos_keeps(n as int, #[trigger] primes@[idx] as int),
            forall|kk: int| eratos_keeps(n as int, kk) && kk < k ==> primes@.map_values(|x: i64| x as int).contains(kk),
            forall|i1: int, i2: int| 0 <= i1 < i2 < primes@.len() ==> primes@[i1] < primes@[i2],
            forall|idx: int| 0 <= idx < primes@.len() ==> #[trigger] primes@[idx] < k,
        decreases n + 1 - k,
    {
        if mark[k as usize] {
            let ghost prev = primes@;
            primes.push(k);
            proof {
                assert(primes@.drop_last() =~= prev);
                assert forall|kk: int| eratos_keeps(n as int, kk) && kk < k + 1 implies primes@.map_values(
                    |x: i64| x as int,
                ).contains(kk) by {
                    if kk == k {
                        assert(primes@.map_values(|x: i64| x as int)[primes@.len() - 1] == kk);
                    } else {
                        old_contains_witness(primes@, kk);
                    }
                }
            }
        }
        k = k + 1;
    }
    primes
}

/// A composite number splits into two factors, each at least two and
/// both below the number, the smaller one second.
proof fn lemma_composite_witness(k: int)
    requires
        2 <= k,
        !is_prime(k),
    ensures
        exists|a: int, b: int| 2 <= b && b <= a && a < k && #[trigger] (a * b) == k,
{
    let d = choose|d: int| 2 <= d < k && #[trigger] (k % d) == 0;
    vstd::arithmetic::div_mod::lemma_fundamental_div_mod(k, d);
    let q = k / d;
    assert(2 <= q && q < k) by (nonlinear_arith)
        requires
            k == d * q,
            2 <= d < k,
    ;
    if d <= q {
        assert(q * d == k) by (nonlinear_arith)
            requires
                k == d * q,
        ;
        assert(2 <= d && d <= q && q < k && (q * d) == k);
    } else {
        assert(2 <= q && q <= d && d < k && (d * q) == k);
    }
}

/// A factor pair with both parts at least two makes the product
/// composite.
proof fn lemma_witness_composite(k: int, a: int, b: int)
    requires
        2 <= b,
        b <= a,
        a < k,
        a * b == k,
    ensures
        !is_prime(k),
{
    vstd::arithmetic::div_mod::lemma_mod_multiples_basic(b, a);
    assert(b * a == a * b) by (nonlinear_arith);
    assert(2 <= a);
    assert(k % a == 0);
}

/// The smallest divisor that the square-bounded schedule can see: the
/// least proper divisor of `n` whose square is below `n`, or `n`
/// itself when no divisor is that small.
pub fn eratos_smallest_divider(n: i64) -> (r: i64)
    requires
        0 <= n <= 100_000_000,
    ensures
        (exists|d: int| 2 <= d && d * d < n && #[trigger] (n as int % d) == 0) ==> {
            &&& 2 <= r
            &&& r * r < n
            &&& n as int % (r as int) == 0
            &&& forall|d: int| 2 <= d && d * d < n && #[trigger] (n as int % d) == 0 ==> r <= d
        },
        !(exists|d: int| 2 <= d && d * d < n && #[trigger] (n as int % d) == 0) ==> r == n,
{
    if n == 1 {
        proof {
            if exists|d: int| 2 <= d && d * d < n && #[trigger] (n as int % d) == 0 {
                let d = choose|d: int| 2 <= d && d * d < n && #[trigger] (n as int % d) == 0;
                assert(d * d >= 4) by (nonlinear_arith)
                    requires
                        2 <= d,
                ;
            }
        }
        return 1;
    }
    if n < 2 {
        proof {
            if exists|d: int| 2 <= d && d * d < n && #[trigger] (n as int % d) == 0 {
                let d = choose|d: int| 2 <= d && d * d < n && #[trigger] (n as int % d) == 0;
                assert(d * d >= 4) by (nonlinear_arith)
                    requires
                        2 <= d,
                ;
            }
        }
        return n;
    }

    let mut mark: Vec<bool> = Vec::new();
    let mut t: i64 = 0;
    while t <= n
        invariant
            0 <= t <= n + 1,
            n <= 100_000_000,
            mark@.len() == t,
            forall|k: int| 0 <= k < t ==> mark@[k],
        decreases n + 1 - t,
    {
        mark.push(true);
        t = t + 1;
    }

    let mut i: i64 = 2;
    while i * i < n
        invariant
            2 <= i <= 100_000_001,
            i * i <= 0x2386_F26F_C10000,
            2 <= n <= 100_000_000,
            i <= n + 1,
            mark@.len() == n + 1,
            forall|k: int|
                2 <= k <= n && !(#[trigger] mark@[k]) ==> exists|d: int|
                    2 <= d < i && d * d < n && #[trigger] (k % d) == 0 && d != k,
            forall|d: int| 2 <= d < i && d * d < n ==> #[trigger] (n as int % d) != 0,
        decreases n - i,
    {
        proof {
            assert(i < n) by (nonlinear_arith)
                requires
                    i * i < n,
                    2 <= i,
            ;
        }
        if mark[i as usize] {
            if n % i == 0 {
                return i;
            }
            let mut j: i64 = i + i;
            proof {
                assert(i + i == 2 * i);
                vstd::arithmetic::div_mod::lemma_mod_multiples_basic(2, i as int);
            }
            while j <= n
                invariant
                    2 <= i,
                    2 <= n <= 100_000_000,
                    i * i < n,
                    i + i <= j,
                    j % i == 0,
                    j <= n + i,
                    mark@.len() == n + 1,
                    forall|k: int|
                        2 <= k <= n && !(#[trigger] mark@[k]) ==> exists|d: int|
                            2 <= d <= i && d * d < n && #[trigger] (k % d) == 0 && d != k,
                decreases n + i - j,
            {
                let slot = &mut mark[j as usize];
                *slot = false;
                proof {
                    assert(j % i == 0 && j != i && i * i < n);
                }
                j = j + i;
                proof {
                    vstd::arithmetic::div_mod::lemma_mod_add_multiples_vanish(j - i, i as int);
                }
            }
        } else {
            proof {
                let i_int = i as int;
                assert(!mark@[i_int]);
                let dd = choose|d: int|
                    2 <= d < i && d * d < n && #[trigger] (i_int % d) == 0 && d != i_int;
                if n as int % i_int == 0 {
                    lemma_div_trans(n as int, i_int, dd);
                    assert(false);
                }
            }
        }
        proof {
            assert((i + 1) * (i + 1) == i * i + 2 * i + 1) by (nonlinear_arith);
        }
        i = i + 1;
    }

    proof {
        if exists|d: int| 2 <= d && d * d < n && #[trigger] (n as int % d) == 0 {
            let d = choose|d: int| 2 <= d && d * d < n && #[trigger] (n as int % d) == 0;
            assert(d < i) by (nonlinear_arith)
                requires
                    d * d < n,
                    !(i * i < n),
                    2 <= d,
                    2 <= i,
            ;
        }
    }
    n
}

/// The primes up to the bound, found by the product schedule that
/// crosses out every product of two factors, in increasing order.
pub fn eular_prime(n: i64) -> (primes: Vec<i64>)
    requires
        0 <= n <= 100_000_000,
    ensures
        forall|idx: int|
            0 <= idx < primes@.len() ==> is_prime(#[trigger] primes@[idx] as int) && primes@[idx]
                <= n,
        forall|k: int|
            2 <= k <= n && is_prime(k) ==> primes@.map_values(|x: i64| x as int).contains(k),
        forall|i1: int, i2: int| 0 <= i1 < i2 < primes@.len() ==> primes@[i1] < primes@[i2],
{
    let mut primes: Vec<i64> = Vec::new();
    if n < 2 {
        return primes;
    }

    let mut mark: Vec<bool> = Vec::new();
    let mut t: i64 = 0;
    while t <= n
        invariant
            0 <= t <= n + 1,
            n <= 100_000_000,
            mark@.len() == t,
            forall|k: int| 0 <= k < t ==> mark@[k],
        decreases n + 1 - t,
    {
        mark.push(true);
        t = t + 1;
    }

    let mut i: i64 = 2;
    while i <= n
        invariant
            2 <= i <= n + 1,
            2 <= n <= 100_000_000,
            mark@.len() == n + 1,
            forall|k: int|
                2 <= k <= n && !(#[trigger] mark@[k]) ==> exists|a: int, b: int|
                    2 <= b && b <= a && a < i && #[trigger] (a * b) == k,
            forall|k: int, a: int, b: int|
                #![trigger mark@[k], a * b]
                2 <= k <= n && 2 <= b && b <= a && a < i && a * b == k ==> !mark@[k],
            forall|idx: int|
                0 <= idx < primes@.len() ==> is_prime(#[trigger] primes@[idx] as int)
                    && primes@[idx] <= n,
            forall|k: int|
                2 <= k < i && is_prime(k) ==> primes@.map_values(|x: i64| x as int).contains(k),
            forall|i1: int, i2: int| 0 <= i1 < i2 < primes@.len() ==> primes@[i1] < primes@[i2],
            forall|idx: int| 0 <= idx < primes@.len() ==> #[trigger] primes@[idx] < i,
        decreases n + 1 - i,
    {
        if mark[i as usize] {
            proof {
                if !is_prime(i as int) {
                    lemma_composite_witness(i as int);
                    let (a, b) = choose|a: int, b: int|
                        2 <= b && b <= a && a < i && #[trigger] (a * b) == i;
                    assert(!mark@[i as int]);
                }
            }
            let ghost prev = primes@;
            primes.push(i);
            proof {
                assert(primes@.drop_last() =~= prev);
                assert forall|k: int| 2 <= k < i + 1 && is_prime(k) implies primes@.map_values(
                    |x: i64| x as int,
                ).contains(k) by {
                    if k == i {
                        assert(primes@.map_values(|x: i64| x as int)[primes@.len() - 1] == k);
                    } else {
                        old_contains_witness(primes@, k);
                    }
                }
            }
        } else {
            proof {
                let i_int = i as int;
                let (a, b) = choose|a: int, b: int|
                    2 <= b && b <= a && a < i_int && #[trigger] (a * b) == i_int;
                lemma_witness_composite(i_int, a, b);
                assert forall|k: int| 2 <= k < i + 1 && is_prime(k) implies primes@.map_values(
                    |x: i64| x as int,
                ).contains(k) by {
                    assert(k != i);
                }
            }
        }

        let mut j: i64 = 2;
        let mut done: bool = false;
        while !done && j <= i
            invariant
                2 <= i <= n,
                2 <= n <= 100_000_000,
                2 <= j <= i + 1,
                mark@.len() == n + 1,
                done ==> i * j > n,
                forall|k: int|
                    2 <= k <= n && !(#[trigger] mark@[k]) ==> exists|a: int, b: int|
                        2 <= b && b <= a && a <= i && #[trigger] (a * b) == k,
                forall|k: int, a: int, b: int|
                    #![trigger mark@[k], a * b]
                    2 <= k <= n && 2 <= b && b <= a && a <= i && a * b == k && (a < i || b < j)
                        ==> !mark@[k],
            decreases i + 1 - j, (if done { 0int } else { 1int }),
        {
            proof {
                assert(i * j <= 100_000_000 * 100_000_000 && i * j >= 2) by (nonlinear_arith)
                    requires
                        2 <= i <= 100_000_000,
                        2 <= j <= 100_000_000,
                ;
            }
            let cur = i * j;
            if cur > n {
                done = true;
            } else {
                let slot = &mut mark[cur as usize];
                *slot = false;
                proof {
                    assert(i * j == cur as int);
                }
                j = j + 1;
            }
        }
        proof {
            assert forall|k: int, a: int, b: int|
                #![trigger mark@[k], a * b]
                2 <= k <= n && 2 <= b && b <= a && a < i + 1 && a * b == k implies !mark@[k] by {
                if a == i && b >= j {
                    assert(a * b >= i * j) by (nonlinear_arith)
                        requires
                            b >= j,
                            j >= 2,
                            a == i,
                            i >= 2,
                    ;
                }
            }
        }
        i = i + 1;
    }


    proof {
        assert forall|k: int| 2 <= k <= n && is_prime(k) implies primes@.map_values(
            |x: i64| x as int,
        ).contains(k) by {
        }
    }
    primes
}

/// The least divisor of `n` between two and `n`, found with the
/// product schedule; `n` itself comes back when `n` is below two.
pub fn eular_smallest_divider(n: i64) -> (r: i64)
    requires
        0 <= n <= 100_000_000,
    ensures
        n >= 2 ==> {
            &&& 2 <= r <= n
            &&& n as int % (r as int) == 0
            &&& forall|d: int| 2 <= d < r ==> #[trigger] (n as int % d) != 0
        },
        n < 2 ==> r == n,
{
    if n < 2 {
        return n;
    }

    let mut mark: Vec<bool> = Vec::new();
    let mut t: i64 = 0;
    while t <= n
        invariant
            0 <= t <= n + 1,
            n <= 100_000_000,
            mark@.len() == t,
            forall|k: int| 0 <= k < t ==> mark@[k],
        decreases n + 1 - t,
    {
        mark.push(true);
        t = t + 1;
    }

    let mut i: i64 = 2;
    while i <= n
        invariant
            2 <= i <= n + 1,
            2 <= n <= 100_000_000,
            mark@.len() == n + 1,
            forall|k: int|
                2 <= k <= n && !(#[trigger] mark@[k]) ==> exists|a: int, b: int|
                    2 <= b && b <= a && a < i && #[trigger] (a * b) == k,
            forall|k: int, a: int, b: int|
                #![trigger mark@[k], a * b]
                2 <= k <= n && 2 <= b && b <= a && a < i && a * b == k ==> !mark@[k],
            forall|d: int| 2 <= d < i ==> #[trigger] (n as int % d) != 0,
        decreases n + 1 - i,
    {
        if mark[i as usize] {
            if n % i == 0 {
                return i;
            }
        } else {
            proof {
                let i_int = i as int;
                let (a, b) = choose|a: int, b: int|
                    2 <= b && b <= a && a < i_int && #[trigger] (a * b) == i_int;
                lemma_witness_composite(i_int, a, b);
                if n as int % i_int == 0 {
                    vstd::arithmetic::div_mod::lemma_mod_multiples_basic(b, a);
                    assert(b * a == a * b) by (nonlinear_arith);
                    assert(i_int % a == 0);
                    lemma_div_trans(n as int, i_int, a);
                    assert(false);
                }
            }
        }

        let mut j: i64 = 2;
        let mut done: bool = false;
        while !done && j <= i
            invariant
                2 <= i <= n,
                2 <= n <= 100_000_000,
                2 <= j <= i + 1,
                mark@.len() == n + 1,
                done ==> i * j > n,
                forall|k: int|
                    2 <= k <= n && !(#[trigger] mark@[k]) ==> exists|a: int, b: int|
                        2 <= b && b <= a && a <= i && #[trigger] (a * b) == k,
                forall|k: int, a: int, b: int|
                    #![trigger mark@[k], a * b]
                    2 <= k <= n && 2 <= b && b <= a && a <= i && a * b == k && (a < i || b < j)
                        ==> !mark@[k],
            decreases i + 1 - j, (if done { 0int } else { 1int }),
        {
            proof {
                assert(i * j <= 100_000_000 * 100_000_000 && i * j >= 2) by (nonlinear_arith)
                    requires
                        2 <= i <= 100_000_000,
                        2 <= j <= 100_000_000,
                ;
            }
            let cur = i * j;
            if cur > n {
                done = true;
            } else {
                let slot = &mut mark[cur as usize];
                *slot = false;
                proof {
                    assert(i * j == cur as int);
                }
                j = j + 1;
            }
        }
        proof {
            assert forall|k: int, a: int, b: int|
                #![trigger mark@[k], a * b]
                2 <= k <= n && 2 <= b && b <= a && a < i + 1 && a * b == k implies !mark@[k] by {
                if a == i && b >= j {
                    assert(a * b >= i * j) by (nonlinear_arith)
                        requires
                            b >= j,
                            j >= 2,
                            a == i,
                            i >= 2,
                    ;
                }
            }
        }
        i = i + 1;
    }


    proof {
        vstd::arithmetic::div_mod::lemma_mod_self_0(n as int);
        assert(n as int % (n as int) == 0);
        assert(false);
    }
    n
}

/// A value contained in the mapped prefix of a vector stays contained
/// after a push.
proof fn old_contains_witness(s: Seq<i64>, v: int)
    requires
        s.len() >= 1,
        s.drop_last().map_values(|x: i64| x as int).contains(v),
    ensures
        s.map_values(|x: i64| x as int).contains(v),
{
    let m0 = s.drop_last().map_values(|x: i64| x as int);
    let i = choose|i: int| 0 <= i < m0.len() && m0[i] == v;
    assert(0 <= i < s.len() - 1);
    assert(s.drop_last()[i] == s[i]);
    assert(m0[i] == s.drop_last()[i] as int);
    assert(s.map_values(|x: i64| x as int)[i] == s[i] as int);
    assert(s.map_values(|x: i64| x as int)[i] == v);
}

} // verus!
