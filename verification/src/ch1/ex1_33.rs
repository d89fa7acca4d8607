//! Filtered accumulation, and two of its classic instances: the sum
//! of the squares of the primes in a range, and the product of the
//! numbers below a bound that share no factor with it.

use vstd::prelude::*;

use crate::arith::spec_gcd;
use crate::ch1::ex1_24::is_prime;

verus! {

/// The right fold that skips filtered-out points.
pub open spec fn spec_accf(
    now: int,
    end: int,
    t: spec_fn(int) -> int,
    nx: spec_fn(int) -> int,
    c: spec_fn(int, int) -> int,
    f: spec_fn(int) -> bool,
    null: int,
) -> int
    decreases (if now <= end {
        end - now + 1
    } else {
        0
    }),
{
    if now > end {
        null
    } else if nx(now) <= now {
        null
    } else if f(now) {
        spec_accf(nx(now), end, t, nx, c, f, null)
    } else {
        c(t(now), spec_accf(nx(now), end, t, nx, c, f, null))
    }
}

/// The left fold that skips filtered-out points.
pub open spec fn spec_accf_iter(
    now: int,
    end: int,
    t: spec_fn(int) -> int,
    nx: spec_fn(int) -> int,
    c: spec_fn(int, int) -> int,
    f: spec_fn(int) -> bool,
    acc: int,
) -> int
    decreases (if now <= end {
        end - now + 1
    } else {
        0
    }),
{
    if now > end {
        acc
    } else if nx(now) <= now {
        acc
    } else if f(now) {
        spec_accf_iter(nx(now), end, t, nx, c, f, acc)
    } else {
        spec_accf_iter(nx(now), end, t, nx, c, f, c(t(now), acc))
    }
}

/// The recursive filtered accumulator; the filter answers true for
/// the points to leave out.
pub fn accumulate_filter<
    FT: Fn(i64) -> i64,
    FN: Fn(i64) -> i64,
    FC: Fn(i64, i64) -> i64,
    FF: Fn(i64) -> bool,
>(
    now: i64,
    end: i64,
    term: &FT,
    next: &FN,
    combiner: &FC,
    filter: &FF,
    null_value: i64,
    Ghost(tspec): Ghost<spec_fn(int) -> int>,
    Ghost(nspec): Ghost<spec_fn(int) -> int>,
    Ghost(cspec): Ghost<spec_fn(int, int) -> int>,
    Ghost(fspec): Ghost<spec_fn(int) -> bool>,
) -> (r: i64)
    requires
        forall|x: i64| #[trigger] call_requires(*term, (x,)),
        forall|x: i64| #[trigger] call_requires(*next, (x,)),
        forall|x: i64, y: i64| #[trigger] call_requires(*combiner, (x, y)),
        forall|x: i64| #[trigger] call_requires(*filter, (x,)),
        forall|x: i64, y: i64| #[trigger] call_ensures(*term, (x,), y) ==> y == tspec(x as int),
        forall|x: i64, y: i64| #[trigger] call_ensures(*next, (x,), y) ==> y == nspec(x as int)
            && y > x,
        forall|x: i64, y: i64, z: i64| #[trigger] call_ensures(*combiner, (x, y), z) ==> z
            == cspec(x as int, y as int),
        forall|x: i64, y: bool| #[trigger] call_ensures(*filter, (x,), y) ==> y == fspec(x as int),
    ensures
        r == spec_accf(now as int, end as int, tspec, nspec, cspec, fspec, null_value as int),
    decreases (if now <= end {
        end - now + 1
    } else {
        0
    }),
{
    if now > end {
        return null_value;
    }

    let nx = next(now);
    if filter(now) {
        return accumulate_filter(
            nx,
            end,
            term,
            next,
            combiner,
            filter,
            null_value,
            Ghost(tspec),
            Ghost(nspec),
            Ghost(cspec),
            Ghost(fspec),
        );
    }

    let t = term(now);
    let rest = accumulate_filter(
        nx,
        end,
        term,
        next,
        combiner,
        filter,
        null_value,
        Ghost(tspec),
        Ghost(nspec),
        Ghost(cspec),
        Ghost(fspec),
    );
    combiner(t, rest)
}

/// The iterative filtered accumulator.
pub fn accumulate_filter_iter<
    FT: Fn(i64) -> i64,
    FN: Fn(i64) -> i64,
    FC: Fn(i64, i64) -> i64,
    FF: Fn(i64) -> bool,
>(
    now: i64,
    end: i64,
    term: &FT,
    next: &FN,
    combiner: &FC,
    filter: &FF,
    null_value: i64,
    Ghost(tspec): Ghost<spec_fn(int) -> int>,
    Ghost(nspec): Ghost<spec_fn(int) -> int>,
    Ghost(cspec): Ghost<spec_fn(int, int) -> int>,
    Ghost(fspec): Ghost<spec_fn(int) -> bool>,
) -> (r: i64)
    requires
        forall|x: i64| #[trigger] call_requires(*term, (x,)),
        forall|x: i64| #[trigger] call_requires(*next, (x,)),
        forall|x: i64, y: i64| #[trigger] call_requires(*combiner, (x, y)),
        forall|x: i64| #[trigger] call_requires(*filter, (x,)),
        forall|x: i64, y: i64| #[trigger] call_ensures(*term, (x,), y) ==> y == tspec(x as int),
        forall|x: i64, y: i64| #[trigger] call_ensures(*next, (x,), y) ==> y == nspec(x as int)
            && y > x,
        forall|x: i64, y: i64, z: i64| #[trigger] call_ensures(*combiner, (x, y), z) ==> z
            == cspec(x as int, y as int),
        forall|x: i64, y: bool| #[trigger] call_ensures(*filter, (x,), y) ==> y == fspec(x as int),
    ensures
        r == spec_accf_iter(now as int, end as int, tspec, nspec, cspec, fspec, null_value as int),
{
    let mut result = null_value;
    let mut cur = now;
    while cur <= end
        invariant
            forall|x: i64| #[trigger] call_requires(*term, (x,)),
            forall|x: i64| #[trigger] call_requires(*next, (x,)),
            forall|x: i64, y: i64| #[trigger] call_requires(*combiner, (x, y)),
            forall|x: i64| #[trigger] call_requires(*filter, (x,)),
            forall|x: i64, y: i64| #[trigger] call_ensures(*term, (x,), y) ==> y == tspec(x as int),
            forall|x: i64, y: i64| #[trigger] call_ensures(*next, (x,), y) ==> y == nspec(x as int)
                && y > x,
            forall|x: i64, y: i64, z: i64| #[trigger] call_ensures(*combiner, (x, y), z) ==> z
                == cspec(x as int, y as int),
            forall|x: i64, y: bool| #[trigger] call_ensures(*filter, (x,), y) ==> y == fspec(
                x as int,
            ),
            spec_accf_iter(cur as int, end as int, tspec, nspec, cspec, fspec, result as int)
                == spec_accf_iter(
                now as int,
                end as int,
                tspec,
                nspec,
                cspec,
                fspec,
                null_value as int,
            ),
        decreases (if cur <= end {
            end - cur + 1
        } else {
            0int
        }),
    {
        if !filter(cur) {
            let t = term(cur);
            result = combiner(t, result);
        }
        cur = next(cur);
    }
    result
}

/// The primes up to the bound, by the product-schedule sieve.
pub fn eular_prime(n: i64) -> (primes: Vec<i64>)
    requires
        0 <= n <= 100_000_000,
    ensures
        forall|idx: int|
            0 <= idx < primes@.len() ==> is_prime(#[trigger] primes@[idx] as int) && primes@[idx]
                <= n,
        forall|k: int|
            2 <= k <= n && is_prime(k) ==> primes@.map_values(|x: i64| x as int).contains(k),
        forall|i1: int, i2: int| 0 <= i1 < i2 < primes@.len() ==> primes@[i1] < primes@[i2],
{
    crate::ch1::ex1_21_22::eular_prime(n)
}

/// Euclid's algorithm on the larger-first ordering of its arguments.
pub fn gcd(a: i64, b: i64) -> (r: i64)
    requires
        a >= 0,
        b >= 0,
    ensures
        if a >= b {
            r == spec_gcd(a as nat, b as nat)
        } else {
            r == spec_gcd(b as nat, a as nat)
        },
{
    crate::arith::gcd(a, b)
}

/// The sum of the squares of the primes between `now` and `end`.
pub open spec fn spec_prime_square_sum(now: int, end: int) -> int
    decreases (if now <= end {
        end - now + 1
    } else {
        0
    }),
{
    if now > end {
        0
    } else {
        (if is_prime(now) {
            now * now
        } else {
            0
        }) + spec_prime_square_sum(now + 1, end)
    }
}

/// The prime-square sum is nonnegative and bounded by the cube of the
/// range bound.
proof fn lemma_pss_bound(now: int, end: int)
    requires
        0 <= end,
    ensures
        0 <= spec_prime_square_sum(now, end) <= (if now <= end {
            (end - now + 1) * (end * end)
        } else {
            0
        }),
    decreases (if now <= end {
        end - now + 1
    } else {
        0
    }),
{
    if now <= end {
        lemma_pss_bound(now + 1, end);
        if is_prime(now) {
            assert(0 <= now * now <= end * end) by (nonlinear_arith)
                requires
                    2 <= now <= end,
            ;
        }
        assert((end - now + 1) * (end * end) == end * end + (end - now) * (end * end))
            by (nonlinear_arith);
        assert(0 <= end * end) by (nonlinear_arith);
        if now + 1 > end {
            assert((end - now) * (end * end) == 0) by (nonlinear_arith)
                requires
                    end - now == 0,
            ;
        }
    }
}

/// The sum of the squares of the primes in the range, by recursion.
pub fn prime_square_sum(start: i64, end: i64) -> (r: i64)
    requires
        0 <= start,
        0 <= end <= 30_000,
    ensures
        r == spec_prime_square_sum(start as int, end as int),
    decreases (if start <= end {
        end - start + 1
    } else {
        0
    }),
{
    if start > end {
        return 0;
    }

    proof {
        lemma_pss_bound(start + 1, end as int);
        lemma_pss_bound(start as int, end as int);
        assert((end - start) * (end * end) >= 0 && (end - start + 1) * (end * end) <= 30_001
            * (30_000 * 30_000)) by (nonlinear_arith)
            requires
                0 <= start <= end,
                0 <= end <= 30_000,
        ;
    }
    let rest = prime_square_sum(start + 1, end);
    if exhaustive_prime_in_range(start) {
        proof {
            assert(start * start <= 30_000 * 30_000 && start * start >= 0) by (nonlinear_arith)
                requires
                    0 <= start <= 30_000,
            ;
        }
        return start * start + rest;
    }
    rest
}

/// The same sum, by a forward loop.
pub fn prime_square_sum_iter(start: i64, end: i64) -> (r: i64)
    requires
        0 <= start,
        0 <= end <= 30_000,
    ensures
        r == spec_prime_square_sum(start as int, end as int),
{
    let mut acc: i64 = 0;
    let mut cur = start;
    proof {
        lemma_pss_bound(start as int, end as int);
        if start <= end {
            assert((end - start + 1) * (end * end) <= 30_001 * (30_000 * 30_000))
                by (nonlinear_arith)
                requires
                    0 <= start <= end <= 30_000,
            ;
        }
    }
    while cur <= end
        invariant
            0 <= end <= 30_000,
            acc + spec_prime_square_sum(cur as int, end as int) == spec_prime_square_sum(
                start as int,
                end as int,
            ),
            0 <= acc,
            acc <= acc + spec_prime_square_sum(cur as int, end as int),
            spec_prime_square_sum(start as int, end as int) <= 30_001 * (30_000 * 30_000),
        decreases end + 1 - cur,
    {
        proof {
            lemma_pss_bound(cur as int, end as int);
            lemma_pss_bound(cur + 1, end as int);
            if is_prime(cur as int) {
                assert(0 <= cur * cur <= 30_000 * 30_000) by (nonlinear_arith)
                    requires
                        2 <= cur <= 30_000,
                ;
            }
        }
        if exhaustive_prime_in_range(cur) {
            acc = acc + cur * cur;
        }
        cur = cur + 1;
    }
    acc
}

/// Trial-division primality, shared by both prime-square sums.
fn exhaustive_prime_in_range(k: i64) -> (r: bool)
    ensures
        r == is_prime(k as int),
{
    crate::ch1::ex1_24::exhaustive_prime_test(k)
}

/// The product of the numbers from `now` to `n` that are relatively
/// prime to `n`.
pub open spec fn spec_prp(now: int, n: int) -> int
    decreases (if now <= n {
        n - now + 1
    } else {
        0
    }),
{
    if now > n {
        1
    } else {
        (if spec_gcd_sym(now, n) == 1 {
            now
        } else {
            1
        }) * spec_prp(now + 1, n)
    }
}

/// The greatest common divisor with the larger argument first, the
/// order the executable `gcd` settles on.
pub open spec fn spec_gcd_sym(a: int, b: int) -> int {
    if a >= b {
        spec_gcd(a as nat, b as nat) as int
    } else {
        spec_gcd(b as nat, a as nat) as int
    }
}

/// The relative-prime product stays between one and the falling power
/// of the bound.
proof fn lemma_prp_bound(now: int, n: int)
    requires
        1 <= now,
        0 <= n <= 15,
    ensures
        1 <= spec_prp(now, n) <= crate::arith::spec_pow(
            15,
            (if now <= n {
                (n - now + 1) as nat
            } else {
                0
            }),
        ),
    decreases (if now <= n {
        n - now + 1
    } else {
        0
    }),
{
    if now > n {
    } else {
        lemma_prp_bound(now + 1, n);
        let f = if spec_gcd_sym(now, n) == 1 {
            now
        } else {
            1
        };
        let rest = spec_prp(now + 1, n);
        let cap = crate::arith::spec_pow(
            15,
            (if now + 1 <= n {
                (n - now) as nat
            } else {
                0
            }),
        );
        crate::arith::lemma_pow_pos(15, (n - now) as nat);
        crate::arith::lemma_pow_adds(15, 1, (n - now) as nat);
        assert(crate::arith::spec_pow(15, 1) == 15 * crate::arith::spec_pow(15, 0));
        if now + 1 > n {
            assert(crate::arith::spec_pow(15, 0) == 1);
        }
        assert(1 <= f * rest && f * rest <= 15 * crate::arith::spec_pow(15, (n - now) as nat))
            by (nonlinear_arith)
            requires
                1 <= f <= 15,
                1 <= rest <= crate::arith::spec_pow(15, (n - now) as nat),
        ;
    }
}

/// The relative-prime product, by recursion from one.
pub fn product_relative_prime(n: i64) -> (r: i64)
    requires
        0 <= n <= 15,
    ensures
        r == spec_prp(1, n as int),
{
    product_relative_prime_rec(1, n)
}

/// The recursion behind `product_relative_prime`.
pub fn product_relative_prime_rec(now: i64, n: i64) -> (r: i64)
    requires
        1 <= now,
        0 <= n <= 15,
    ensures
        r == spec_prp(now as int, n as int),
    decreases (if now <= n {
        n - now + 1
    } else {
        0
    }),
{
    if now > n {
        return 1;
    }

    proof {
        lemma_prp_bound(now as int, n as int);
        lemma_prp_bound(now + 1, n as int);
        crate::arith::lemma_pow_increases(15, (n - now) as nat, 15);
        crate::arith::lemma_pow_increases(15, (n - now + 1) as nat, 15);
        lemma_pow15_value();
        assert(now * spec_prp(now + 1, n as int) <= 15 * crate::arith::spec_pow(15, 15) && 1 * 1
            <= now * spec_prp(now + 1, n as int)) by (nonlinear_arith)
            requires
                1 <= now <= 15,
                1 <= spec_prp(now + 1, n as int) <= crate::arith::spec_pow(15, 15),
        ;
    }
    let rest = product_relative_prime_rec(now + 1, n);
    if gcd(now, n) == 1 {
        return now * rest;
    }
    proof {
        assert(1 * spec_prp(now + 1, n as int) == spec_prp(now + 1, n as int));
    }
    rest
}

/// The value of the fifteenth power of fifteen, spelled out so the
/// running product is seen to fit the machine word.
proof fn lemma_pow15_value()
    ensures
        crate::arith::spec_pow(15, 15) == 437893890380859375,
{
    let b: int = 15;
    assert(crate::arith::spec_pow(b, 0) == 1);
    assert(crate::arith::spec_pow(b, 1) == b * crate::arith::spec_pow(b, 0));
    assert(crate::arith::spec_pow(b, 2) == b * crate::arith::spec_pow(b, 1));
    assert(crate::arith::spec_pow(b, 3) == b * crate::arith::spec_pow(b, 2));
    assert(crate::arith::spec_pow(b, 4) == b * crate::arith::spec_pow(b, 3));
    assert(crate::arith::spec_pow(b, 5) == b * crate::arith::spec_pow(b, 4));
    assert(crate::arith::spec_pow(b, 6) == b * crate::arith::spec_pow(b, 5));
    assert(crate::arith::spec_pow(b, 7) == b * crate::arith::spec_pow(b, 6));
    assert(crate::arith::spec_pow(b, 8) == b * crate::arith::spec_pow(b, 7));
    assert(crate::arith::spec_pow(b, 9) == b * crate::arith::spec_pow(b, 8));
    assert(crate::arith::spec_pow(b, 10) == b * crate::arith::spec_pow(b, 9));
    assert(crate::arith::spec_pow(b, 11) == b * crate::arith::spec_pow(b, 10));
    assert(crate::arith::spec_pow(b, 12) == b * crate::arith::spec_pow(b, 11));
    assert(crate::arith::spec_pow(b, 13) == b * crate::arith::spec_pow(b, 12));
    assert(crate::arith::spec_pow(b, 14) == b * crate::arith::spec_pow(b, 13));
    assert(crate::arith::spec_pow(b, 15) == b * crate::arith::spec_pow(b, 14));
}

/// The relative-prime product, by a forward loop.
pub fn product_relative_prime_iter(n: i64) -> (r: i64)
    requires
        0 <= n <= 15,
    ensures
        r == spec_prp(1, n as int),
{
    let mut acc: i64 = 1;
    let mut cur: i64 = 1;
    proof {
        lemma_prp_bound(1, n as int);
        crate::arith::lemma_pow_increases(15, (if 1 <= n {
            (n - 1 + 1) as nat
        } else {
            0
        }), 15);
        lemma_pow15_value();
    }
    while cur <= n
        invariant
            0 <= n <= 15,
            1 <= cur,
            1 <= acc,
            acc * spec_prp(cur as int, n as int) == spec_prp(1, n as int),
            spec_prp(1, n as int) <= 437893890380859375,
        decreases n + 1 - cur,
    {
        proof {
            lemma_prp_bound(cur as int, n as int);
            lemma_prp_bound(cur + 1, n as int);
            let f = if spec_gcd_sym(cur as int, n as int) == 1 {
                cur as int
            } else {
                1
            };
            assert(spec_prp(cur as int, n as int) == f * spec_prp(cur + 1, n as int));
            assert((acc * f) * spec_prp(cur + 1, n as int) == acc * (f * spec_prp(
                cur + 1,
                n as int,
            ))) by (nonlinear_arith);
            assert(f <= spec_prp(cur as int, n as int)) by (nonlinear_arith)
                requires
                    1 <= f,
                    1 <= spec_prp(cur + 1, n as int),
                    spec_prp(cur as int, n as int) == f * spec_prp(cur + 1, n as int),
            ;
            assert(acc * f >= 1 && acc * f <= acc * spec_prp(cur as int, n as int))
                by (nonlinear_arith)
                requires
                    1 <= acc,
                    1 <= f,
                    f <= spec_prp(cur as int, n as int),
            ;
            assert(acc * spec_prp(cur as int, n as int) == spec_prp(1, n as int));
        }
        if gcd(cur, n) == 1 {
            acc = acc * cur;
        }
        cur = cur + 1;
    }
    acc
}

} // verus!
