//! The primitive operators, written out as functions: variadic sum and
//! product over a slice of operands, and the binary comparisons.

use vstd::prelude::*;

use crate::arith::spec_pow;

verus! {

/// The sum of a sequence of integers.
pub open spec fn spec_sum(s: Seq<int>) -> int
    decreases s.len(),
{
    if s.len() == 0 {
        0
    } else {
        spec_sum(s.drop_last()) + s.last()
    }
}

/// The product of a sequence of integers.
pub open spec fn spec_product(s: Seq<int>) -> int
    decreases s.len(),
{
    if s.len() == 0 {
        1
    } else {
        spec_product(s.drop_last()) * s.last()
    }
}

/// Sum of all operands, the many-operand form of addition.
pub fn add(operands: &Vec<i64>) -> (r: i64)
    requires
        forall|i: int| 0 <= i < operands@.len() ==> -0x1000_0000 <= #[trigger] operands@[i]
            <= 0x1000_0000,
        operands@.len() <= 0x1000_0000,
    ensures
        r == spec_sum(operands@.map_values(|x: i64| x as int)),
{
    let mut acc: i64 = 0;
    let mut i: usize = 0;
    while i < operands.len()
        invariant
            0 <= i <= operands@.len(),
            forall|j: int| 0 <= j < operands@.len() ==> -0x1000_0000 <= #[trigger] operands@[j]
                <= 0x1000_0000,
            operands@.len() <= 0x1000_0000,
            acc == spec_sum(operands@.map_values(|x: i64| x as int).take(i as int)),
            -0x1000_0000 * 0x1000_0000 <= acc <= 0x1000_0000 * 0x1000_0000,
        decreases operands@.len() - i,
    {
        proof {
            let m = operands@.map_values(|x: i64| x as int);
            assert(m.take(i + 1).drop_last() =~= m.take(i as int));
            assert(m.take(i + 1).last() == operands@[i as int]);
            lemma_sum_bound(m.take(i + 1), 0x1000_0000);
        }
        acc = acc + operands[i];
        i = i + 1;
    }
    proof {
        assert(operands@.map_values(|x: i64| x as int).take(operands@.len() as int)
            =~= operands@.map_values(|x: i64| x as int));
    }
    acc
}

/// A sum of bounded terms is bounded by the count times the bound.
proof fn lemma_sum_bound(s: Seq<int>, cap: int)
    requires
        0 <= cap,
        forall|i: int| 0 <= i < s.len() ==> -cap <= #[trigger] s[i] <= cap,
    ensures
        -(s.len() * cap) <= spec_sum(s) <= s.len() * cap,
    decreases s.len(),
{
    if s.len() == 0 {
    } else {
        lemma_sum_bound(s.drop_last(), cap);
        assert((s.len() - 1) * cap + cap == s.len() * cap) by (nonlinear_arith);
    }
}

/// Product of all operands, the many-operand form of multiplication.
pub fn mul(operands: &Vec<i64>) -> (r: i64)
    requires
        forall|i: int| 0 <= i < operands@.len() ==> 1 <= #[trigger] operands@[i] <= 64,
        operands@.len() <= 10,
    ensures
        r == spec_product(operands@.map_values(|x: i64| x as int)),
{
    let mut acc: i64 = 1;
    let mut i: usize = 0;
    while i < operands.len()
        invariant
            0 <= i <= operands@.len(),
            forall|j: int| 0 <= j < operands@.len() ==> 1 <= #[trigger] operands@[j] <= 64,
            operands@.len() <= 10,
            acc == spec_product(operands@.map_values(|x: i64| x as int).take(i as int)),
            1 <= acc <= spec_pow(64, i as nat),
        decreases operands@.len() - i,
    {
        proof {
            let m = operands@.map_values(|x: i64| x as int);
            assert(m.take(i + 1).drop_last() =~= m.take(i as int));
            assert(m.take(i + 1).last() == operands@[i as int]);
            crate::arith::lemma_pow_increases(64, (i + 1) as nat, 10);
            assert(spec_pow(64, 10) == 0x1000_0000_0000_0000) by {
                lemma_pow64_10();
            }
            assert(acc * operands@[i as int] <= spec_pow(64, i as nat) * 64 && 1 <= acc
                * operands@[i as int]) by (nonlinear_arith)
                requires
                    1 <= acc <= spec_pow(64, i as nat),
                    1 <= operands@[i as int] <= 64,
            ;
            assert(spec_pow(64, i as nat) * 64 == spec_pow(64, (i + 1) as nat)) by {
                crate::arith::lemma_pow_adds(64, i as nat, 1);
                assert(spec_pow(64, 1) == 64 * spec_pow(64, 0));
            }
        }
        acc = acc * operands[i];
        i = i + 1;
    }
    proof {
        assert(operands@.map_values(|x: i64| x as int).take(operands@.len() as int)
            =~= operands@.map_values(|x: i64| x as int));
    }
    acc
}

/// The value of the tenth power of sixty-four, spelled out so bounds on
/// short products stay inside the machine range.
proof fn lemma_pow64_10()
    ensures
        spec_pow(64, 10) == 0x1000_0000_0000_0000,
{
    assert(spec_pow(64, 0) == 1);
    assert(spec_pow(64, 1) == 64 * spec_pow(64, 0));
    assert(spec_pow(64, 2) == 64 * spec_pow(64, 1));
    assert(spec_pow(64, 3) == 64 * spec_pow(64, 2));
    assert(spec_pow(64, 4) == 64 * spec_pow(64, 3));
    assert(spec_pow(64, 5) == 64 * spec_pow(64, 4));
    assert(spec_pow(64, 6) == 64 * spec_pow(64, 5));
    assert(spec_pow(64, 7) == 64 * spec_pow(64, 6));
    assert(spec_pow(64, 8) == 64 * spec_pow(64, 7));
    assert(spec_pow(64, 9) == 64 * spec_pow(64, 8));
    assert(spec_pow(64, 10) == 64 * spec_pow(64, 9));
}

/// Subtraction.
pub fn sub(a: i64, b: i64) -> (r: i64)
    requires
        i64::MIN <= a - b <= i64::MAX,
    ensures
        r == a - b,
{
    a - b
}

/// Division, truncating toward zero on nonnegative operands.
pub fn div(a: i64, b: i64) -> (r: i64)
    requires
        a >= 0,
        b > 0,
    ensures
        r == a / b,
{
    a / b
}

/// Equality of two integers.
pub fn eq(a: i64, b: i64) -> (r: bool)
    ensures
        r == (a == b),
{
    a == b
}

/// Strict less-than.
pub fn lt(a: i64, b: i64) -> (r: bool)
    ensures
        r == (a < b),
{
    a < b
}

/// Strict greater-than.
pub fn gt(a: i64, b: i64) -> (r: bool)
    ensures
        r == (a > b),
{
    a > b
}

} // verus!
