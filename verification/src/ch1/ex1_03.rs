//! Sum of the squares of the two larger of three numbers.

use vstd::prelude::*;

verus! {

/// The least of three numbers.
pub open spec fn spec_min3(a: int, b: int, c: int) -> int {
    if a <= b && a <= c {
        a
    } else if b <= a && b <= c {
        b
    } else {
        c
    }
}

/// The sum of the squares of the two larger arguments, which equals
/// the sum of all three squares less the square of the least.
pub fn ex1_03(a: i64, b: i64, c: i64) -> (r: i64)
    requires
        -0x4000_0000 <= a <= 0x4000_0000,
        -0x4000_0000 <= b <= 0x4000_0000,
        -0x4000_0000 <= c <= 0x4000_0000,
    ensures
        r == a * a + b * b + c * c - spec_min3(a as int, b as int, c as int) * spec_min3(
            a as int,
            b as int,
            c as int,
        ),
{
    let (l1, l2) = larger_two_of_there(a, b, c);
    proof {
        let m = spec_min3(a as int, b as int, c as int);
        assert(l1 * l1 + l2 * l2 == a * a + b * b + c * c - m * m) by (nonlinear_arith)
            requires
                (l1 == a && l2 == b && m == c) || (l1 == a && l2 == c && m == b) || (l1 == b && l2
                    == c && m == a),
        ;
    }
    sum_of_square(l1, l2)
}

/// The sum of two squares.
pub fn sum_of_square(a: i64, b: i64) -> (r: i64)
    requires
        -0x4000_0000 <= a <= 0x4000_0000,
        -0x4000_0000 <= b <= 0x4000_0000,
    ensures
        r == a * a + b * b,
{
    proof {
        assert(0 <= a * a <= 0x4000_0000 * 0x4000_0000 && 0 <= b * b <= 0x4000_0000
            * 0x4000_0000) by (nonlinear_arith)
            requires
                -0x4000_0000 <= a <= 0x4000_0000,
                -0x4000_0000 <= b <= 0x4000_0000,
        ;
    }
    crate::arith::square(a) + crate::arith::square(b)
}

/// Two of the three arguments such that the remaining one is no larger
/// than either; together with it they make up all three.
pub fn larger_two_of_there(a: i64, b: i64, c: i64) -> (r: (i64, i64))
    ensures
        (r.0 == a && r.1 == b && c == spec_min3(a as int, b as int, c as int)) || (r.0 == a && r.1
            == c && b == spec_min3(a as int, b as int, c as int)) || (r.0 == b && r.1 == c && a
            == spec_min3(a as int, b as int, c as int)),
        spec_min3(a as int, b as int, c as int) <= r.0,
        spec_min3(a as int, b as int, c as int) <= r.1,
{
    if a > b {
        if b > c {
            return (a, b);
        }
        return (a, c);
    }

    if a > c {
        return (a, b);
    }
    return (b, c);
}

} // verus!
