//! Adding the absolute value of the second operand by choosing the
//! operator instead of changing the operand.

use vstd::prelude::*;

verus! {

/// The operator picked by `abs_operator`: plain addition or plain
/// subtraction.
#[derive(Debug, Clone, Copy, PartialEq, Eq, Structural)]
pub enum AbsOp {
    Plus,
    Minus,
}

impl AbsOp {
    /// Apply the operator to two operands.
    pub fn apply(self, a: i64, b: i64) -> (r: i64)
        requires
            self is Plus ==> i64::MIN <= a + b <= i64::MAX,
            self is Minus ==> i64::MIN <= a - b <= i64::MAX,
        ensures
            self is Plus ==> r == a + b,
            self is Minus ==> r == a - b,
    {
        match self {
            AbsOp::Plus => a + b,
            AbsOp::Minus => a - b,
        }
    }
}

/// The operator that, applied to `(a, x)`, adds the absolute value of
/// `x`: addition for positive `x`, subtraction otherwise.
pub fn abs_operator(x: i64) -> (r: AbsOp)
    ensures
        r == if x > 0 {
            AbsOp::Plus
        } else {
            AbsOp::Minus
        },
{
    if x > 0 {
        return AbsOp::Plus;
    }
    AbsOp::Minus
}

/// `a` plus the absolute value of `b`.
pub fn a_plus_abs_b(a: i64, b: i64) -> (r: i64)
    requires
        b != i64::MIN,
        i64::MIN <= a + (if b >= 0 { b as int } else { -(b as int) }) <= i64::MAX,
    ensures
        r == a + (if b >= 0 { b as int } else { -(b as int) }),
{
    abs_operator(b).apply(a, b)
}

} // verus!
