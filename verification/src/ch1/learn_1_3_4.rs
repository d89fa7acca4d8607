//! Average damping: soften a function by averaging its output with
//! its input.

use vstd::prelude::*;

verus! {

/// Average the argument with an outcome of the function on it.
pub fn avg_damping<F: Fn(i64) -> i64>(f: &F, x: i64) -> (r: i64)
    requires
        forall|a: i64| #[trigger] call_requires(*f, (a,)),
        forall|a: i64, b: i64| #[trigger] call_ensures(*f, (a,), b) ==> 0 <= a + b <= i64::MAX,
    ensures
        exists|y: i64| #[trigger] call_ensures(*f, (x,), y) && r == (x + y) / 2,
{
    let y = f(x);
    crate::arith::average(x, y)
}

} // verus!
