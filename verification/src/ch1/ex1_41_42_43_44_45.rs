//! Operators on procedures: applying a function twice, composing two
//! functions, and repeating a function a given number of times.

use vstd::prelude::*;

verus! {

/// The successor function.
pub fn inc(a: i64) -> (r: i64)
    requires
        a < i64::MAX,
    ensures
        r == a + 1,
{
    a + 1
}

/// Apply a function twice: the result is an outcome of the function
/// on an outcome of the function on the argument.
pub fn double<F: Fn(i64) -> i64>(f: &F, x: i64) -> (r: i64)
    requires
        forall|a: i64| #[trigger] call_requires(*f, (a,)),
    ensures
        exists|mid: i64| #[trigger] call_ensures(*f, (x,), mid) && call_ensures(*f, (mid,), r),
{
    let mid = f(x);
    f(mid)
}

/// Compose two functions: apply the second, then the first.
pub fn compose<F: Fn(i64) -> i64, G: Fn(i64) -> i64>(f: &F, g: &G, x: i64) -> (r: i64)
    requires
        forall|a: i64| #[trigger] call_requires(*f, (a,)),
        forall|a: i64| #[trigger] call_requires(*g, (a,)),
    ensures
        exists|mid: i64| #[trigger] call_ensures(*g, (x,), mid) && call_ensures(*f, (mid,), r),
{
    let mid = g(x);
    f(mid)
}

/// Apply a function `n` times: there is a chain of values from the
/// argument to the result in which each link is an outcome of the
/// function on the one before.
pub fn repeat<F: Fn(i64) -> i64>(f: &F, n: u32, x: i64) -> (r: i64)
    requires
        forall|a: i64| #[trigger] call_requires(*f, (a,)),
    ensures
        exists|chain: Seq<i64>|
            {
                &&& chain.len() == n + 1
                &&& chain[0] == x
                &&& chain[n as int] == r
                &&& forall|i: int|
                    0 <= i < n ==> #[trigger] call_ensures(*f, (chain[i],), chain[i + 1])
            },
{
    let mut cur = x;
    let mut k: u32 = 0;
    let ghost mut chain: Seq<i64> = seq![x];
    while k < n
        invariant
            forall|a: i64| #[trigger] call_requires(*f, (a,)),
            k <= n,
            chain.len() == k + 1,
            chain[0] == x,
            chain[k as int] == cur,
            forall|i: int| 0 <= i < k ==> #[trigger] call_ensures(*f, (chain[i],), chain[i + 1]),
        decreases n - k,
    {
        let next = f(cur);
        proof {
            chain = chain.push(next);
        }
        cur = next;
        k = k + 1;
    }
    cur
}

} // verus!
