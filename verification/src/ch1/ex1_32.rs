//! The general accumulator: folding a term over the points that a
//! successor function visits between two bounds, recursively and
//! iteratively.
//!
//! The callers hand the combinator its pieces as closures, together
//! with the mathematical functions those closures compute; the
//! contracts tie one to the other and pin the result to the
//! mathematical fold.

use vstd::prelude::*;

verus! {

/// The right fold of `c` over `t` applied at `now`, `nx(now)`, ... up
/// to the bound. A successor that fails to advance ends the fold at
/// the neutral value; the contracts of the executable folds rule that
/// case out.
pub open spec fn spec_acc(
    now: int,
    end: int,
    t: spec_fn(int) -> int,
    nx: spec_fn(int) -> int,
    c: spec_fn(int, int) -> int,
    null: int,
) -> int
    decreases (if now <= end { end - now + 1 } else { 0 }),
{
    if now > end {
        null
    } else if nx(now) <= now {
        null
    } else {
        c(t(now), spec_acc(nx(now), end, t, nx, c, null))
    }
}

/// The left fold matching the iterative accumulator, which combines
/// each new term with what has been gathered so far.
pub open spec fn spec_acc_iter(
    now: int,
    end: int,
    t: spec_fn(int) -> int,
    nx: spec_fn(int) -> int,
    c: spec_fn(int, int) -> int,
    acc: int,
) -> int
    decreases (if now <= end { end - now + 1 } else { 0 }),
{
    if now > end {
        acc
    } else if nx(now) <= now {
        acc
    } else {
        spec_acc_iter(nx(now), end, t, nx, c, c(t(now), acc))
    }
}

/// The recursive accumulator.
pub fn accumulate<FT: Fn(i64) -> i64, FN: Fn(i64) -> i64, FC: Fn(i64, i64) -> i64>(
    now: i64,
    end: i64,
    term: &FT,
    next: &FN,
    combiner: &FC,
    null_value: i64,
    Ghost(tspec): Ghost<spec_fn(int) -> int>,
    Ghost(nspec): Ghost<spec_fn(int) -> int>,
    Ghost(cspec): Ghost<spec_fn(int, int) -> int>,
) -> (r: i64)
    requires
        forall|x: i64| #[trigger] call_requires(*term, (x,)),
        forall|x: i64| #[trigger] call_requires(*next, (x,)),
        forall|x: i64, y: i64| #[trigger] call_requires(*combiner, (x, y)),
        forall|x: i64, y: i64| #[trigger] call_ensures(*term, (x,), y) ==> y == tspec(x as int),
        forall|x: i64, y: i64| #[trigger] call_ensures(*next, (x,), y) ==> y == nspec(x as int)
            && y > x,
        forall|x: i64, y: i64, z: i64| #[trigger] call_ensures(*combiner, (x, y), z) ==> z
            == cspec(x as int, y as int),
    ensures
        r == spec_acc(now as int, end as int, tspec, nspec, cspec, null_value as int),
    decreases (if now <= end {
        end - now + 1
    } else {
        0
    }),
{
    if now > end {
        return null_value;
    }

    let t = term(now);
    let nx = next(now);
    let rest = accumulate(
        nx,
        end,
        term,
        next,
        combiner,
        null_value,
        Ghost(tspec),
        Ghost(nspec),
        Ghost(cspec),
    );
    combiner(t, rest)
}

/// The iterative accumulator, gathering terms as it walks forward.
pub fn accumulate_iter<FT: Fn(i64) -> i64, FN: Fn(i64) -> i64, FC: Fn(i64, i64) -> i64>(
    now: i64,
    end: i64,
    term: FT,
    next: FN,
    combiner: FC,
    null_value: i64,
    Ghost(tspec): Ghost<spec_fn(int) -> int>,
    Ghost(nspec): Ghost<spec_fn(int) -> int>,
    Ghost(cspec): Ghost<spec_fn(int, int) -> int>,
) -> (r: i64)
    requires
        forall|x: i64| #[trigger] call_requires(term, (x,)),
        forall|x: i64| #[trigger] call_requires(next, (x,)),
        forall|x: i64, y: i64| #[trigger] call_requires(combiner, (x, y)),
        forall|x: i64, y: i64| #[trigger] call_ensures(term, (x,), y) ==> y == tspec(x as int),
        forall|x: i64, y: i64| #[trigger] call_ensures(next, (x,), y) ==> y == nspec(x as int) && y
            > x,
        forall|x: i64, y: i64, z: i64| #[trigger] call_ensures(combiner, (x, y), z) ==> z == cspec(
            x as int,
            y as int,
        ),
    ensures
        r == spec_acc_iter(now as int, end as int, tspec, nspec, cspec, null_value as int),
{
    let mut result = null_value;
    let mut cur = now;
    while cur <= end
        invariant
            forall|x: i64| #[trigger] call_requires(term, (x,)),
            forall|x: i64| #[trigger] call_requires(next, (x,)),
            forall|x: i64, y: i64| #[trigger] call_requires(combiner, (x, y)),
            forall|x: i64, y: i64| #[trigger] call_ensures(term, (x,), y) ==> y == tspec(x as int),
            forall|x: i64, y: i64| #[trigger] call_ensures(next, (x,), y) ==> y == nspec(x as int)
                && y > x,
            forall|x: i64, y: i64, z: i64| #[trigger] call_ensures(combiner, (x, y), z) ==> z
                == cspec(x as int, y as int),
            spec_acc_iter(cur as int, end as int, tspec, nspec, cspec, result as int)
                == spec_acc_iter(now as int, end as int, tspec, nspec, cspec, null_value as int),
        decreases (if cur <= end { end - cur + 1 } else { 0int }),
    {
        let t = term(cur);
        result = combiner(t, result);
        cur = next(cur);
    }
    result
}

} // verus!
