//! Mapping over the integers of a list: squaring each member, and
//! yielding each member for a caller to act on.

use vstd::prelude::*;

use crate::utils::cons::Value;
use crate::utils::list::List;
use crate::utils::list::ints_of;

verus! {

/// The squares of a sequence of integers, as list payloads.
pub open spec fn squares_of(s: Seq<i64>) -> Seq<Value> {
    s.map_values(|i: i64| Value::Int((i * i) as i64))
}

/// The list of squares of the integer payloads, in order; payloads of
/// other kinds are dropped.
pub fn square_list(l: List) -> (r: List)
    requires
        l.wf(),
        forall|i: int| 0 <= i < ints_of(l@).len() ==> -0x8000_0000 <= #[trigger] ints_of(l@)[i]
            <= 0x8000_0000,
    ensures
        r.wf(),
        r@ == squares_of(ints_of(l@)),
{
    let mut out: Vec<Value> = Vec::new();
    let mut it = l.into_iter_downcast();
    let ghost all = ints_of(l@);
    loop
        invariant
            all == ints_of(l@),
            it.wf(),
            forall|i: int| 0 <= i < all.len() ==> -0x8000_0000 <= #[trigger] all[i]
                <= 0x8000_0000,
            out@.len() + it.remaining_ints().len() == all.len(),
            all =~= all.take(out@.len() as int) + it.remaining_ints(),
            out@ =~= squares_of(all.take(out@.len() as int)),
        decreases it.remaining_ints().len(),
    {
        let ghost before = it.remaining_ints();
        let ghost done = out@.len() as int;
        match it.next() {
            Option::None => {
                let r = List::from_vec(out);
                proof {
                    assert(all.take(done) =~= all);
                }
                return r;
            },
            Option::Some(i) => {
                proof {
                    assert(all[done] == before[0]);
                    assert(-0x8000_0000 <= i <= 0x8000_0000);
                    assert(i * i >= 0 && i * i <= 0x8000_0000 * 0x8000_0000)
                        by (nonlinear_arith)
                        requires
                            -0x8000_0000 <= i <= 0x8000_0000,
                    ;
                }
                out.push(Value::Int(i * i));
                proof {
                    assert(all.take(done + 1) =~= all.take(done).push(all[done]));
                    assert(all.take(done + 1) + it.remaining_ints() =~= all);
                    assert(out@ =~= squares_of(all.take(done + 1)));
                }
            },
        }
    }
}

/// The integer payloads in order, handed back as a vector for the
/// caller to act on one by one.
pub fn for_each(l: List) -> (r: Vec<i64>)
    requires
        l.wf(),
    ensures
        r@ == ints_of(l@),
{
    let mut out: Vec<i64> = Vec::new();
    let mut it = l.into_iter_downcast();
    let ghost all = ints_of(l@);
    loop
        invariant
            all == ints_of(l@),
            it.wf(),
            out@ + it.remaining_ints() =~= all,
        decreases it.remaining_ints().len(),
    {
        match it.next() {
            Option::None => {
                proof {
                    assert(out@ =~= all);
                }
                return out;
            },
            Option::Some(i) => {
                out.push(i);
                proof {
                    assert(out@ + it.remaining_ints() =~= all);
                }
            },
        }
    }
}

} // verus!
