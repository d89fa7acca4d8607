//! Keeping the members of a list that share the parity of a leading
//! number.

use vstd::prelude::*;

use crate::utils::cons::Value;
use crate::utils::list::List;

verus! {

/// Every payload is a nonnegative integer.
pub open spec fn all_ints(s: Seq<Value>) -> bool {
    forall|i: int| 0 <= i < s.len() ==> ((#[trigger] s[i]) matches Value::Int(w) && w >= 0)
}

/// The members of the sequence whose parity matches the base.
pub open spec fn parity_filter(s: Seq<Value>, base: int) -> Seq<Value>
    decreases s.len(),
{
    if s.len() == 0 {
        Seq::empty()
    } else {
        (match s[0] {
            Value::Int(w) => if w % 2 == base % 2 {
                seq![s[0]]
            } else {
                Seq::<Value>::empty()
            },
            _ => Seq::<Value>::empty(),
        }) + parity_filter(s.skip(1), base)
    }
}

/// The integers of the list sharing the parity of `base`, in order.
pub fn same_parity(base: i64, list: List) -> (r: List)
    requires
        list.wf(),
        all_ints(list@),
        base >= 0,
    ensures
        r.wf(),
        r@ == parity_filter(list@, base as int),
{
    let base_even = base % 2 == 0;
    let mut kept: Vec<Value> = Vec::new();
    let ghost orig = list@;
    let mut rest = list;
    loop
        invariant
            orig == list@,
            rest.wf(),
            all_ints(rest@),
            base >= 0,
            base_even == (base as int % 2 == 0),
            kept@ + parity_filter(rest@, base as int) == parity_filter(orig, base as int),
        decreases rest@.len(),
    {
        let ghost before = rest@;
        match rest.car() {
            Option::None => {
                let r = List::from_vec(kept);
                proof {
                    assert(kept@ + parity_filter(before, base as int) =~= kept@);
                }
                return r;
            },
            Option::Some(v) => {
                match v.as_int() {
                    Option::Some(w) => {
                        proof {
                            assert(before[0] matches Value::Int(x) && x >= 0) by { assert(all_ints(before)); }
                        }
                        let keep = (w % 2 == 0) == base_even;
                        if keep {
                            kept.push(v);
                        }
                        proof {
                            assert(parity_filter(before, base as int) == (match before[0] {
                                Value::Int(ww) => if ww % 2 == base as int % 2 {
                                    seq![before[0]]
                                } else {
                                    Seq::<Value>::empty()
                                },
                                _ => Seq::<Value>::empty(),
                            }) + parity_filter(before.skip(1), base as int));
                            assert(kept@ + parity_filter(rest@, base as int) =~= parity_filter(
                                orig,
                                base as int,
                            ));
                        }
                    },
                    Option::None => {
                        proof {
                            assert(before[0] matches Value::Int(x) && x >= 0) by { assert(all_ints(before)); }
                            assert(false);
                        }
                    },
                }
            },
        }
    }
}

} // verus!
