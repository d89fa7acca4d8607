//! Counting change against a list of coin denominations.

use vstd::prelude::*;

use crate::utils::cons::Value;
use crate::utils::list::List;

verus! {

/// Every payload is a positive integer denomination.
pub open spec fn all_pos_ints(s: Seq<Value>) -> bool {
    forall|i: int| 0 <= i < s.len() ==> ((#[trigger] s[i]) matches Value::Int(w) && w > 0)
}

/// The number of ways to pay `amount` from the denominations of the
/// list: skip the first coin, or pay one of it.
pub open spec fn spec_cc_list(amount: int, coins: Seq<Value>) -> int
    decreases coins.len(), (if amount > 0 {
        amount
    } else {
        0
    }),
{
    if amount == 0 {
        1
    } else if amount < 0 || coins.len() == 0 {
        0
    } else {
        (match coins[0] {
            Value::Int(w) => if w > 0 {
                spec_cc_list(amount, coins.skip(1)) + spec_cc_list(amount - w, coins)
            } else {
                0
            },
            _ => 0,
        })
    }
}

/// Change counts over a coin list are never negative.
pub proof fn lemma_cc_list_nonneg(amount: int, coins: Seq<Value>)
    ensures
        0 <= spec_cc_list(amount, coins),
    decreases coins.len(), (if amount > 0 {
        amount
    } else {
        0
    }),
{
    if amount == 0 {
    } else if amount < 0 || coins.len() == 0 {
    } else {
        match coins[0] {
            Value::Int(w) => {
                if w > 0 {
                    lemma_cc_list_nonneg(amount, coins.skip(1));
                    lemma_cc_list_nonneg(amount - w, coins);
                }
            },
            _ => {},
        }
    }
}

/// The change count for `amount` over the coins of the list.
pub fn cc(amount: i64, coin: &List) -> (r: i64)
    requires
        coin.wf(),
        all_pos_ints(coin@),
        amount < i64::MAX,
        spec_cc_list(amount as int, coin@) <= i64::MAX,
    ensures
        r == spec_cc_list(amount as int, coin@),
{
    cc_rec(amount, Option::Some(coin))
}

/// The recursion behind `cc`: an absent list means no denominations
/// are left.
pub fn cc_rec(amount: i64, coin: Option<&List>) -> (r: i64)
    requires
        match coin {
            Option::Some(l) => l.wf() && all_pos_ints(l@),
            Option::None => true,
        },
        amount < i64::MAX,
        spec_cc_list(
            amount as int,
            match coin {
                Option::Some(l) => l@,
                Option::None => Seq::empty(),
            },
        ) <= i64::MAX,
    ensures
        r == spec_cc_list(
            amount as int,
            match coin {
                Option::Some(l) => l@,
                Option::None => Seq::empty(),
            },
        ),
    decreases (match coin {
        Option::Some(l) => l@.len() + 1
        ,
        Option::None => 0,
    }), (if amount > 0 {
        amount + 1
    } else {
        0
    }),
{
    if amount == 0 {
        return 1;
    }

    if amount < 0 {
        return 0;
    }

    match coin {
        Option::None => 0,
        Option::Some(l) => {
            if l.is_empty_node() {
                proof {
                    assert(l@.len() == 0);
                }
                return 0;
            }
            let ghost s = l@;
            let w = match l.car_ref() {
                Option::Some(v) => {
                    match v.as_int() {
                        Option::Some(w) => w,
                        Option::None => {
                            proof {
                                assert(s[0] matches Value::Int(_));
                                assert(false);
                            }
                            unreached()
                        },
                    }
                },
                Option::None => unreached(),
            };
            proof {
                assert(s[0] == Value::Int(w) && w > 0);
                lemma_cc_list_nonneg(amount as int, s.skip(1));
                lemma_cc_list_nonneg(amount - w, s);
                assert(forall|i: int|
                    0 <= i < s.skip(1).len() ==> (#[trigger] s.skip(1)[i]) == s[i + 1]);
            }
            let rest = l.cdr_ref();
            let a = cc_rec(amount, rest);
            proof {
                if s.len() < 2 {
                    assert(s.skip(1) =~= Seq::<Value>::empty());
                }
            }
            let b = cc_rec(amount - w, coin);
            a + b
        },
    }
}

} // verus!
