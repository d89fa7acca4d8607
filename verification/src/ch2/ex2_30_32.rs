//! Squaring every leaf of a tree, enumerating all subsets of a list,
//! and comparing trees structurally.

use vstd::prelude::*;

use crate::utils::cons::Cons;
use crate::utils::cons::Value;
use crate::utils::list::List;
use crate::utils::list::ints_of;
use crate::ch2::ex2_25_28::mk_list;
use crate::ch2::ex2_25_28::lemma_mk_list;
use crate::ch2::ex2_25_28::lemma_wf_view_unique;
use crate::ch2::ex2_25_28::tree_wf;
use crate::ch2::ex2_25_28::tree_wf_value;

verus! {

/// Every integer anywhere in the tree is word-root bounded.
pub open spec fn tree_ints_bounded(l: List) -> bool
    decreases l,
{
    match l.head.car {
        Option::None => true,
        Option::Some(v) => tree_ints_bounded_value(v) && (match l.head.cdr {
            Option::Some(Value::List(next)) => tree_ints_bounded(*next),
            _ => true,
        }),
    }
}

/// Bound on one payload: a nested list is bounded throughout.
pub open spec fn tree_ints_bounded_value(v: Value) -> bool
    decreases v,
{
    match v {
        Value::Int(i) => -0x8000_0000 <= i <= 0x8000_0000,
        Value::List(l) => tree_ints_bounded(*l),
        Value::Pair(_) => true,
    }
}

/// One payload with every integer leaf squared.
pub open spec fn sq_value(v: Value) -> Value
    decreases v,
{
    match v {
        Value::Int(i) => Value::Int((i * i) as i64),
        Value::List(l) => Value::List(Box::new(mk_list(sq_list(*l)))),
        Value::Pair(_) => v,
    }
}

/// The payload sequence with every integer leaf squared, at every
/// depth.
pub open spec fn sq_list(l: List) -> Seq<Value>
    decreases l,
{
    match l.head.car {
        Option::None => Seq::empty(),
        Option::Some(v) => seq![sq_value(v)] + (match l.head.cdr {
            Option::Some(Value::List(next)) => sq_list(*next),
            _ => Seq::empty(),
        }),
    }
}

/// The tree with every integer leaf squared.
pub fn square_tree(l: List) -> (r: List)
    requires
        tree_wf(l),
        tree_ints_bounded(l),
    ensures
        r.wf(),
        r@ == sq_list(l),
    decreases l, 1int,
{
    let mut acc: Vec<Value> = Vec::new();
    sq_collect(l, &mut acc);
    let r = List::from_vec(acc);
    r
}

/// Push the squared form of every payload, in chain order.
fn sq_collect(l: List, acc: &mut Vec<Value>)
    requires
        tree_wf(l),
        tree_ints_bounded(l),
    ensures
        final (acc)@ == old(acc)@ + sq_list(l),
    decreases l, 0int,
{
    let List { head } = l;
    let Cons { car, cdr } = head;
    let ghost l0 = List { head: Cons { car, cdr } };
    match car {
        Option::None => {
            proof {
                assert(acc@ =~= old(acc)@ + sq_list(l0));
            }
        },
        Option::Some(v) => {
            let ghost v0 = v;
            match v {
                Value::Int(i) => {
                    proof {
                        assert(tree_ints_bounded_value(v0));
                        assert(i * i >= 0 && i * i <= 0x8000_0000 * 0x8000_0000)
                            by (nonlinear_arith)
                            requires
                                -0x8000_0000 <= i <= 0x8000_0000,
                        ;
                    }
                    acc.push(Value::Int(i * i));
                    proof {
                        assert(acc@ =~= old(acc)@ + seq![sq_value(v0)]);
                    }
                },
                Value::List(inner) => {
                    proof {
                        assert(tree_wf(l0));
                        assert(tree_ints_bounded(l0));
                        assert(l0.head.car == Option::Some(v0));
                        assert(tree_wf_value(v0));
                        assert(tree_ints_bounded_value(v0));
                        assert(v0 == Value::List(inner));
                        assert(tree_wf(*inner) && tree_ints_bounded(*inner));
                    }
                    let sub = square_tree(*inner);
                    proof {
                        lemma_mk_list(sq_list(*inner));
                        lemma_wf_view_unique(sub, mk_list(sq_list(*inner)));
                    }
                    acc.push(Value::List(Box::new(sub)));
                    proof {
                        assert(acc@ =~= old(acc)@ + seq![sq_value(v0)]);
                    }
                },
                Value::Pair(c) => {
                    acc.push(Value::Pair(c));
                    proof {
                        assert(acc@ =~= old(acc)@ + seq![sq_value(v0)]);
                    }
                },
            }
            match cdr {
                Option::Some(Value::List(next)) => {
                    proof {
                        assert(sq_list(l0) == seq![sq_value(v0)] + sq_list(*next));
                    }
                    sq_collect(*next, acc);
                    proof {
                        assert(acc@ =~= old(acc)@ + sq_list(l0));
                    }
                },
                _ => {
                    proof {
                        assert(sq_list(l0) =~= seq![sq_value(v0)]);
                        assert(acc@ =~= old(acc)@ + sq_list(l0));
                    }
                },
            }
        },
    }
}

/// Structural comparison of two trees: equal exactly when they are
/// the same nested structure with the same payloads.
pub fn test_tree_helper(l1: &List, l2: &List) -> (r: bool)
    ensures
        r == (*l1 == *l2),
{
    crate::utils::cons::list_eq(l1, l2)
}

/// All subsets of the members of the list, in the order the recursion
/// produces them: the subsets avoiding the first member, then those
/// same subsets each extended with it, then the first member alone.
pub open spec fn spec_subsets(s: Seq<i64>) -> Seq<Seq<i64>>
    decreases s.len(),
{
    if s.len() <= 1 {
        seq![seq![s[0]]]
    } else {
        let rest = spec_subsets(s.skip(1));
        rest + rest.map_values(|r: Seq<i64>| r + seq![s[0]]) + seq![seq![s[0]]]
    }
}

/// The integer payloads of a concatenation, piecewise.
pub proof fn lemma_ints_of_concat(s1: Seq<Value>, s2: Seq<Value>)
    ensures
        ints_of(s1 + s2) == ints_of(s1) + ints_of(s2),
    decreases s1.len(),
{
    if s1.len() == 0 {
        assert(s1 + s2 =~= s2);
        assert(ints_of(s1) =~= Seq::<i64>::empty());
        assert(ints_of(s1) + ints_of(s2) =~= ints_of(s2));
    } else {
        lemma_ints_of_concat(s1.skip(1), s2);
        assert((s1 + s2).skip(1) =~= s1.skip(1) + s2);
        assert((s1 + s2)[0] == s1[0]);
        assert(ints_of(s1 + s2) =~= ints_of(s1) + ints_of(s2));
    }
}

/// Every member of the list of subset lists matches the mathematical
/// subsets sequence, position by position.
pub open spec fn subsets_match(r: Seq<Value>, expected: Seq<Seq<i64>>) -> bool {
    &&& r.len() == expected.len()
    &&& forall|i: int|
        0 <= i < r.len() ==> ((#[trigger] r[i]) matches Value::List(sub) && sub.wf()
            && crate::ch2::ex2_20::all_ints(sub@) && ints_of(sub@) == expected[i])
}

/// Enumerate all subsets of a non-empty list of integers.
pub fn subsets(l: List) -> (r: List)
    requires
        l.wf(),
        crate::ch2::ex2_20::all_ints(l@),
        l@.len() >= 1,
    ensures
        r.wf(),
        subsets_match(r@, spec_subsets(ints_of(l@))),
    decreases l@.len(),
{
    let ghost s0 = l@;
    let mut l = l;
    let x = match l.car_ref() {
        Option::Some(v) => {
            match v.as_int() {
                Option::Some(i) => i,
                Option::None => {
                    proof {
                        assert(s0[0] matches Value::Int(w) && w >= 0);
                        assert(false);
                    }
                    unreached()
                },
            }
        },
        Option::None => unreached(),
    };
    proof {
        assert(s0[0] == Value::Int(x));
        lemma_ints_of_head(s0, x);
        assert(ints_of(s0)[0] == x);
    }
    match l.cdr() {
        Option::None => {
            let single = List::new(Value::Int(x));
            let r = List::new(Value::List(Box::new(single)));
            proof {
                assert(s0.len() == 1);
                assert(s0 =~= seq![Value::Int(x)]);
                lemma_ints_of_single(x);
                assert(single@ =~= seq![Value::Int(x)]);
                assert(ints_of(s0) =~= seq![x]);
                lemma_ints_of_single(x);
                assert(single@ =~= seq![Value::Int(x)]);
                assert(ints_of(single@) =~= seq![x]);
                assert(spec_subsets(ints_of(s0)) =~= seq![seq![x]]);
            }
            r
        },
        Option::Some(rest_list) => {
            proof {
                assert(rest_list@ =~= s0.skip(1));
                assert(forall|i: int|
                    0 <= i < rest_list@.len() ==> #[trigger] rest_list@[i] == s0[i + 1]);
                assert(ints_of(rest_list@) =~= ints_of(s0).skip(1)) by {
                    lemma_ints_of_skip(s0);
                }
            }
            let rest = subsets(rest_list);
            let ghost rest_exp = spec_subsets(ints_of(s0).skip(1));
            let ghost full_exp = spec_subsets(ints_of(s0));
            let mut extra: Vec<Value> = Vec::new();
            let mut it = rest.iter();
            proof {
                assert(s0[0] matches Value::Int(w) && w >= 0);
            }
            let mut finished: bool = false;
            while !finished
                invariant
                    it.wf(),
                    rest.wf(),
                    x >= 0,
                    subsets_match(rest@, rest_exp),
                    it.remaining().len() <= rest@.len(),
                    it.remaining() =~= rest@.skip(rest@.len() - it.remaining().len()),
                    extra@.len() + it.remaining().len() == rest@.len(),
                    finished ==> it.remaining().len() == 0,
                    forall|i: int|
                        0 <= i < extra@.len() ==> ((#[trigger] extra@[i]) matches Value::List(sub)
                            && sub.wf() && crate::ch2::ex2_20::all_ints(sub@) && ints_of(sub@)
                            == rest_exp[i] + seq![x]),
                decreases it.remaining().len() + 1, (if finished { 0int } else { 1int }),
            {
                let ghost done = extra@.len() as int;
                match it.next() {
                    Option::None => {
                        finished = true;
                    },
                    Option::Some(v) => {
                        proof {
                            assert(rest@[done] == *v);
                        }
                        match v {
                            Value::List(sub) => {
                                let copy = (**sub).deep_clone();
                                let appended = copy.append(List::new(Value::Int(x)));
                                proof {
                                    lemma_ints_of_concat(sub@, seq![Value::Int(x)]);
                                    lemma_ints_of_single(x);
                                    assert(appended@ =~= sub@ + seq![Value::Int(x)]);
                                    assert(ints_of(appended@) =~= ints_of(sub@) + seq![x]);
                                    assert forall|j: int| 0 <= j < appended@.len() implies ((
                                    #[trigger] appended@[j]) matches Value::Int(w) && w >= 0) by {
                                        if j < sub@.len() {
                                            assert(appended@[j] == sub@[j]);
                                        } else {
                                            assert(appended@[j] == Value::Int(x));
                                        }
                                    }
                                    assert(crate::ch2::ex2_20::all_ints(appended@));
                                }
                                extra.push(Value::List(Box::new(appended)));
                                proof {
                                    assert(extra@[done] == Value::List(Box::new(appended)));
                                    assert(ints_of(appended@) == rest_exp[done] + seq![x]);
                                    assert(it.remaining() =~= rest@.skip(
                                        rest@.len() - it.remaining().len(),
                                    ));
                                }
                            },
                            _ => {
                                proof {
                                    assert(false);
                                }
                            },
                        }
                    },
                }
            }
            let single = List::new(Value::Int(x));
            extra.push(Value::List(Box::new(single)));
            let mut out = rest;
            let ghost pre = out@;
            out.extend(extra);
            proof {
                lemma_ints_of_head(s0, x);
                assert(ints_of(s0).len() >= 2) by {
                    lemma_ints_of_skip(s0);
                    lemma_ints_of_head(s0, x);
                    assert(s0.skip(1)[0] matches Value::Int(_));
                    lemma_ints_of_head(s0.skip(1), (match s0.skip(1)[0] {
                        Value::Int(w) => w,
                        _ => 0,
                    }));
                }
                assert(full_exp == rest_exp + rest_exp.map_values(|r: Seq<i64>| r + seq![
                    ints_of(s0)[0],
                ]) + seq![seq![ints_of(s0)[0]]]);
                assert(ints_of(s0)[0] == x);
                assert(seq![ints_of(s0)[0]] =~= seq![x]);
                lemma_ints_of_single(x);
                assert(single@ =~= seq![Value::Int(x)]);
                assert(ints_of(single@) =~= seq![x]);
                assert forall|i: int| 0 <= i < out@.len() implies ((#[trigger] out@[i]) matches Value::List(
                    sub,
                ) && sub.wf() && crate::ch2::ex2_20::all_ints(sub@) && ints_of(sub@)
                    == full_exp[i]) by {
                    if i < pre.len() {
                        assert(out@[i] == pre[i]);
                        assert(full_exp[i] == rest_exp[i]);
                    } else if i < out@.len() - 1 {
                        assert(full_exp[i] == rest_exp.map_values(|r: Seq<i64>| r + seq![
                            ints_of(s0)[0],
                        ])[i - pre.len()]);
                        assert(full_exp[i] == rest_exp[i - pre.len()] + seq![x]);
                    } else {
                        assert(full_exp[i] == seq![x]);
                    }
                }
            }
            out
        },
    }
}

/// The integer payloads of a sequence split at its head.
pub proof fn lemma_ints_of_head(s: Seq<Value>, w: i64)
    requires
        s.len() >= 1,
        s[0] == Value::Int(w),
    ensures
        ints_of(s) == seq![w] + ints_of(s.skip(1)),
{
    assert(ints_of(s) == (match s[0] {
        Value::Int(i) => seq![i],
        _ => Seq::<i64>::empty(),
    }) + ints_of(s.skip(1)));
}

/// A single integer payload shows a single integer.
pub proof fn lemma_ints_of_single(w: i64)
    ensures
        ints_of(seq![Value::Int(w)]) == seq![w],
{
    lemma_ints_of_head(seq![Value::Int(w)], w);
    assert(seq![Value::Int(w)].skip(1) =~= Seq::<Value>::empty());
    assert(ints_of(Seq::<Value>::empty()) =~= Seq::<i64>::empty());
    assert(ints_of(seq![Value::Int(w)]) =~= seq![w]);
}

/// The integers of a sequence missing its head.
proof fn lemma_ints_of_skip(s: Seq<Value>)
    requires
        s.len() >= 1,
        s[0] matches Value::Int(_),
    ensures
        ints_of(s.skip(1)) == ints_of(s).skip(1),
{
    assert(ints_of(s) == (match s[0] {
        Value::Int(i) => seq![i],
        _ => Seq::<i64>::empty(),
    }) + ints_of(s.skip(1)));
    assert(ints_of(s).skip(1) =~= ints_of(s.skip(1)));
}

} // verus!
