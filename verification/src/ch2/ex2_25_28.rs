//! Trees as nested lists: counting leaves, reversing at every depth,
//! and flattening to the fringe.

use vstd::prelude::*;

use crate::utils::cons::Cons;
use crate::utils::cons::Value;
use crate::utils::list::List;

verus! {

/// How many leaves a payload contributes: a nested list counts its
/// own leaves, anything else is a single leaf.
pub open spec fn leaves_value(v: Value) -> int
    decreases v,
{
    match v {
        Value::List(l) => leaves_list(*l),
        _ => 1,
    }
}

/// The number of leaves of a nested list.
pub open spec fn leaves_list(l: List) -> int
    decreases l,
{
    match l.head.car {
        Option::None => 0,
        Option::Some(v) => leaves_value(v) + (match l.head.cdr {
            Option::Some(Value::List(next)) => leaves_list(*next),
            _ => 0,
        }),
    }
}

/// Leaf counts are never negative.
pub proof fn lemma_leaves_nonneg(l: List)
    ensures
        0 <= leaves_list(l),
    decreases l,
{
    match l.head.car {
        Option::None => {},
        Option::Some(v) => {
            lemma_leaves_value_nonneg(v);
            match l.head.cdr {
                Option::Some(Value::List(next)) => {
                    lemma_leaves_nonneg(*next);
                },
                _ => {},
            }
        },
    }
}

/// A payload contributes a nonnegative number of leaves.
pub proof fn lemma_leaves_value_nonneg(v: Value)
    ensures
        0 <= leaves_value(v),
    decreases v,
{
    match v {
        Value::List(l) => lemma_leaves_nonneg(*l),
        _ => {},
    }
}

/// The number of leaves of the whole nested list.
pub fn count_leaves(list: &List) -> (r: usize)
    requires
        leaves_list(*list) <= usize::MAX,
    ensures
        r == leaves_list(*list),
    decreases *list,
{
    match &list.head.car {
        Option::None => 0,
        Option::Some(v) => {
            proof {
                lemma_leaves_value_nonneg(*v);
                match &list.head.cdr {
                    Option::Some(Value::List(next)) => {
                        lemma_leaves_nonneg(**next);
                    },
                    _ => {},
                }
            }
            let here: usize = match v {
                Value::List(inner) => count_leaves(&**inner),
                _ => 1,
            };
            match &list.head.cdr {
                Option::Some(Value::List(next)) => {
                    let rest: usize = count_leaves(&**next);
                    here + rest
                },
                _ => here,
            }
        },
    }
}

/// The fringe a payload contributes: a nested list flattens to its
/// own fringe, anything else stands for itself.
pub open spec fn fringe_value(v: Value) -> Seq<Value>
    decreases v,
{
    match v {
        Value::List(l) => fringe_list(*l),
        _ => seq![v],
    }
}

/// The fringe of a nested list: its leaves, left to right.
pub open spec fn fringe_list(l: List) -> Seq<Value>
    decreases l,
{
    match l.head.car {
        Option::None => Seq::empty(),
        Option::Some(v) => fringe_value(v) + (match l.head.cdr {
            Option::Some(Value::List(next)) => fringe_list(*next),
            _ => Seq::empty(),
        }),
    }
}

/// A payload is tree-shaped when any nested list under it is.
pub open spec fn tree_wf_value(v: Value) -> bool
    decreases v,
{
    match v {
        Value::List(l) => tree_wf(*l),
        _ => true,
    }
}

/// A nested list is tree-shaped: a well-formed chain whose list
/// payloads are tree-shaped in turn.
pub open spec fn tree_wf(l: List) -> bool
    decreases l,
{
    &&& l.wf()
    &&& match l.head.car {
        Option::None => true,
        Option::Some(v) => tree_wf_value(v) && (match l.head.cdr {
            Option::Some(Value::List(next)) => tree_wf(*next),
            _ => true,
        }),
    }
}

/// Flatten a nested list to its fringe.
pub fn fringe(l: List) -> (r: List)
    requires
        l.wf(),
    ensures
        r.wf(),
        r@ == fringe_list(l),
{
    let mut acc: Vec<Value> = Vec::new();
    fringe_collect(l, &mut acc);
    let r = List::from_vec(acc);
    r
}

/// Walk the nested list and push every leaf onto the accumulator.
fn fringe_collect(l: List, acc: &mut Vec<Value>)
    ensures
        final (acc)@ == old(acc)@ + fringe_list(l),
    decreases l,
{
    let List { head } = l;
    let Cons { car, cdr } = head;
    let ghost l0 = List { head: Cons { car, cdr } };
    match car {
        Option::None => {
            proof {
                assert(acc@ =~= old(acc)@ + fringe_list(l0));
            }
        },
        Option::Some(v) => {
            let ghost v0 = v;
            match v {
                Value::List(inner) => {
                    proof {
                        assert(fringe_value(v0) == fringe_list(*inner));
                    }
                    fringe_collect(*inner, acc);
                    proof {
                        assert(acc@ =~= old(acc)@ + fringe_value(v0));
                    }
                },
                _ => {
                    acc.push(v);
                    proof {
                        assert(acc@ =~= old(acc)@ + fringe_value(v0));
                    }
                },
            }
            match cdr {
                Option::Some(Value::List(next)) => {
                    proof {
                        assert(fringe_list(l0) == fringe_value(v0) + fringe_list(*next));
                    }
                    fringe_collect(*next, acc);
                    proof {
                        assert(acc@ =~= old(acc)@ + fringe_list(l0));
                    }
                },
                _ => {
                    proof {
                        assert(fringe_list(l0) =~= fringe_value(v0));
                        assert(acc@ =~= old(acc)@ + fringe_list(l0));
                    }
                },
            }
        },
    }
}

/// A payload reversed at every depth: a nested list is deep-reversed,
/// anything else is itself.
pub open spec fn drev_value(v: Value) -> Value
    decreases v,
{
    match v {
        Value::List(l) => Value::List(Box::new(mk_list(drev_list(*l)))),
        _ => v,
    }
}

/// The payload sequence of a nested list reversed at every depth: the
/// chain order inverted, each member deep-reversed.
pub open spec fn drev_list(l: List) -> Seq<Value>
    decreases l,
{
    match l.head.car {
        Option::None => Seq::empty(),
        Option::Some(v) => (match l.head.cdr {
            Option::Some(Value::List(next)) => drev_list(*next),
            _ => Seq::empty(),
        }) + seq![drev_value(v)],
    }
}

/// The canonical list holding a given payload sequence.
pub open spec fn mk_list(s: Seq<Value>) -> List
    decreases s.len(),
{
    if s.len() == 0 {
        List { head: Cons { car: Option::None, cdr: Option::None } }
    } else if s.len() == 1 {
        List { head: Cons { car: Option::Some(s[0]), cdr: Option::None } }
    } else {
        List {
            head: Cons {
                car: Option::Some(s[0]),
                cdr: Option::Some(Value::List(Box::new(mk_list(s.skip(1))))),
            },
        }
    }
}

/// The canonical list is well formed and shows the given sequence.
pub proof fn lemma_mk_list(s: Seq<Value>)
    ensures
        mk_list(s).wf(),
        mk_list(s)@ == s,
    decreases s.len(),
{
    if s.len() == 0 {
        assert(mk_list(s)@ =~= s);
    } else if s.len() == 1 {
        assert(mk_list(s)@ =~= s);
    } else {
        lemma_mk_list(s.skip(1));
        assert(mk_list(s)@ =~= s);
    }
}

/// Two well-formed lists with the same payload sequence are the same
/// list.
pub proof fn lemma_wf_view_unique(a: List, b: List)
    requires
        a.wf(),
        b.wf(),
        a@ == b@,
    ensures
        a == b,
    decreases a,
{
    crate::utils::list::lemma_list_view(a);
    crate::utils::list::lemma_list_view(b);
    match a.head.car {
        Option::None => {
            assert(b@.len() == 0);
            match b.head.car {
                Option::None => {
                    assert(a.head.cdr is None && b.head.cdr is None);
                },
                Option::Some(_) => {
                    assert(false);
                },
            }
        },
        Option::Some(av) => {
            assert(a@.len() > 0);
            match b.head.car {
                Option::None => {
                    assert(false);
                },
                Option::Some(bv) => {
                    assert(av == a@[0] && bv == b@[0]);
                    match (a.head.cdr, b.head.cdr) {
                        (Option::Some(Value::List(an)), Option::Some(Value::List(bn))) => {
                            assert(an@ =~= a@.skip(1));
                            assert(bn@ =~= b@.skip(1));
                            lemma_wf_view_unique(*an, *bn);
                        },
                        (Option::None, Option::None) => {},
                        (Option::Some(Value::List(an)), Option::None) => {
                            assert(an.head.car is Some);
                            crate::utils::list::lemma_list_view(*an);
                            assert(a@.len() >= 2 && b@.len() == 1);
                            assert(false);
                        },
                        (Option::None, Option::Some(Value::List(bn))) => {
                            assert(bn.head.car is Some);
                            crate::utils::list::lemma_list_view(*bn);
                            assert(false);
                        },
                        _ => {
                            assert(false);
                        },
                    }
                },
            }
        },
    }
}

/// Reverse a nested list at every depth.
pub fn deep_reverse(list: List) -> (r: List)
    requires
        tree_wf(list),
    ensures
        r.wf(),
        r@ == drev_list(list),
    decreases list, 1int,
{
    let mut acc: Vec<Value> = Vec::new();
    drev_collect(list, &mut acc);
    let vals = reverse_vec(acc);
    let r = List::from_vec(vals);
    proof {
        assert(drev_list(list).reverse().reverse() =~= drev_list(list));
    }
    r
}

/// Push the deep-reversed form of every payload, in chain order.
fn drev_collect(l: List, acc: &mut Vec<Value>)
    requires
        tree_wf(l),
    ensures
        final (acc)@ == old(acc)@ + drev_list(l).reverse(),
    decreases l, 0int,
{
    let List { head } = l;
    let Cons { car, cdr } = head;
    let ghost l0 = List { head: Cons { car, cdr } };
    match car {
        Option::None => {
            proof {
                assert(acc@ =~= old(acc)@ + drev_list(l0).reverse());
            }
        },
        Option::Some(v) => {
            let ghost v0 = v;
            match v {
                Value::List(inner) => {
                    proof {
                        assert(tree_wf(l0));
                        assert(l0.head.car == Option::Some(v0));
                        assert(tree_wf_value(v0));
                        assert(v0 == Value::List(inner));
                        assert(tree_wf(*inner));
                    }
                    let sub = deep_reverse(*inner);
                    proof {
                        lemma_mk_list(drev_list(*inner));
                        lemma_wf_view_unique(sub, mk_list(drev_list(*inner)));
                    }
                    acc.push(Value::List(Box::new(sub)));
                    proof {
                        assert(acc@ =~= old(acc)@ + seq![drev_value(v0)]);
                    }
                },
                _ => {
                    acc.push(v);
                    proof {
                        assert(acc@ =~= old(acc)@ + seq![drev_value(v0)]);
                    }
                },
            }
            match cdr {
                Option::Some(Value::List(next)) => {
                    drev_collect(*next, acc);
                    proof {
                        assert(drev_list(l0).reverse() =~= seq![drev_value(v0)] + drev_list(
                            *next,
                        ).reverse());
                        assert(acc@ =~= old(acc)@ + drev_list(l0).reverse());
                    }
                },
                _ => {
                    proof {
                        assert(drev_list(l0).reverse() =~= seq![drev_value(v0)]);
                        assert(acc@ =~= old(acc)@ + drev_list(l0).reverse());
                    }
                },
            }
        },
    }
}

/// A fresh vector with the elements in the opposite order.
fn reverse_vec(v: Vec<Value>) -> (r: Vec<Value>)
    ensures
        r@ == v@.reverse(),
{
    let ghost orig = v@;
    let mut src = v;
    let mut out: Vec<Value> = Vec::new();
    loop
        invariant
            orig == v@,
            src@ + out@.reverse() =~= orig,
        decreases src@.len(),
    {
        match src.pop() {
            Option::Some(x) => {
                out.push(x);
                proof {
                    assert(out@.reverse() =~= seq![x] + out@.drop_last().reverse());
                    assert(src@ + out@.reverse() =~= orig);
                }
            },
            Option::None => {
                proof {
                    assert(out@.reverse() =~= orig);
                    assert(out@ =~= orig.reverse());
                }
                return out;
            },
        }
    }
}

} // verus!
