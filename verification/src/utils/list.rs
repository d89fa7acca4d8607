//! The heterogeneous singly linked list: a chain of cons cells whose
//! payloads are runtime-tagged [`Value`]s.
//!
//! A list owns one head cell. In a well-formed list every interior cell
//! carries a payload, each successor slot holds the next list node, and
//! the chain ends in an empty successor slot, so every traversal
//! terminates. The mathematical model of a list is the sequence of its
//! payloads, exposed as the view `l@`.

use vstd::prelude::*;

use crate::utils::cons::Cons;
use crate::utils::cons::Value;

verus! {

/// A singly linked heterogeneous list: the owner of one head cell.
#[derive(Debug, PartialEq)]
pub struct List {
    pub head: Cons,
}

impl List {
    /// The sequence of payloads along the chain.
    pub open spec fn elems(self) -> Seq<Value>
        decreases self,
    {
        match self.head.car {
            Option::None => Seq::empty(),
            Option::Some(v) => seq![v].add(
                match self.head.cdr {
                    Option::Some(Value::List(next)) => next.elems(),
                    _ => Seq::empty(),
                },
            ),
        }
    }
}

impl View for List {
    type V = Seq<Value>;

    open spec fn view(&self) -> Seq<Value> {
        self.elems()
    }
}

/// How a list node's view decomposes, for each shape of the head cell.
pub broadcast proof fn lemma_list_view(l: List)
    ensures
        (#[trigger] l@) == match l.head.car {
            Option::None => Seq::<Value>::empty(),
            Option::Some(v) => match l.head.cdr {
                Option::Some(Value::List(next)) => seq![v] + next@,
                _ => seq![v],
            },
        },
{
    match l.head.car {
        Option::None => {},
        Option::Some(v) => {
            match l.head.cdr {
                Option::Some(Value::List(next)) => {
                    assert(l@ =~= seq![v] + next@);
                },
                _ => {
                    assert(l@ =~= seq![v]);
                },
            }
        },
    }
}

impl List {
    /// Well-formedness: a payload in every cell that has a successor,
    /// every successor a non-empty well-formed list node, and no other
    /// kind of value in a successor slot.
    pub open spec fn wf(self) -> bool
        decreases self,
    {
        match self.head.cdr {
            Option::None => true,
            Option::Some(Value::List(next)) => self.head.car is Some && next.head.car is Some
                && next.wf(),
            Option::Some(_) => false,
        }
    }

    /// A single-element list around one payload.
    pub fn new(car: Value) -> (r: List)
        ensures
            r@ == seq![car],
            r.wf(),
    {
        let r = List { head: Cons::new(Option::Some(car), Option::None) };
        proof {
            assert(r@ =~= seq![car]);
        }
        r
    }

    /// Number of elements; zero for the empty list.
    pub fn len(&self) -> (r: usize)
        requires
            self.wf(),
            self@.len() <= usize::MAX,
        ensures
            r == self@.len(),
        decreases *self,
    {
        proof {
            broadcast use lemma_list_view;

        }
        match &self.head.car {
            Option::None => 0,
            Option::Some(_) => {
                match &self.head.cdr {
                    Option::Some(Value::List(next)) => {
                        let rest: usize = next.len();
                        1 + rest
                    },
                    _ => 1,
                }
            },
        }
    }

    /// Move the whole list out, leaving the empty list behind.
    pub fn take(&mut self) -> (r: List)
        ensures
            r == *old(self),
            final(self)@ == Seq::<Value>::empty(),
            final(self).wf(),
    {
        let mut out = List { head: Cons::new(Option::None, Option::None) };
        core::mem::swap(self, &mut out);
        proof {
            assert(self@ =~= Seq::<Value>::empty());
        }
        out
    }

    /// Pop the first payload off the list; nothing on the empty list.
    pub fn car(&mut self) -> (r: Option<Value>)
        requires
            old(self).wf(),
        ensures
            final(self).wf(),
            old(self)@.len() == 0 ==> r is None && final(self)@ == old(self)@,
            old(self)@.len() > 0 ==> r == Option::Some(old(self)@[0]) && final(self)@ == old(self)@.skip(1),
    {
        proof {
            broadcast use lemma_list_view;

        }
        let first = self.head.car();
        match first {
            Option::None => Option::None,
            Option::Some(v) => {
                let rest = self.head.cdr();
                match rest {
                    Option::Some(Value::List(next)) => {
                        self.head = next.into_head();
                        proof {
                            assert(self@ =~= old(self)@.skip(1));
                        }
                    },
                    Option::None => {
                        proof {
                            assert(self@ =~= old(self)@.skip(1));
                        }
                    },
                    Option::Some(_) => {
                        proof {
                            assert(false);
                        }
                    },
                }
                Option::Some(v)
            },
        }
    }

    /// Unwrap the head cell of an owned list node.
    pub fn into_head(self) -> (r: Cons)
        ensures
            r == self.head,
    {
        let List { head } = self;
        head
    }

    /// Read-only access to the first payload.
    pub fn car_ref(&self) -> (r: Option<&Value>)
        requires
            self.wf(),
        ensures
            self@.len() == 0 ==> r is None,
            self@.len() > 0 ==> r is Some && *r.unwrap() == self@[0],
    {
        proof {
            broadcast use lemma_list_view;

        }
        self.head.car_ref()
    }

    /// Mutable access to the first payload.
    pub fn car_mut(&mut self) -> (r: &mut Value)
        requires
            old(self).wf(),
            old(self)@.len() > 0,
        ensures
            *r == old(self)@[0],
            final(self)@ == old(self)@.update(0, *final(r)),
            final(self).wf(),
    {
        proof {
            broadcast use lemma_list_view;

        }
        let r = match &mut self.head.car {
            Option::Some(v) => v,
            Option::None => {
                proof {
                    assert(false);
                }
                unreached()
            },
        };
        proof {
            assert forall|v: Value|
                (List { head: Cons { car: Option::Some(v), cdr: old(self).head.cdr } })@ == old(self)@.update(0, v) by {
                broadcast use lemma_list_view;

                assert((List { head: Cons { car: Option::Some(v), cdr: old(self).head.cdr } })@
                    =~= old(self)@.update(0, v));
            }
        }
        r
    }

    /// Replace the first payload; on the empty list this creates the
    /// one-element list.
    pub fn set_car(&mut self, car: Value)
        requires
            old(self).wf(),
        ensures
            final(self).wf(),
            old(self)@.len() == 0 ==> final(self)@ == seq![car],
            old(self)@.len() > 0 ==> final(self)@ == old(self)@.update(0, car),
    {
        proof {
            broadcast use lemma_list_view;

        }
        self.head.set_car(Option::Some(car));
        proof {
            if old(self)@.len() == 0 {
                assert(self@ =~= seq![car]);
            } else {
                assert(self@ =~= old(self)@.update(0, car));
            }
        }
    }

    /// Detach and return the rest of the list, keeping only the first
    /// node; nothing when there is no successor.
    pub fn cdr(&mut self) -> (r: Option<List>)
        requires
            old(self).wf(),
        ensures
            final(self).wf(),
            old(self)@.len() < 2 ==> r is None && final(self)@ == old(self)@,
            old(self)@.len() >= 2 ==> {
                &&& r is Some
                &&& r.unwrap()@ == old(self)@.skip(1)
                &&& r.unwrap().wf()
                &&& final(self)@ == old(self)@.take(1)
            },
    {
        proof {
            broadcast use lemma_list_view;

        }
        let rest = self.head.cdr();
        match rest {
            Option::Some(Value::List(next)) => {
                proof {
                    assert(self@ =~= old(self)@.take(1));
                    assert(next@ =~= old(self)@.skip(1));
                }
                Option::Some(*next)
            },
            Option::None => Option::None,
            Option::Some(_) => {
                proof {
                    assert(false);
                }
                Option::None
            },
        }
    }

    /// Read-only access to the rest of the list.
    pub fn cdr_ref(&self) -> (r: Option<&List>)
        requires
            self.wf(),
        ensures
            self@.len() < 2 ==> r is None,
            self@.len() >= 2 ==> {
                &&& r is Some
                &&& r.unwrap()@ == self@.skip(1)
                &&& r.unwrap().wf()
            },
    {
        proof {
            broadcast use lemma_list_view;

        }
        match &self.head.cdr {
            Option::Some(Value::List(next)) => {
                proof {
                    assert(next@ =~= self@.skip(1));
                }
                Option::Some(next)
            },
            _ => Option::None,
        }
    }

    /// Mutable access to the rest of the list.
    pub fn cdr_mut(&mut self) -> (r: &mut List)
        requires
            old(self).wf(),
            old(self)@.len() >= 2,
        ensures
            (*r)@ == old(self)@.skip(1),
            r.wf(),
            final(self)@ == old(self)@.take(1) + final(r)@,
            final(r).wf() && final(r)@.len() > 0 ==> final(self).wf(),
    {
        proof {
            broadcast use lemma_list_view;

        }
        let r = match &mut self.head.cdr {
            Option::Some(Value::List(next)) => &mut **next,
            _ => {
                proof {
                    assert(false);
                }
                unreached()
            },
        };
        proof {
            assert((*r)@ =~= old(self)@.skip(1));
            assert forall|t: List|
                (List {
                    head: Cons {
                        car: old(self).head.car,
                        cdr: Option::Some(Value::List(Box::new(t))),
                    },
                })@ == old(self)@.take(1) + t@ by {
                broadcast use lemma_list_view;

                assert((List {
                    head: Cons {
                        car: old(self).head.car,
                        cdr: Option::Some(Value::List(Box::new(t))),
                    },
                })@ =~= old(self)@.take(1) + t@);
            }
        }
        r
    }

    /// Replace the successor chain, handing back the old one. The new
    /// chain must be a non-empty well-formed list, or nothing.
    pub fn set_cdr(&mut self, cdr: Option<List>) -> (r: Option<List>)
        requires
            old(self).wf(),
            old(self)@.len() > 0,
            match cdr {
                Option::Some(l) => l.wf() && l@.len() > 0,
                Option::None => true,
            },
        ensures
            final(self).wf(),
            final(self)@ == old(self)@.take(1) + match cdr {
                Option::Some(l) => l@,
                Option::None => Seq::<Value>::empty(),
            },
            old(self)@.len() < 2 ==> r is None,
            old(self)@.len() >= 2 ==> r is Some && r.unwrap()@ == old(self)@.skip(1)
                && r.unwrap().wf(),
    {
        proof {
            broadcast use lemma_list_view;

        }
        let new_cdr = match cdr {
            Option::Some(l) => Option::Some(Value::List(Box::new(l))),
            Option::None => Option::None,
        };
        let prev = self.head.set_cdr(new_cdr);
        proof {
            assert(self@ =~= old(self)@.take(1) + match cdr {
                Option::Some(l) => l@,
                Option::None => Seq::<Value>::empty(),
            });
        }
        match prev {
            Option::Some(Value::List(next)) => {
                proof {
                    assert(next@ =~= old(self)@.skip(1));
                }
                Option::Some(*next)
            },
            Option::None => Option::None,
            Option::Some(_) => {
                proof {
                    assert(false);
                }
                Option::None
            },
        }
    }

    /// Add a payload at the front.
    pub fn push_front(&mut self, v: Value)
        requires
            old(self).wf(),
        ensures
            final(self).wf(),
            final(self)@ == seq![v] + old(self)@,
    {
        proof {
            broadcast use lemma_list_view;

        }
        let rest = self.take();
        let is_empty = match &rest.head.car {
            Option::None => true,
            Option::Some(_) => false,
        };
        if is_empty {
            self.head = Cons::new(Option::Some(v), Option::None);
        } else {
            self.head = Cons::new(Option::Some(v), Option::Some(Value::List(Box::new(rest))));
        }
        proof {
            assert(self@ =~= seq![v] + old(self)@);
        }
    }

    /// Consume two lists and chain the second after the last node of
    /// the first.
    pub fn append(self, other: List) -> (r: List)
        requires
            self.wf(),
            other.wf(),
        ensures
            r.wf(),
            r@ == self@ + other@,
        decreases self,
    {
        proof {
            broadcast use lemma_list_view;

        }
        let List { head } = self;
        let Cons { car, cdr } = head;
        match car {
            Option::None => {
                proof {
                    assert(other@ =~= self@ + other@);
                }
                other
            },
            Option::Some(v) => {
                match cdr {
                    Option::Some(Value::List(next)) => {
                        let rest = next.append(other);
                        let r = if rest.is_empty_node() {
                            List { head: Cons::new(Option::Some(v), Option::None) }
                        } else {
                            List {
                                head: Cons::new(
                                    Option::Some(v),
                                    Option::Some(Value::List(Box::new(rest))),
                                ),
                            }
                        };
                        proof {
                            assert(r@ =~= self@ + other@);
                        }
                        r
                    },
                    _ => {
                        let r = if other.is_empty_node() {
                            List { head: Cons::new(Option::Some(v), Option::None) }
                        } else {
                            List {
                                head: Cons::new(
                                    Option::Some(v),
                                    Option::Some(Value::List(Box::new(other))),
                                ),
                            }
                        };
                        proof {
                            assert(r@ =~= self@ + other@);
                        }
                        r
                    },
                }
            },
        }
    }

    /// Whether the head cell carries no payload, which for a
    /// well-formed list means the list is empty.
    pub fn is_empty_node(&self) -> (r: bool)
        ensures
            r == (self.head.car is None),
    {
        match &self.head.car {
            Option::None => true,
            Option::Some(_) => false,
        }
    }

    /// Consume the list and return it with the element order inverted.
    pub fn reverse(self) -> (r: List)
        requires
            self.wf(),
        ensures
            r.wf(),
            r@ == self@.reverse(),
    {
        let mut rest = self;
        let mut acc = List { head: Cons::new(Option::None, Option::None) };
        proof {
            assert(acc@ =~= Seq::<Value>::empty());
        }
        loop
            invariant
                rest.wf(),
                acc.wf(),
                acc@.reverse() + rest@ =~= self@,
            decreases rest@.len(),
        {
            let v = rest.car();
            match v {
                Option::Some(v) => {
                    proof {
                        assert((seq![v] + acc@).reverse() =~= acc@.reverse() + seq![v]);
                        assert((acc@.reverse() + seq![v]) + rest@ =~= self@);
                    }
                    acc.push_front(v);
                },
                Option::None => {
                    proof {
                        assert(acc@.reverse() =~= self@);
                        assert(acc@ =~= self@.reverse());
                    }
                    return acc;
                },
            }
        }
    }

    /// Build a list holding the values of a vector, in order.
    pub fn from_vec(values: Vec<Value>) -> (r: List)
        ensures
            r.wf(),
            r@ == values@,
    {
        let mut r = List { head: Cons::new(Option::None, Option::None) };
        proof {
            assert(r@ =~= Seq::<Value>::empty());
        }
        let ghost orig: Seq<Value> = values@;
        let mut rem = values;
        loop
            invariant
                orig == values@,
                r.wf(),
                rem@ + r@ =~= orig,
            decreases rem@.len(),
        {
            match rem.pop() {
                Option::Some(v) => {
                    r.push_front(v);
                    proof {
                        assert(rem@ + r@ =~= orig);
                    }
                },
                Option::None => {
                    proof {
                        assert(r@ =~= orig);
                    }
                    return r;
                },
            }
        }
    }

    /// Append every value of a vector, in order, after the last node.
    pub fn extend(&mut self, values: Vec<Value>)
        requires
            old(self).wf(),
        ensures
            final(self).wf(),
            final(self)@ == old(self)@ + values@,
    {
        let added = List::from_vec(values);
        let cur = self.take();
        let joined = cur.append(added);
        let mut joined = joined;
        core::mem::swap(self, &mut joined);
    }

    /// A full structural copy; mutating the copy leaves the original
    /// untouched.
    pub fn deep_clone(&self) -> (r: List)
        ensures
            r == *self,
        decreases *self,
    {
        List { head: self.head.deep_clone() }
    }
}

impl List {
    /// Mutable access to the last node of the chain.
    pub fn tail(&mut self) -> (r: &mut List)
        requires
            old(self).wf(),
            old(self)@.len() > 0,
        ensures
            (*r)@ == seq![old(self)@.last()],
            r.wf(),
            final(self)@ == old(self)@.drop_last() + final(r)@,
            final(r).wf() && final(r)@.len() > 0 ==> final(self).wf(),
        decreases old(self)@.len(),
    {
        proof {
            broadcast use lemma_list_view;

        }
        let has_next = match &self.head.cdr {
            Option::Some(_) => true,
            Option::None => false,
        };
        if has_next {
            let rest = self.cdr_mut();
            let r = rest.tail();
            proof {
                assert(old(self)@.take(1) + old(self)@.skip(1).drop_last() =~= old(self)@.drop_last());
            }
            r
        } else {
            proof {
                assert(old(self)@ =~= seq![old(self)@.last()]);
                assert(old(self)@.drop_last() =~= Seq::<Value>::empty());
            }
            self
        }
    }

    /// Mutable access to the payload at a given position.
    pub fn nth_mut(&mut self, i: usize) -> (r: &mut Value)
        requires
            old(self).wf(),
            i < old(self)@.len(),
        ensures
            *r == old(self)@[i as int],
            final(self)@ == old(self)@.update(i as int, *final(r)),
            final(self).wf(),
        decreases i,
    {
        if i == 0 {
            self.car_mut()
        } else {
            let rest = self.cdr_mut();
            let r = rest.nth_mut(i - 1);
            proof {
                assert forall|v: Value|
                    old(self)@.take(1) + old(self)@.skip(1).update(i - 1, v) == old(self)@.update(i as int, v) by {
                    assert(old(self)@.take(1) + old(self)@.skip(1).update(i - 1, v) =~= old(self)@.update(i as int, v));
                }
            }
            r
        }
    }

    /// A fresh by-reference forward iterator over this list.
    pub fn iter(&self) -> (it: Iter<'_>)
        requires
            self.wf(),
        ensures
            it.wf(),
            it.remaining() == self@,
    {
        if self.is_empty_node() {
            Iter { rest: Option::None }
        } else {
            Iter { rest: Option::Some(self) }
        }
    }

    /// A by-reference iterator that yields only the integer payloads,
    /// silently skipping payloads of other kinds.
    pub fn iter_downcast(&self) -> (it: IterDowncast<'_>)
        requires
            self.wf(),
        ensures
            it.wf(),
            it.remaining_ints() == ints_of(self@),
    {
        IterDowncast { inner: self.iter() }
    }

    /// A draining iterator that consumes the list and yields every
    /// payload in order.
    pub fn into_iter(self) -> (it: IntoIter)
        requires
            self.wf(),
        ensures
            it.wf(),
            it.remaining() == self@,
    {
        IntoIter { rest: self }
    }

    /// A draining iterator that consumes the list and yields only its
    /// integer payloads, silently skipping the rest.
    pub fn into_iter_downcast(self) -> (it: IntoIterDowncast)
        requires
            self.wf(),
        ensures
            it.wf(),
            it.remaining_ints() == ints_of(self@),
    {
        IntoIterDowncast { rest: self }
    }
}

/// The integer payloads of a payload sequence, in order.
pub open spec fn ints_of(s: Seq<Value>) -> Seq<i64>
    decreases s.len(),
{
    if s.len() == 0 {
        Seq::empty()
    } else {
        (match s[0] {
            Value::Int(i) => seq![i],
            _ => Seq::<i64>::empty(),
        }) + ints_of(s.skip(1))
    }
}

/// A by-reference forward iterator: borrows the list and yields each
/// payload once; a fresh one must be made to traverse again.
pub struct Iter<'a> {
    pub rest: Option<&'a List>,
}

impl<'a> Iter<'a> {
    /// The payloads not yet yielded.
    pub open spec fn remaining(self) -> Seq<Value> {
        match self.rest {
            Option::Some(l) => l@,
            Option::None => Seq::empty(),
        }
    }

    pub open spec fn wf(self) -> bool {
        match self.rest {
            Option::Some(l) => l.wf(),
            Option::None => true,
        }
    }

    /// The next payload, by reference; nothing once exhausted.
    pub fn next(&mut self) -> (r: Option<&'a Value>)
        requires
            old(self).wf(),
        ensures
            final(self).wf(),
            old(self).remaining().len() == 0 ==> r is None && final(self).remaining() == old(self).remaining(),
            old(self).remaining().len() > 0 ==> {
                &&& r is Some
                &&& *r.unwrap() == old(self).remaining()[0]
                &&& final(self).remaining() == old(self).remaining().skip(1)
            },
    {
        match self.rest {
            Option::None => Option::None,
            Option::Some(l) => {
                match l.car_ref() {
                    Option::None => {
                        self.rest = Option::None;
                        Option::None
                    },
                    Option::Some(v) => {
                        self.rest = l.cdr_ref();
                        proof {
                            if l@.len() < 2 {
                                assert(self.remaining() =~= old(self).remaining().skip(1));
                            }
                        }
                        Option::Some(v)
                    },
                }
            },
        }
    }
}

/// A by-reference iterator filtered to integer payloads.
pub struct IterDowncast<'a> {
    pub inner: Iter<'a>,
}

impl<'a> IterDowncast<'a> {
    /// The integers not yet yielded.
    pub open spec fn remaining_ints(self) -> Seq<i64> {
        ints_of(self.inner.remaining())
    }

    pub open spec fn wf(self) -> bool {
        self.inner.wf()
    }

    /// The next integer payload, skipping payloads of other kinds;
    /// nothing once no integer is left.
    pub fn next(&mut self) -> (r: Option<i64>)
        requires
            old(self).wf(),
        ensures
            final(self).wf(),
            old(self).remaining_ints().len() == 0 ==> r is None,
            old(self).remaining_ints().len() > 0 ==> {
                &&& r == Option::Some(old(self).remaining_ints()[0])
                &&& final(self).remaining_ints() == old(self).remaining_ints().skip(1)
            },
    {
        loop
            invariant
                self.wf(),
                ints_of(self.inner.remaining()) == old(self).remaining_ints(),
            decreases self.inner.remaining().len(),
        {
            let ghost before = self.inner.remaining();
            match self.inner.next() {
                Option::None => {
                    return Option::None;
                },
                Option::Some(v) => {
                    match v.as_int() {
                        Option::Some(i) => {
                            proof {
                                assert(ints_of(before) == seq![i] + ints_of(before.skip(1)));
                                assert(ints_of(before).skip(1) =~= ints_of(before.skip(1)));
                            }
                            return Option::Some(i);
                        },
                        Option::None => {
                            proof {
                                assert(ints_of(before) == ints_of(before.skip(1)));
                                assert(ints_of(before) =~= ints_of(before.skip(1)));
                            }
                        },
                    }
                },
            }
        }
    }
}

/// An owned draining iterator: consumes the list node by node.
pub struct IntoIter {
    pub rest: List,
}

impl IntoIter {
    /// The payloads not yet yielded.
    pub open spec fn remaining(self) -> Seq<Value> {
        self.rest@
    }

    pub open spec fn wf(self) -> bool {
        self.rest.wf()
    }

    /// The next payload, by value; nothing once the list is drained.
    pub fn next(&mut self) -> (r: Option<Value>)
        requires
            old(self).wf(),
        ensures
            final(self).wf(),
            old(self).remaining().len() == 0 ==> r is None && final(self).remaining() == old(self).remaining(),
            old(self).remaining().len() > 0 ==> {
                &&& r == Option::Some(old(self).remaining()[0])
                &&& final(self).remaining() == old(self).remaining().skip(1)
            },
    {
        self.rest.car()
    }
}

/// An owned draining iterator filtered to integer payloads.
pub struct IntoIterDowncast {
    pub rest: List,
}

impl IntoIterDowncast {
    /// The integers not yet yielded.
    pub open spec fn remaining_ints(self) -> Seq<i64> {
        ints_of(self.rest@)
    }

    pub open spec fn wf(self) -> bool {
        self.rest.wf()
    }

    /// The next integer payload, discarding payloads of other kinds;
    /// nothing once no integer is left.
    pub fn next(&mut self) -> (r: Option<i64>)
        requires
            old(self).wf(),
        ensures
            final(self).wf(),
            old(self).remaining_ints().len() == 0 ==> r is None,
            old(self).remaining_ints().len() > 0 ==> {
                &&& r == Option::Some(old(self).remaining_ints()[0])
                &&& final(self).remaining_ints() == old(self).remaining_ints().skip(1)
            },
    {
        loop
            invariant
                self.wf(),
                ints_of(self.rest@) == old(self).remaining_ints(),
            decreases self.rest@.len(),
        {
            let ghost before = self.rest@;
            match self.rest.car() {
                Option::None => {
                    return Option::None;
                },
                Option::Some(v) => {
                    match v.as_int() {
                        Option::Some(i) => {
                            proof {
                                assert(ints_of(before) == seq![i] + ints_of(before.skip(1)));
                                assert(ints_of(before).skip(1) =~= ints_of(before.skip(1)));
                            }
                            return Option::Some(i);
                        },
                        Option::None => {
                            proof {
                                assert(ints_of(before) == ints_of(before.skip(1)));
                            }
                        },
                    }
                },
            }
        }
    }
}

/// A forward traversal visits the payload sequence in order: with the
/// contracts of `from_vec` (the view of a built list is the input
/// sequence), `iter` (a fresh iterator's remaining sequence is the
/// view) and `Iter::next` (each call yields the head of the remaining
/// sequence and keeps exactly its tail), the call that finds `i`
/// payloads already taken yields the `i`-th member of the sequence.
pub proof fn lemma_forward_iteration(s: Seq<Value>, i: int)
    requires
        0 <= i < s.len(),
    ensures
        s.skip(i)[0] == s[i],
        s.skip(i).skip(1) == s.skip(i + 1),
{
    assert(s.skip(i).skip(1) =~= s.skip(i + 1));
}

/// Reversing a payload sequence twice gives it back unchanged: with
/// the contracts of `from_vec` (which builds the view of its input)
/// and `reverse` (which reverses the view), reversing a built list
/// twice shows the original sequence again.
pub proof fn lemma_reverse_involution(s: Seq<Value>)
    ensures
        s.reverse().reverse() == s,
{
    assert(s.reverse().reverse() =~= s);
}

/// Building a list from a sequence and taking its length gives the
/// sequence's length: the composition of the contracts of `from_vec`
/// (view equals the input) and `len` (result equals the view length),
/// for every finite sequence including the empty one.
pub proof fn lemma_build_len(s: Seq<Value>, l: List)
    requires
        l.wf(),
        l@ == s,
    ensures
        l@.len() == s.len(),
{
}

impl Default for List {
    /// The empty list.
    fn default() -> (r: List)
        ensures
            r@ == Seq::<Value>::empty(),
            r.wf(),
    {
        let r = List { head: Cons { car: Option::None, cdr: Option::None } };
        proof {
            assert(r@ =~= Seq::<Value>::empty());
        }
        r
    }
}

} // verus!
