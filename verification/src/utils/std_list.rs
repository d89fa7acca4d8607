//! A typed doubly linked list built over an arena of slots.
//!
//! Nodes live in a vector owned by the list; links are slot indices
//! rather than addresses, so the structure needs no raw memory and a
//! stale index can never be dereferenced after its slot was vacated.
//! Vacated slots are kept on a free list and reused. Teardown is a
//! plain vector drop, so releasing a long chain never recurses.
//!
//! The invariant is the classic doubly linked one: a ghost sequence
//! `order` names the slot of each position, every interior node's
//! `next` and `prev` point at its neighbours' slots, and `head` and
//! `tail` name the two ends (both empty exactly when the length is
//! zero). The view of a list is the sequence of its elements.

use vstd::prelude::*;

verus! {

/// One arena slot: an element (empty for vacated slots) and the two
/// neighbour links.
pub struct Node<T> {
    pub elem: Option<T>,
    pub prev: Option<usize>,
    pub next: Option<usize>,
}

impl<T> Node<T> {
    /// A detached node around one element.
    pub fn new(elem: T) -> (r: Node<T>)
        ensures
            r.elem == Option::Some(elem),
            r.prev is None,
            r.next is None,
    {
        Node { elem: Option::Some(elem), prev: Option::None, next: Option::None }
    }

    /// The element back out of a detached node.
    pub fn into_element(self) -> (r: T)
        requires
            self.elem is Some,
        ensures
            r == self.elem.unwrap(),
    {
        match self.elem {
            Option::Some(e) => e,
            Option::None => unreached(),
        }
    }
}

/// A contained value sits at some position.
proof fn seq_contains_witness(s: Seq<usize>, x: usize) -> (w: int)
    requires
        s.contains(x),
    ensures
        0 <= w < s.len() && s[w] == x,
{
    let w = choose|w: int| 0 <= w < s.len() && s[w] == x;
    w
}

/// A doubly linked list of `T` with constant-time access to both ends.
pub struct List<T> {
    pub nodes: Vec<Node<T>>,
    pub free: Vec<usize>,
    pub head: Option<usize>,
    pub tail: Option<usize>,
    pub len: usize,
    pub order: Ghost<Seq<usize>>,
}

impl<T> List<T> {
    /// The slot of position `i`.
    pub open spec fn at(self, i: int) -> int {
        self.order@[i] as int
    }

    /// The doubly-linked-list invariant over the arena.
    pub open spec fn wf(self) -> bool {
        let ord = self.order@;
        let n = self.nodes@.len() as int;
        &&& self.len == ord.len()
        &&& forall|i: int|
            0 <= i < ord.len() ==> 0 <= #[trigger] ord[i] < n && self.nodes@[ord[i] as int].elem
                is Some
        &&& forall|i: int, j: int| 0 <= i < j < ord.len() ==> ord[i] != ord[j]
        &&& forall|j: int|
            0 <= j < n && (#[trigger] self.nodes@[j].elem) is Some ==> ord.contains(j as usize)
        &&& forall|k: int|
            0 <= k < self.free@.len() ==> (#[trigger] self.free@[k]) < n
                && self.nodes@[self.free@[k] as int].elem is None
        &&& forall|k1: int, k2: int|
            0 <= k1 < k2 < self.free@.len() ==> self.free@[k1] != self.free@[k2]
        &&& if ord.len() == 0 {
            self.head is None && self.tail is None
        } else {
            self.head == Option::Some(ord[0]) && self.tail == Option::Some(ord[ord.len() - 1])
        }
        &&& forall|i: int|
            0 <= i < ord.len() ==> (#[trigger] self.nodes@[ord[i] as int].next) == (if i < ord.len()
                - 1 {
                Option::Some(ord[i + 1])
            } else {
                Option::<usize>::None
            })
        &&& forall|i: int|
            0 <= i < ord.len() ==> (#[trigger] self.nodes@[ord[i] as int].prev) == (if i > 0 {
                Option::Some(ord[i - 1])
            } else {
                Option::<usize>::None
            })
    }

    /// The elements in list order: the mathematical model of the list.
    pub open spec fn view(self) -> Seq<T> {
        Seq::new(self.order@.len(), |i: int| self.nodes@[self.at(i)].elem.unwrap())
    }

    /// The empty list.
    pub fn new() -> (r: List<T>)
        ensures
            r.wf(),
            r@ == Seq::<T>::empty(),
    {
        let r = List {
            nodes: Vec::new(),
            free: Vec::new(),
            head: Option::None,
            tail: Option::None,
            len: 0,
            order: Ghost(Seq::empty()),
        };
        proof {
            assert(r@ =~= Seq::<T>::empty());
        }
        r
    }

    /// Put a fresh node into the arena, reusing a vacated slot when one
    /// exists; links, length and ends are untouched.
    fn reserve_slot(&mut self, node: Node<T>) -> (idx: usize)
        requires
            old(self).wf(),
            node.elem is Some,
        ensures
            final(self).nodes@.len() >= old(self).nodes@.len(),
            idx < final(self).nodes@.len(),
            final(self).nodes@[idx as int] == node,
            forall|j: int|
                0 <= j < final(self).nodes@.len() && j != idx ==> j < old(self).nodes@.len()
                    && final(self).nodes@[j] == old(self).nodes@[j],
            !old(self).order@.contains(idx),
            forall|k: int|
                0 <= k < final(self).free@.len() ==> ((#[trigger] final(self).free@[k]) as int)
                    < final(self).nodes@.len() && final(self).nodes@[final(self).free@[k] as int].elem
                    is None && final(self).free@[k] != idx,
            forall|k1: int, k2: int|
                0 <= k1 < k2 < final(self).free@.len() ==> final(self).free@[k1]
                    != final(self).free@[k2],
            final(self).head == old(self).head,
            final(self).tail == old(self).tail,
            final(self).len == old(self).len,
            final(self).order == old(self).order,
    {
        match self.free.pop() {
            Option::Some(i) => {
                proof {
                    assert(self.nodes@[i as int].elem is None);
                    if old(self).order@.contains(i) {
                        let w = choose|w: int|
                            0 <= w < old(self).order@.len() && old(self).order@[w] == i;
                        assert(old(self).nodes@[old(self).order@[w] as int].elem is Some);
                    }
                }
                let slot = &mut self.nodes[i];
                *slot = node;
                i
            },
            Option::None => {
                let idx = self.nodes.len();
                self.nodes.push(node);
                proof {
                    if old(self).order@.contains(idx) {
                        let w = choose|w: int|
                            0 <= w < old(self).order@.len() && old(self).order@[w] == idx;
                        assert((old(self).order@[w] as int) < (old(self).nodes@.len() as int));
                    }
                }
                idx
            },
        }
    }

    /// Splice a new element in front of the current first node.
    pub fn push_front(&mut self, elem: T)
        requires
            old(self).wf(),
            old(self)@.len() < usize::MAX,
        ensures
            final(self).wf(),
            final(self)@ == seq![elem] + old(self)@,
    {
        let node = Node { elem: Option::Some(elem), prev: Option::None, next: self.head };
        let idx = self.reserve_slot(node);
        let ghost ord0 = old(self).order@;
        match self.head {
            Option::Some(h) => {
                proof {
                    assert(ord0[0] == h && self.nodes@[h as int].elem is Some);
                }
                let slot = &mut self.nodes[h];
                slot.prev = Option::Some(idx);
            },
            Option::None => {
                self.tail = Option::Some(idx);
            },
        }
        self.head = Option::Some(idx);
        self.len = self.len + 1;
        self.order = Ghost(seq![idx] + ord0);
        proof {
            let ord = self.order@;
            assert forall|j: int|
                0 <= j < self.nodes@.len() && (#[trigger] self.nodes@[j].elem) is Some implies
                ord.contains(j as usize) by {
                if j == idx {
                    assert(ord[0] == idx);
                } else {
                    vstd::std_specs::vec::axiom_spec_len(&self.nodes);
                    assert(j <= usize::MAX);
                    assert(old(self).nodes@[j].elem is Some);
                    assert(ord0.contains(j as usize));
                    let w = seq_contains_witness(ord0, j as usize);
                    assert(ord[w + 1] == j);
                }
            }
            assert forall|i: int| 0 <= i < ord.len() implies (#[trigger] self.nodes@[ord[i] as int].next)
                == (if i < ord.len() - 1 {
                Option::Some(ord[i + 1])
            } else {
                Option::<usize>::None
            }) by {
                if i > 0 {
                    assert(ord0[i - 1] == ord[i]);
                }
            }
            assert forall|i: int| 0 <= i < ord.len() implies (#[trigger] self.nodes@[ord[i] as int].prev)
                == (if i > 0 {
                Option::Some(ord[i - 1])
            } else {
                Option::<usize>::None
            }) by {
                if i > 0 {
                    assert(ord0[i - 1] == ord[i]);
                }
            }
            assert(self.wf());
            assert(self@ =~= seq![elem] + old(self)@);
        }
    }

    /// Splice a new element after the current last node.
    pub fn push_back(&mut self, elem: T)
        requires
            old(self).wf(),
            old(self)@.len() < usize::MAX,
        ensures
            final(self).wf(),
            final(self)@ == old(self)@ + seq![elem],
    {
        let node = Node { elem: Option::Some(elem), prev: self.tail, next: Option::None };
        let idx = self.reserve_slot(node);
        let ghost ord0 = old(self).order@;
        match self.tail {
            Option::Some(t) => {
                proof {
                    assert(ord0[ord0.len() - 1] == t && self.nodes@[t as int].elem is Some);
                }
                let slot = &mut self.nodes[t];
                slot.next = Option::Some(idx);
            },
            Option::None => {
                self.head = Option::Some(idx);
            },
        }
        self.tail = Option::Some(idx);
        self.len = self.len + 1;
        self.order = Ghost(ord0 + seq![idx]);
        proof {
            let ord = self.order@;
            assert forall|j: int|
                0 <= j < self.nodes@.len() && (#[trigger] self.nodes@[j].elem) is Some implies
                ord.contains(j as usize) by {
                if j == idx {
                    assert(ord[ord.len() - 1] == idx);
                } else {
                    vstd::std_specs::vec::axiom_spec_len(&self.nodes);
                    assert(j <= usize::MAX);
                    assert(old(self).nodes@[j].elem is Some);
                    assert(ord0.contains(j as usize));
                    let w = seq_contains_witness(ord0, j as usize);
                    assert(ord[w] == j);
                }
            }
            assert forall|i: int| 0 <= i < ord.len() implies (#[trigger] self.nodes@[ord[i] as int].next)
                == (if i < ord.len() - 1 {
                Option::Some(ord[i + 1])
            } else {
                Option::<usize>::None
            }) by {
                if i < ord.len() - 1 {
                    assert(ord0[i] == ord[i]);
                }
            }
            assert forall|i: int| 0 <= i < ord.len() implies (#[trigger] self.nodes@[ord[i] as int].prev)
                == (if i > 0 {
                Option::Some(ord[i - 1])
            } else {
                Option::<usize>::None
            }) by {
                if i < ord.len() - 1 {
                    assert(ord0[i] == ord[i]);
                }
            }
            assert(self.wf());
            assert(self@ =~= old(self)@ + seq![elem]);
        }
    }

    /// Detach the first node and hand its element out; nothing on the
    /// empty list.
    pub fn pop_front(&mut self) -> (r: Option<T>)
        requires
            old(self).wf(),
        ensures
            final(self).wf(),
            old(self)@.len() == 0 ==> r is None && final(self)@ == old(self)@,
            old(self)@.len() > 0 ==> r == Option::Some(old(self)@[0]) && final(self)@ == old(self)@.skip(1),
    {
        let ghost ord0 = old(self).order@;
        match self.head {
            Option::None => {
                proof {
                    assert(final(self)@ =~= old(self)@);
                }
                Option::None
            },
            Option::Some(h) => {
                proof {
                    assert(ord0.len() > 0 && ord0[0] == h);
                    assert(self.nodes@[h as int].elem is Some);
                }
                let slot = &mut self.nodes[h];
                let elem = slot.elem.take();
                let next = slot.next;
                self.head = next;
                match next {
                    Option::Some(n) => {
                        proof {
                            assert(ord0.len() >= 2 && ord0[1] == n);
                            assert(old(self).nodes@[n as int].elem is Some);
                        }
                        let slot2 = &mut self.nodes[n];
                        slot2.prev = Option::None;
                    },
                    Option::None => {
                        self.tail = Option::None;
                    },
                }
                self.len = self.len - 1;
                self.free.push(h);
                self.order = Ghost(ord0.skip(1));
                proof {
                    let ord = self.order@;
                    assert forall|j: int|
                        0 <= j < self.nodes@.len() && (#[trigger] self.nodes@[j].elem) is Some implies
                        ord.contains(j as usize) by {
                        vstd::std_specs::vec::axiom_spec_len(&self.nodes);
                        assert(j <= usize::MAX);
                        assert(old(self).nodes@[j].elem is Some);
                        assert(ord0.contains(j as usize));
                        let w = seq_contains_witness(ord0, j as usize);
                        assert(w != 0);
                        assert(ord[w - 1] == j);
                    }
                    assert forall|k1: int, k2: int|
                        0 <= k1 < k2 < self.free@.len() implies self.free@[k1] != self.free@[k2] by {
                        if k2 == self.free@.len() - 1 {
                            assert(self.free@[k2] == h);
                            assert(old(self).nodes@[self.free@[k1] as int].elem is None);
                        }
                    }
                    assert(self.wf());
                    assert(self@ =~= old(self)@.skip(1));
                }
                elem
            },
        }
    }

    /// Detach the last node and hand its element out; nothing on the
    /// empty list.
    pub fn pop_back(&mut self) -> (r: Option<T>)
        requires
            old(self).wf(),
        ensures
            final(self).wf(),
            old(self)@.len() == 0 ==> r is None && final(self)@ == old(self)@,
            old(self)@.len() > 0 ==> r == Option::Some(old(self)@.last()) && final(self)@ == old(self)@.drop_last(),
    {
        let ghost ord0 = old(self).order@;
        match self.tail {
            Option::None => {
                proof {
                    assert(final(self)@ =~= old(self)@);
                }
                Option::None
            },
            Option::Some(t) => {
                proof {
                    assert(ord0.len() > 0 && ord0[ord0.len() - 1] == t);
                    assert(self.nodes@[t as int].elem is Some);
                }
                let slot = &mut self.nodes[t];
                let elem = slot.elem.take();
                let prev = slot.prev;
                self.tail = prev;
                match prev {
                    Option::Some(p) => {
                        proof {
                            assert(ord0.len() >= 2 && ord0[ord0.len() - 2] == p);
                            assert(old(self).nodes@[p as int].elem is Some);
                        }
                        let slot2 = &mut self.nodes[p];
                        slot2.next = Option::None;
                    },
                    Option::None => {
                        self.head = Option::None;
                    },
                }
                self.len = self.len - 1;
                self.free.push(t);
                self.order = Ghost(ord0.drop_last());
                proof {
                    let ord = self.order@;
                    assert forall|j: int|
                        0 <= j < self.nodes@.len() && (#[trigger] self.nodes@[j].elem) is Some implies
                        ord.contains(j as usize) by {
                        vstd::std_specs::vec::axiom_spec_len(&self.nodes);
                        assert(j <= usize::MAX);
                        assert(old(self).nodes@[j].elem is Some);
                        assert(ord0.contains(j as usize));
                        let w = seq_contains_witness(ord0, j as usize);
                        assert(w != ord0.len() - 1);
                        assert(ord[w] == j);
                    }
                    assert forall|k1: int, k2: int|
                        0 <= k1 < k2 < self.free@.len() implies self.free@[k1] != self.free@[k2] by {
                        if k2 == self.free@.len() - 1 {
                            assert(self.free@[k2] == t);
                            assert(old(self).nodes@[self.free@[k1] as int].elem is None);
                        }
                    }
                    assert(self.wf());
                    assert(self@ =~= old(self)@.drop_last());
                }
                elem
            },
        }
    }

    /// The first element, without removal.
    pub fn front(&self) -> (r: Option<&T>)
        requires
            self.wf(),
        ensures
            self@.len() == 0 ==> r is None,
            self@.len() > 0 ==> r is Some && *r.unwrap() == self@[0],
    {
        match self.head {
            Option::None => Option::None,
            Option::Some(h) => {
                proof {
                    assert(self.order@[0] == h);
                    assert(self.nodes@[h as int].elem is Some);
                }
                self.nodes[h].elem.as_ref()
            },
        }
    }

    /// The last element, without removal.
    pub fn back(&self) -> (r: Option<&T>)
        requires
            self.wf(),
        ensures
            self@.len() == 0 ==> r is None,
            self@.len() > 0 ==> r is Some && *r.unwrap() == self@.last(),
    {
        match self.tail {
            Option::None => Option::None,
            Option::Some(t) => {
                proof {
                    assert(self.order@[self.order@.len() - 1] == t);
                    assert(self.nodes@[t as int].elem is Some);
                }
                self.nodes[t].elem.as_ref()
            },
        }
    }

    /// The number of elements, kept by the container.
    pub fn len(&self) -> (r: usize)
        requires
            self.wf(),
        ensures
            r == self@.len(),
    {
        self.len
    }

    /// Whether the list holds nothing.
    pub fn is_empty(&self) -> (r: bool)
        requires
            self.wf(),
        ensures
            r == (self@.len() == 0),
    {
        match self.head {
            Option::None => true,
            Option::Some(_) => false,
        }
    }

    /// Detach and release every node, front first, until nothing is
    /// left.
    pub fn clear(&mut self)
        requires
            old(self).wf(),
        ensures
            final(self).wf(),
            final(self)@ == Seq::<T>::empty(),
    {
        loop
            invariant
                self.wf(),
            decreases self@.len(),
        {
            match self.pop_front() {
                Option::Some(_) => {
                },
                Option::None => {
                    proof {
                        assert(self@ =~= Seq::<T>::empty());
                    }
                    return ;
                },
            }
        }
    }

    /// A borrowed cursor over the list, able to advance from both ends
    /// until the two sides meet in the middle.
    pub fn iter(&self) -> (it: Iter<'_, T>)
        requires
            self.wf(),
        ensures
            it.wf(),
            it.remaining_seq() == self@,
    {
        let it = Iter {
            list: self,
            cur_front: self.head,
            cur_back: self.tail,
            pos: Ghost(0),
            remaining: self.len,
        };
        proof {
            assert(it.remaining_seq() =~= self@);
        }
        it
    }

    /// A draining cursor that owns the list and yields from either end.
    pub fn into_iter(self) -> (it: IntoIter<T>)
        requires
            self.wf(),
        ensures
            it.wf(),
            it.remaining_seq() == self@,
    {
        IntoIter { list: self }
    }

    /// Mutable access to the element at a given position.
    pub fn get_mut(&mut self, pos: usize) -> (r: &mut T)
        requires
            old(self).wf(),
            pos < old(self)@.len(),
        ensures
            *r == old(self)@[pos as int],
            final(self)@ == old(self)@.update(pos as int, *final(r)),
            final(self).wf(),
    {
        let ghost ord = self.order@;
        let mut i: usize = 0;
        let mut cur: usize = match self.head {
            Option::Some(h) => h,
            Option::None => {
                proof {
                    assert(false);
                }
                unreached()
            },
        };
        while i < pos
            invariant
                self.wf(),
                pos < self@.len(),
                ord == self.order@,
                0 <= i <= pos,
                cur == ord[i as int],
            decreases pos - i,
        {
            let node = &self.nodes[cur];
            match node.next {
                Option::Some(n) => {
                    cur = n;
                },
                Option::None => {
                    proof {
                        assert(false);
                    }
                },
            }
            i = i + 1;
        }
        proof {
            assert(cur == ord[pos as int]);
            assert(self.nodes@[cur as int].elem is Some);
        }
        let slot = &mut self.nodes[cur];
        let r = match &mut slot.elem {
            Option::Some(e) => e,
            Option::None => {
                proof {
                    assert(false);
                }
                unreached()
            },
        };
        proof {
            assert forall|post: List<T>, v: T|
                #![trigger post.wf(), old(self)@.update(pos as int, v)]
                {
                    &&& post.head == old(self).head
                    &&& post.tail == old(self).tail
                    &&& post.len == old(self).len
                    &&& post.order == old(self).order
                    &&& post.free == old(self).free
                    &&& post.nodes@ == old(self).nodes@.update(
                        ord[pos as int] as int,
                        Node {
                            elem: Option::Some(v),
                            prev: old(self).nodes@[ord[pos as int] as int].prev,
                            next: old(self).nodes@[ord[pos as int] as int].next,
                        },
                    )
                } implies post.wf() && post@ == old(self)@.update(pos as int, v) by {
                Self::lemma_elem_update(*old(self), post, pos as int, v);
            }
        }
        r
    }

    /// Replacing one element in place keeps the linked structure
    /// well-formed and updates exactly that position of the view.
    proof fn lemma_elem_update(pre: List<T>, post: List<T>, pos: int, v: T)
        requires
            pre.wf(),
            0 <= pos < pre@.len(),
            post.head == pre.head,
            post.tail == pre.tail,
            post.len == pre.len,
            post.order == pre.order,
            post.free == pre.free,
            post.nodes@ == pre.nodes@.update(
                pre.at(pos),
                Node {
                    elem: Option::Some(v),
                    prev: pre.nodes@[pre.at(pos)].prev,
                    next: pre.nodes@[pre.at(pos)].next,
                },
            ),
        ensures
            post.wf(),
            post@ == pre@.update(pos, v),
    {
        assert forall|j: int|
            0 <= j < post.nodes@.len() && (#[trigger] post.nodes@[j].elem) is Some implies
            post.order@.contains(j as usize) by {
            assert(pre.nodes@[j].elem is Some);
        }
        assert(post@ =~= pre@.update(pos, v));
    }

    /// Move every element of another list, in order, onto this list's
    /// back end, draining the other list.
    pub fn extend_from(&mut self, other: List<T>)
        requires
            old(self).wf(),
            other.wf(),
            old(self)@.len() + other@.len() < usize::MAX,
        ensures
            final(self).wf(),
            final(self)@ == old(self)@ + other@,
    {
        let mut rest = other;
        let ghost from = other@;
        loop
            invariant
                from == other@,
                self.wf(),
                rest.wf(),
                self@ + rest@ =~= old(self)@ + from,
                self@.len() + rest@.len() < usize::MAX,
            decreases rest@.len(),
        {
            match rest.pop_front() {
                Option::Some(e) => {
                    self.push_back(e);
                },
                Option::None => {
                    proof {
                        assert(self@ =~= old(self)@ + from);
                    }
                    return ;
                },
            }
        }
    }

    /// A copy of the list, element by element; the copy shares no
    /// storage with the original.
    pub fn duplicate(&self) -> (r: List<T>) where T: Copy
        requires
            self.wf(),
        ensures
            r.wf(),
            r@ == self@,
    {
        let mut r = List::new();
        let mut it = self.iter();
        loop
            invariant
                self.wf(),
                it.wf(),
                r.wf(),
                r@ + it.remaining_seq() =~= self@,
                r@.len() + it.remaining_seq().len() == self@.len(),
                self@.len() <= usize::MAX,
            decreases it.remaining_seq().len(),
        {
            match it.next() {
                Option::Some(e) => {
                    r.push_back(*e);
                    proof {
                        assert(r@ + it.remaining_seq() =~= self@);
                    }
                },
                Option::None => {
                    proof {
                        assert(r@ =~= self@);
                    }
                    return r;
                },
            }
        }
    }
}

/// Pushing an element on the front and then popping the front hands
/// that element back and restores the previous contents: the view
/// after the push is the element followed by the old view, whose head
/// is the element and whose tail is the old view. Together with the
/// contracts of `push_front` and `pop_front` this is the round trip.
pub proof fn lemma_push_pop_front<T>(s: Seq<T>, e: T)
    ensures
        (seq![e] + s).len() > 0,
        (seq![e] + s)[0] == e,
        (seq![e] + s).skip(1) == s,
{
    assert((seq![e] + s).skip(1) =~= s);
}

/// A list built by repeated pushes onto the back shows the pushes in
/// order, so walking it from the back yields them in the opposite
/// order: the last element of the view after a push is the pushed
/// element, and dropping it restores the previous view. Together with
/// the contracts of `push_back` and `Iter::next_back` this is the
/// reverse-traversal law.
pub proof fn lemma_push_back_next_back<T>(s: Seq<T>, e: T)
    ensures
        (s + seq![e]).len() > 0,
        (s + seq![e]).last() == e,
        (s + seq![e]).drop_last() == s,
{
    assert((s + seq![e]).drop_last() =~= s);
}

/// A borrowed double-ended cursor: a front finger, a back finger, and
/// the count of elements between them, shared by both directions so
/// the two sides meet in the middle without overlap.
pub struct Iter<'a, T> {
    pub list: &'a List<T>,
    pub cur_front: Option<usize>,
    pub cur_back: Option<usize>,
    pub pos: Ghost<int>,
    pub remaining: usize,
}

impl<'a, T> Iter<'a, T> {
    pub open spec fn wf(self) -> bool {
        &&& self.list.wf()
        &&& 0 <= self.pos@
        &&& self.pos@ + self.remaining <= self.list@.len()
        &&& self.remaining > 0 ==> {
            &&& self.cur_front == Option::Some(self.list.order@[self.pos@])
            &&& self.cur_back == Option::Some(self.list.order@[self.pos@ + self.remaining - 1])
        }
    }

    /// The elements not yet yielded from either end.
    pub open spec fn remaining_seq(self) -> Seq<T> {
        self.list@.subrange(self.pos@, self.pos@ + self.remaining)
    }

    /// How many elements are left between the two fingers.
    pub fn len(&self) -> (r: usize)
        requires
            self.wf(),
        ensures
            r == self.remaining_seq().len(),
    {
        self.remaining
    }

    /// The next element from the front; nothing once the fingers meet.
    pub fn next(&mut self) -> (r: Option<&'a T>)
        requires
            old(self).wf(),
        ensures
            final(self).wf(),
            old(self).remaining_seq().len() == 0 ==> r is None && final(self).remaining_seq()
                == old(self).remaining_seq(),
            old(self).remaining_seq().len() > 0 ==> {
                &&& r is Some
                &&& *r.unwrap() == old(self).remaining_seq()[0]
                &&& final(self).remaining_seq() == old(self).remaining_seq().skip(1)
            },
    {
        if self.remaining == 0 {
            return Option::None;
        }
        let i = match self.cur_front {
            Option::Some(i) => i,
            Option::None => {
                proof {
                    assert(false);
                }
                unreached()
            },
        };
        proof {
            assert(self.list.nodes@[i as int].elem is Some);
        }
        let node = &self.list.nodes[i];
        self.cur_front = node.next;
        self.remaining = self.remaining - 1;
        proof {
            self.pos@ = self.pos@ + 1;
            assert(self.remaining_seq() =~= old(self).remaining_seq().skip(1));
        }
        node.elem.as_ref()
    }

    /// The next element from the back; nothing once the fingers meet.
    pub fn next_back(&mut self) -> (r: Option<&'a T>)
        requires
            old(self).wf(),
        ensures
            final(self).wf(),
            old(self).remaining_seq().len() == 0 ==> r is None && final(self).remaining_seq()
                == old(self).remaining_seq(),
            old(self).remaining_seq().len() > 0 ==> {
                &&& r is Some
                &&& *r.unwrap() == old(self).remaining_seq().last()
                &&& final(self).remaining_seq() == old(self).remaining_seq().drop_last()
            },
    {
        if self.remaining == 0 {
            return Option::None;
        }
        let i = match self.cur_back {
            Option::Some(i) => i,
            Option::None => {
                proof {
                    assert(false);
                }
                unreached()
            },
        };
        proof {
            assert(self.list.nodes@[i as int].elem is Some);
        }
        let node = &self.list.nodes[i];
        self.cur_back = node.prev;
        self.remaining = self.remaining - 1;
        proof {
            assert(self.remaining_seq() =~= old(self).remaining_seq().drop_last());
        }
        node.elem.as_ref()
    }
}

/// A draining double-ended cursor: owns the list and detaches a node
/// from the chosen end at each step.
pub struct IntoIter<T> {
    pub list: List<T>,
}

impl<T> IntoIter<T> {
    pub open spec fn wf(self) -> bool {
        self.list.wf()
    }

    /// The elements not yet yielded.
    pub open spec fn remaining_seq(self) -> Seq<T> {
        self.list@
    }

    /// The next element from the front, by value.
    pub fn next(&mut self) -> (r: Option<T>)
        requires
            old(self).wf(),
        ensures
            final(self).wf(),
            old(self).remaining_seq().len() == 0 ==> r is None && final(self).remaining_seq()
                == old(self).remaining_seq(),
            old(self).remaining_seq().len() > 0 ==> {
                &&& r == Option::Some(old(self).remaining_seq()[0])
                &&& final(self).remaining_seq() == old(self).remaining_seq().skip(1)
            },
    {
        self.list.pop_front()
    }

    /// The next element from the back, by value.
    pub fn next_back(&mut self) -> (r: Option<T>)
        requires
            old(self).wf(),
        ensures
            final(self).wf(),
            old(self).remaining_seq().len() == 0 ==> r is None && final(self).remaining_seq()
                == old(self).remaining_seq(),
            old(self).remaining_seq().len() > 0 ==> {
                &&& r == Option::Some(old(self).remaining_seq().last())
                &&& final(self).remaining_seq() == old(self).remaining_seq().drop_last()
            },
    {
        self.list.pop_back()
    }
}

} // verus!
