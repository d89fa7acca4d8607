//! The last pair of a list, and list reversal by iteration and by
//! recursion.

use vstd::prelude::*;

use crate::utils::list::List;

verus! {

/// The one-element list holding the last payload.
pub fn last_pair(list: List) -> (r: List)
    requires
        list.wf(),
        list@.len() > 0,
    ensures
        r.wf(),
        r@ == seq![list@.last()],
{
    let mut l = list;
    loop
        invariant
            l.wf(),
            l@.len() > 0,
            l@.last() == list@.last(),
        decreases l@.len(),
    {
        match l.cdr() {
            Option::Some(next) => {
                proof {
                    assert(next@.last() == list@.last());
                }
                l = next;
            },
            Option::None => {
                proof {
                    assert(l@ =~= seq![list@.last()]);
                }
                return l;
            },
        }
    }
}

/// The list with its payload order inverted, by iteration.
pub fn reverse(list: List) -> (r: List)
    requires
        list.wf(),
    ensures
        r.wf(),
        r@ == list@.reverse(),
{
    list.reverse()
}

/// The list with its payload order inverted, by recursion: the rest is
/// reversed first, and the head node is appended behind it.
pub fn reverse_rec(list: &mut List) -> (r: List)
    requires
        old(list).wf(),
    ensures
        r.wf(),
        r@ == old(list)@.reverse(),
        final (list)@ == Seq::<crate::utils::cons::Value>::empty(),
        final (list).wf(),
    decreases old(list)@.len(),
{
    match list.cdr() {
        Option::None => {
            let r = list.take();
            proof {
                assert(r@ =~= old(list)@.reverse());
            }
            r
        },
        Option::Some(next) => {
            let mut next = next;
            let head = reverse_rec(&mut next);
            let first = list.take();
            let r = head.append(first);
            proof {
                assert(r@ =~= old(list)@.reverse());
            }
            r
        },
    }
}

} // verus!
