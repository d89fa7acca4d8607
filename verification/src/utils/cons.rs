//! The cons cell: a two-slot node holding an optional payload and an
//! optional successor, each a runtime-tagged heterogeneous value.
//!
//! Payloads come from a closed universe of kinds, modelled by the
//! [`Value`] enum: an integer, a list, or a bare pair. Extraction is
//! type-directed: the caller states the [`Kind`] it expects and receives
//! nothing when the slot is empty or holds a different kind.

use vstd::prelude::*;

use crate::utils::list::List;

verus! {

/// A runtime-tagged heterogeneous value: the payload universe of the
/// cons structures.
#[derive(Debug)]
pub enum Value {
    Int(i64),
    List(Box<List>),
    Pair(Box<Cons>),
}

/// The tag a caller names when it asks a slot for a value of a
/// particular concrete type.
#[derive(Debug, Clone, Copy, PartialEq, Eq, Structural)]
pub enum Kind {
    Int,
    List,
    Pair,
}

impl Value {
    /// Whether this value's runtime tag matches the requested kind.
    pub open spec fn spec_has_kind(&self, kind: Kind) -> bool {
        match (self, kind) {
            (Value::Int(_), Kind::Int) => true,
            (Value::List(_), Kind::List) => true,
            (Value::Pair(_), Kind::Pair) => true,
            _ => false,
        }
    }

    pub fn has_kind(&self, kind: Kind) -> (r: bool)
        ensures
            r == self.spec_has_kind(kind),
    {
        match (self, kind) {
            (Value::Int(_), Kind::Int) => true,
            (Value::List(_), Kind::List) => true,
            (Value::Pair(_), Kind::Pair) => true,
            _ => false,
        }
    }

    /// Checked cast: the value itself when its tag matches the request,
    /// nothing otherwise.
    pub fn cast_ref(&self, kind: Kind) -> (r: Option<&Value>)
        ensures
            r == if self.spec_has_kind(kind) {
                Option::Some(self)
            } else {
                Option::<&Value>::None
            },
    {
        if self.has_kind(kind) {
            Option::Some(self)
        } else {
            Option::None
        }
    }

    /// The integer behind an `Int` tag, nothing for other tags.
    pub fn as_int(&self) -> (r: Option<i64>)
        ensures
            r == match self {
                Value::Int(i) => Option::Some(*i),
                _ => Option::<i64>::None,
            },
    {
        match self {
            Value::Int(i) => Option::Some(*i),
            _ => Option::None,
        }
    }

    /// A full structural copy; the clone shares no storage with the
    /// original.
    pub fn deep_clone(&self) -> (r: Value)
        ensures
            r == *self,
        decreases *self,
    {
        match self {
            Value::Int(i) => Value::Int(*i),
            Value::List(l) => Value::List(Box::new(l.deep_clone())),
            Value::Pair(c) => Value::Pair(Box::new(c.deep_clone())),
        }
    }
}

/// A cell of two ownership slots: `car` holds the payload, `cdr` the
/// successor. An empty `car` with an empty `cdr` is the canonical empty
/// cell.
#[derive(Debug)]
pub struct Cons {
    pub car: Option<Value>,
    pub cdr: Option<Value>,
}

impl Cons {
    pub fn new(car: Option<Value>, cdr: Option<Value>) -> (r: Cons)
        ensures
            r.car == car,
            r.cdr == cdr,
    {
        Cons { car, cdr }
    }

    /// Read-only view of the payload slot; does not mutate.
    pub fn car_ref(&self) -> (r: Option<&Value>)
        ensures
            r == match self.car {
                Option::Some(ref v) => Option::Some(v),
                Option::None => Option::<&Value>::None,
            },
    {
        self.car.as_ref()
    }

    /// Read-only view of the successor slot; does not mutate.
    pub fn cdr_ref(&self) -> (r: Option<&Value>)
        ensures
            r == match self.cdr {
                Option::Some(ref v) => Option::Some(v),
                Option::None => Option::<&Value>::None,
            },
    {
        self.cdr.as_ref()
    }

    /// Replace the payload slot, handing back whatever it held before.
    pub fn set_car(&mut self, car: Option<Value>) -> (r: Option<Value>)
        ensures
            final(self).car == car,
            final(self).cdr == old(self).cdr,
            r == old(self).car,
    {
        let r = self.car.take();
        self.car = car;
        r
    }

    /// Replace the successor slot, handing back whatever it held before.
    pub fn set_cdr(&mut self, cdr: Option<Value>) -> (r: Option<Value>)
        ensures
            final(self).cdr == cdr,
            final(self).car == old(self).car,
            r == old(self).cdr,
    {
        let r = self.cdr.take();
        self.cdr = cdr;
        r
    }

    /// Destructive read of the payload: empties the slot and returns
    /// what it held.
    pub fn car(&mut self) -> (r: Option<Value>)
        ensures
            final(self).car is None,
            final(self).cdr == old(self).cdr,
            r == old(self).car,
    {
        self.car.take()
    }

    /// Destructive read of the successor: empties the slot and returns
    /// what it held.
    pub fn cdr(&mut self) -> (r: Option<Value>)
        ensures
            final(self).cdr is None,
            final(self).car == old(self).car,
            r == old(self).cdr,
    {
        self.cdr.take()
    }

    /// Take the payload if it has the requested kind. The slot is
    /// emptied either way; a mismatched payload is discarded, and the
    /// caller sees "not present".
    pub fn car_downcast(&mut self, kind: Kind) -> (r: Option<Value>)
        ensures
            final(self).car is None,
            final(self).cdr == old(self).cdr,
            r == match old(self).car {
                Option::Some(v) => if v.spec_has_kind(kind) {
                    Option::Some(v)
                } else {
                    Option::<Value>::None
                },
                Option::None => Option::<Value>::None,
            },
    {
        match self.car.take() {
            Option::Some(v) => if v.has_kind(kind) {
                Option::Some(v)
            } else {
                Option::None
            },
            Option::None => Option::None,
        }
    }

    /// Take the successor if it has the requested kind, as
    /// [`Cons::car_downcast`] does for the payload.
    pub fn cdr_downcast(&mut self, kind: Kind) -> (r: Option<Value>)
        ensures
            final(self).cdr is None,
            final(self).car == old(self).car,
            r == match old(self).cdr {
                Option::Some(v) => if v.spec_has_kind(kind) {
                    Option::Some(v)
                } else {
                    Option::<Value>::None
                },
                Option::None => Option::<Value>::None,
            },
    {
        match self.cdr.take() {
            Option::Some(v) => if v.has_kind(kind) {
                Option::Some(v)
            } else {
                Option::None
            },
            Option::None => Option::None,
        }
    }

    /// Read-only typed view of the payload slot.
    pub fn car_downcast_ref(&self, kind: Kind) -> (r: Option<&Value>)
        ensures
            r == match self.car {
                Option::Some(ref v) => if v.spec_has_kind(kind) {
                    Option::Some(v)
                } else {
                    Option::<&Value>::None
                },
                Option::None => Option::<&Value>::None,
            },
    {
        match self.car.as_ref() {
            Option::Some(v) => v.cast_ref(kind),
            Option::None => Option::None,
        }
    }

    /// Read-only typed view of the successor slot.
    pub fn cdr_downcast_ref(&self, kind: Kind) -> (r: Option<&Value>)
        ensures
            r == match self.cdr {
                Option::Some(ref v) => if v.spec_has_kind(kind) {
                    Option::Some(v)
                } else {
                    Option::<&Value>::None
                },
                Option::None => Option::<&Value>::None,
            },
    {
        match self.cdr.as_ref() {
            Option::Some(v) => v.cast_ref(kind),
            Option::None => Option::None,
        }
    }

    /// A full structural copy of the cell and everything it owns.
    pub fn deep_clone(&self) -> (r: Cons)
        ensures
            r == *self,
        decreases *self,
    {
        let car = match &self.car {
            Option::Some(v) => Option::Some(v.deep_clone()),
            Option::None => Option::None,
        };
        let cdr = match &self.cdr {
            Option::Some(v) => Option::Some(v.deep_clone()),
            Option::None => Option::None,
        };
        Cons { car, cdr }
    }
}

impl Default for Cons {
    /// The canonical empty cell: both slots empty.
    fn default() -> (r: Cons)
        ensures
            r.car is None,
            r.cdr is None,
    {
        Cons { car: Option::None, cdr: Option::None }
    }
}

/// Structural equality on values: two values are equal exactly when
/// their tags match and their contents are recursively equal.
pub fn value_eq(a: &Value, b: &Value) -> (r: bool)
    ensures
        r == (a == b),
    decreases *a,
{
    match (a, b) {
        (Value::Int(x), Value::Int(y)) => *x == *y,
        (Value::List(x), Value::List(y)) => list_eq(x, y),
        (Value::Pair(x), Value::Pair(y)) => cons_eq(x, y),
        _ => {
            proof {
                assert(a != b);
            }
            false
        },
    }
}

/// Structural equality on cells: both slots must agree, each either
/// empty on both sides or holding equal values of the same kind.
pub fn cons_eq(a: &Cons, b: &Cons) -> (r: bool)
    ensures
        r == (a == b),
    decreases *a,
{
    let car_same = match (&a.car, &b.car) {
        (Option::None, Option::None) => true,
        (Option::Some(x), Option::Some(y)) => value_eq(x, y),
        _ => false,
    };
    if !car_same {
        return false;
    }
    match (&a.cdr, &b.cdr) {
        (Option::None, Option::None) => true,
        (Option::Some(x), Option::Some(y)) => value_eq(x, y),
        _ => false,
    }
}

/// Structural equality on lists.
pub fn list_eq(a: &List, b: &List) -> (r: bool)
    ensures
        r == (a == b),
    decreases *a,
{
    cons_eq(&a.head, &b.head)
}

impl PartialEq for Value {
    fn eq(&self, other: &Value) -> (r: bool) {
        value_eq(self, other)
    }
}

impl vstd::std_specs::cmp::PartialEqSpecImpl for Value {
    open spec fn obeys_eq_spec() -> bool {
        true
    }

    open spec fn eq_spec(&self, other: &Value) -> bool {
        *self == *other
    }
}

impl PartialEq for Cons {
    fn eq(&self, other: &Cons) -> (r: bool) {
        cons_eq(self, other)
    }
}

impl vstd::std_specs::cmp::PartialEqSpecImpl for Cons {
    open spec fn obeys_eq_spec() -> bool {
        true
    }

    open spec fn eq_spec(&self, other: &Cons) -> bool {
        *self == *other
    }
}

} // verus!
