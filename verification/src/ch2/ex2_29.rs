//! Binary mobiles: a mobile is two branches, a branch is a rod length
//! and either a plain weight or another mobile. One representation
//! stores the pairs in heterogeneous lists, the other directly in
//! cons cells.

use vstd::prelude::*;

use crate::utils::cons::Cons;
use crate::utils::cons::Value;
use crate::utils::list::List;

verus! {

/// A mobile over the list representation.
#[derive(Debug)]
pub struct MobileList {
    pub data: List,
}

/// What hangs from a branch: a bare weight or a further mobile.
#[derive(Debug)]
pub enum StructureList {
    MobileList(MobileList),
    Weight(i64),
}

/// A branch over the list representation: a rod length and what hangs
/// from it.
#[derive(Debug)]
pub struct BranchList {
    pub data: List,
}

/// Shape of a stored structure value: an integer weight or a nested
/// well-formed mobile list.
pub open spec fn structure_value_ok(v: Value) -> bool
    decreases v,
{
    match v {
        Value::Int(_) => true,
        Value::List(l) => mobile_list_ok(*l),
        Value::Pair(_) => false,
    }
}

/// Shape of a mobile list: exactly two branch lists.
pub open spec fn mobile_list_ok(l: List) -> bool
    decreases l,
{
    match l.head.car {
        Option::Some(Value::List(b1)) => match l.head.cdr {
            Option::Some(Value::List(rest)) => match rest.head.car {
                Option::Some(Value::List(b2)) => rest.head.cdr is None && branch_list_ok(*b1)
                    && branch_list_ok(*b2),
                _ => false,
            },
            _ => false,
        },
        _ => false,
    }
}

/// Shape of a branch list: a rod length, then the hanging structure.
pub open spec fn branch_list_ok(l: List) -> bool
    decreases l,
{
    match l.head.car {
        Option::Some(Value::Int(_)) => match l.head.cdr {
            Option::Some(Value::List(rest)) => match rest.head.car {
                Option::Some(v) => rest.head.cdr is None && structure_value_ok(v),
                _ => false,
            },
            _ => false,
        },
        _ => false,
    }
}

/// The weight hanging from a structure value.
pub open spec fn structure_weight(v: Value) -> int
    decreases v,
{
    match v {
        Value::Int(w) => w as int,
        Value::List(l) => mobile_weight(*l),
        Value::Pair(_) => 0,
    }
}

/// The total weight of a mobile list: both branches together.
pub open spec fn mobile_weight(l: List) -> int
    decreases l,
{
    match l.head.car {
        Option::Some(Value::List(b1)) => match l.head.cdr {
            Option::Some(Value::List(rest)) => match rest.head.car {
                Option::Some(Value::List(b2)) => branch_weight(*b1) + branch_weight(*b2),
                _ => 0,
            },
            _ => 0,
        },
        _ => 0,
    }
}

/// The weight hanging from a branch.
pub open spec fn branch_weight(l: List) -> int
    decreases l,
{
    match l.head.cdr {
        Option::Some(Value::List(rest)) => match rest.head.car {
            Option::Some(v) => structure_weight(v),
            _ => 0,
        },
        _ => 0,
    }
}

/// The rod length of a branch.
pub open spec fn branch_length(l: List) -> int {
    match l.head.car {
        Option::Some(Value::Int(n)) => n as int,
        _ => 0,
    }
}

/// Every length and weight in the structure is small enough that the
/// torque products stay inside the machine word.
pub open spec fn structure_bounded(v: Value) -> bool
    decreases v,
{
    match v {
        Value::Int(w) => -0x4000_0000 <= w <= 0x4000_0000,
        Value::List(l) => mobile_bounded(*l),
        Value::Pair(_) => true,
    }
}

/// Bounds for a whole mobile: bounded branches and a bounded total.
pub open spec fn mobile_bounded(l: List) -> bool
    decreases l,
{
    &&& -0x4000_0000 <= mobile_weight(l) <= 0x4000_0000
    &&& match l.head.car {
        Option::Some(Value::List(b1)) => match l.head.cdr {
            Option::Some(Value::List(rest)) => match rest.head.car {
                Option::Some(Value::List(b2)) => branch_bounded(*b1) && branch_bounded(*b2),
                _ => true,
            },
            _ => true,
        },
        _ => true,
    }
}

/// Bounds for one branch: a bounded rod and a bounded load.
pub open spec fn branch_bounded(l: List) -> bool
    decreases l,
{
    &&& -0x4000_0000 <= branch_length(l) <= 0x4000_0000
    &&& -0x4000_0000 <= branch_weight(l) <= 0x4000_0000
    &&& match l.head.cdr {
        Option::Some(Value::List(rest)) => match rest.head.car {
            Option::Some(v) => structure_bounded(v),
            _ => true,
        },
        _ => true,
    }
}

/// Whether a mobile hangs level: both sub-structures balanced and the
/// two torques equal.
pub open spec fn mobile_balanced(l: List) -> bool
    decreases l,
{
    match l.head.car {
        Option::Some(Value::List(b1)) => match l.head.cdr {
            Option::Some(Value::List(rest)) => match rest.head.car {
                Option::Some(Value::List(b2)) => {
                    &&& branch_structure_balanced(*b1)
                    &&& branch_structure_balanced(*b2)
                    &&& branch_length(*b1) * branch_weight(*b1) == branch_length(*b2)
                        * branch_weight(*b2)
                },
                _ => false,
            },
            _ => false,
        },
        _ => false,
    }
}

/// Whether what hangs from a branch is balanced: a weight always is,
/// a mobile by its own rule.
pub open spec fn branch_structure_balanced(l: List) -> bool
    decreases l,
{
    match l.head.cdr {
        Option::Some(Value::List(rest)) => match rest.head.car {
            Option::Some(Value::Int(_)) => true,
            Option::Some(Value::List(m)) => mobile_balanced(*m),
            _ => false,
        },
        _ => false,
    }
}

/// The total weight of a well-formed mobile list.
fn mobile_weight_exec(l: &List) -> (r: i64)
    requires
        mobile_list_ok(*l),
        mobile_bounded(*l),
    ensures
        r == mobile_weight(*l),
    decreases *l,
{
    match &l.head.car {
        Option::Some(Value::List(b1)) => {
            match &l.head.cdr {
                Option::Some(Value::List(rest)) => {
                    match &rest.head.car {
                        Option::Some(Value::List(b2)) => {
                            let w1 = branch_weight_exec(&**b1);
                            let w2 = branch_weight_exec(&**b2);
                            w1 + w2
                        },
                        _ => unreached(),
                    }
                },
                _ => unreached(),
            }
        },
        _ => unreached(),
    }
}

/// The load hanging from a well-formed branch list.
fn branch_weight_exec(l: &List) -> (r: i64)
    requires
        branch_list_ok(*l),
        branch_bounded(*l),
    ensures
        r == branch_weight(*l),
    decreases *l,
{
    match &l.head.cdr {
        Option::Some(Value::List(rest)) => {
            match &rest.head.car {
                Option::Some(Value::Int(w)) => *w,
                Option::Some(Value::List(m)) => mobile_weight_exec(&**m),
                _ => unreached(),
            }
        },
        _ => unreached(),
    }
}

/// Whether a well-formed mobile list hangs level.
fn mobile_balanced_exec(l: &List) -> (r: bool)
    requires
        mobile_list_ok(*l),
        mobile_bounded(*l),
    ensures
        r == mobile_balanced(*l),
    decreases *l,
{
    match &l.head.car {
        Option::Some(Value::List(b1)) => {
            match &l.head.cdr {
                Option::Some(Value::List(rest)) => {
                    match &rest.head.car {
                        Option::Some(Value::List(b2)) => {
                            let b1_bal = branch_balanced_exec(&**b1);
                            if !b1_bal {
                                return false;
                            }
                            let b2_bal = branch_balanced_exec(&**b2);
                            if !b2_bal {
                                return false;
                            }
                            let l_len = branch_length_exec(&**b1);
                            let l_w = branch_weight_exec(&**b1);
                            let r_len = branch_length_exec(&**b2);
                            let r_w = branch_weight_exec(&**b2);
                            proof {
                                assert(-0x4000_0000 * 0x4000_0000 <= l_len * l_w <= 0x4000_0000
                                    * 0x4000_0000 && -0x4000_0000 * 0x4000_0000 <= r_len * r_w
                                    <= 0x4000_0000 * 0x4000_0000) by (nonlinear_arith)
                                    requires
                                        -0x4000_0000 <= l_len <= 0x4000_0000,
                                        -0x4000_0000 <= l_w <= 0x4000_0000,
                                        -0x4000_0000 <= r_len <= 0x4000_0000,
                                        -0x4000_0000 <= r_w <= 0x4000_0000,
                                ;
                            }
                            l_len * l_w == r_len * r_w
                        },
                        _ => unreached(),
                    }
                },
                _ => unreached(),
            }
        },
        _ => unreached(),
    }
}

/// Whether the load of a well-formed branch hangs level.
fn branch_balanced_exec(l: &List) -> (r: bool)
    requires
        branch_list_ok(*l),
        branch_bounded(*l),
    ensures
        r == branch_structure_balanced(*l),
    decreases *l,
{
    match &l.head.cdr {
        Option::Some(Value::List(rest)) => {
            match &rest.head.car {
                Option::Some(Value::Int(_)) => true,
                Option::Some(Value::List(m)) => mobile_balanced_exec(&**m),
                _ => unreached(),
            }
        },
        _ => unreached(),
    }
}

/// The rod length of a well-formed branch list.
fn branch_length_exec(l: &List) -> (r: i64)
    requires
        branch_list_ok(*l),
    ensures
        r == branch_length(*l),
{
    match &l.head.car {
        Option::Some(Value::Int(n)) => *n,
        _ => unreached(),
    }
}

impl StructureList {
    /// The stored form of the structure: a bare weight stays an
    /// integer, a nested mobile stores its list.
    pub open spec fn to_value(self) -> Value {
        match self {
            StructureList::Weight(w) => Value::Int(w),
            StructureList::MobileList(m) => Value::List(Box::new(m.data)),
        }
    }
}

impl MobileList {
    /// The left branch's list, as the model sees it.
    pub open spec fn left_spec(self) -> List {
        match self.data.head.car {
            Option::Some(Value::List(b1)) => *b1,
            _ => List { head: Cons { car: Option::None, cdr: Option::None } },
        }
    }

    /// The right branch's list, as the model sees it.
    pub open spec fn right_spec(self) -> List {
        match self.data.head.cdr {
            Option::Some(Value::List(rest)) => match rest.head.car {
                Option::Some(Value::List(b2)) => *b2,
                _ => List { head: Cons { car: Option::None, cdr: Option::None } },
            },
            _ => List { head: Cons { car: Option::None, cdr: Option::None } },
        }
    }

    /// A mobile from its two branches.
    pub fn new(left: BranchList, right: BranchList) -> (r: MobileList)
        requires
            branch_list_ok(left.data),
            branch_list_ok(right.data),
        ensures
            mobile_list_ok(r.data),
            r.left_spec() == left.data,
            r.right_spec() == right.data,
            mobile_weight(r.data) == branch_weight(left.data) + branch_weight(right.data),
            mobile_balanced(r.data) == (branch_structure_balanced(left.data)
                && branch_structure_balanced(right.data) && branch_length(left.data)
                * branch_weight(left.data) == branch_length(right.data) * branch_weight(
                right.data,
            )),
            branch_bounded(left.data) && branch_bounded(right.data) && -0x4000_0000
                <= branch_weight(left.data) + branch_weight(right.data) <= 0x4000_0000
                ==> mobile_bounded(r.data),
    {
        let tail = List {
            head: Cons::new(Option::Some(Value::List(Box::new(right.data))), Option::None),
        };
        let data = List {
            head: Cons::new(
                Option::Some(Value::List(Box::new(left.data))),
                Option::Some(Value::List(Box::new(tail))),
            ),
        };
        MobileList { data }
    }

    /// The left branch, by value; the mobile is consumed.
    pub fn left(self) -> (r: BranchList)
        requires
            mobile_list_ok(self.data),
        ensures
            r.data == self.left_spec(),
            branch_list_ok(r.data),
    {
        let MobileList { data } = self;
        let List { head } = data;
        let Cons { car, cdr: _ } = head;
        match car {
            Option::Some(Value::List(b)) => BranchList { data: *b },
            _ => unreached(),
        }
    }

    /// The left branch, reproduced without consuming the mobile.
    pub fn left_ref(&self) -> (r: BranchList)
        requires
            mobile_list_ok(self.data),
        ensures
            r.data == self.left_spec(),
            branch_list_ok(r.data),
    {
        match &self.data.head.car {
            Option::Some(Value::List(b)) => BranchList { data: (**b).deep_clone() },
            _ => unreached(),
        }
    }

    /// The right branch, by value; the mobile is consumed.
    pub fn right(self) -> (r: BranchList)
        requires
            mobile_list_ok(self.data),
        ensures
            r.data == self.right_spec(),
            branch_list_ok(r.data),
    {
        let MobileList { data } = self;
        let List { head } = data;
        let Cons { car: _, cdr } = head;
        match cdr {
            Option::Some(Value::List(rest)) => {
                let List { head: rest_head } = *rest;
                let Cons { car: rest_car, cdr: _ } = rest_head;
                match rest_car {
                    Option::Some(Value::List(b)) => BranchList { data: *b },
                    _ => unreached(),
                }
            },
            _ => unreached(),
        }
    }

    /// The right branch, reproduced without consuming the mobile.
    pub fn right_ref(&self) -> (r: BranchList)
        requires
            mobile_list_ok(self.data),
        ensures
            r.data == self.right_spec(),
            branch_list_ok(r.data),
    {
        match &self.data.head.cdr {
            Option::Some(Value::List(rest)) => {
                match &rest.head.car {
                    Option::Some(Value::List(b)) => BranchList { data: (**b).deep_clone() },
                    _ => unreached(),
                }
            },
            _ => unreached(),
        }
    }

    /// The total weight of the mobile.
    pub fn total_weight(&self) -> (r: i64)
        requires
            mobile_list_ok(self.data),
            mobile_bounded(self.data),
        ensures
            r == mobile_weight(self.data),
    {
        mobile_weight_exec(&self.data)
    }

    /// Whether the mobile hangs level.
    pub fn balanced(&self) -> (r: bool)
        requires
            mobile_list_ok(self.data),
            mobile_bounded(self.data),
        ensures
            r == mobile_balanced(self.data),
    {
        mobile_balanced_exec(&self.data)
    }
}

impl BranchList {
    /// A branch from its rod length and hanging structure.
    pub fn new(length: i64, structure: StructureList) -> (r: BranchList)
        requires
            structure_value_ok(structure.to_value()),
        ensures
            branch_list_ok(r.data),
            branch_length(r.data) == length,
            branch_weight(r.data) == structure_weight(structure.to_value()),
            branch_structure_balanced(r.data) == match structure {
                StructureList::Weight(_) => true,
                StructureList::MobileList(m) => mobile_balanced(m.data),
            },
            -0x4000_0000 <= length <= 0x4000_0000 && structure_bounded(structure.to_value())
                && -0x4000_0000 <= structure_weight(structure.to_value()) <= 0x4000_0000
                ==> branch_bounded(r.data),
    {
        let v = match structure {
            StructureList::Weight(w) => Value::Int(w),
            StructureList::MobileList(m) => Value::List(Box::new(m.data)),
        };
        let tail = List { head: Cons::new(Option::Some(v), Option::None) };
        let data = List {
            head: Cons::new(
                Option::Some(Value::Int(length)),
                Option::Some(Value::List(Box::new(tail))),
            ),
        };
        BranchList { data }
    }

    /// The rod length and the hanging structure, by value; the branch
    /// is consumed.
    pub fn branch_struct(self) -> (r: (i64, StructureList))
        requires
            branch_list_ok(self.data),
        ensures
            r.0 == branch_length(self.data),
            r.1.to_value() == self.stored_value(),
            structure_value_ok(r.1.to_value()),
    {
        let BranchList { data } = self;
        let List { head } = data;
        let Cons { car, cdr } = head;
        let n = match car {
            Option::Some(Value::Int(n)) => n,
            _ => unreached(),
        };
        match cdr {
            Option::Some(Value::List(rest)) => {
                let List { head: rest_head } = *rest;
                let Cons { car: rest_car, cdr: _ } = rest_head;
                match rest_car {
                    Option::Some(Value::Int(w)) => (n, StructureList::Weight(w)),
                    Option::Some(Value::List(m)) => (
                        n,
                        StructureList::MobileList(MobileList { data: *m }),
                    ),
                    _ => unreached(),
                }
            },
            _ => unreached(),
        }
    }

    /// The stored structure value, as the model sees it.
    pub open spec fn stored_value(self) -> Value {
        match self.data.head.cdr {
            Option::Some(Value::List(rest)) => match rest.head.car {
                Option::Some(v) => v,
                _ => Value::Int(0),
            },
            _ => Value::Int(0),
        }
    }

    /// The rod length and the hanging structure, reproduced without
    /// consuming the branch.
    pub fn branch_struct_ref(&self) -> (r: (i64, StructureList))
        requires
            branch_list_ok(self.data),
        ensures
            r.0 == branch_length(self.data),
            r.1.to_value() == self.stored_value(),
            structure_value_ok(r.1.to_value()),
    {
        let n = match &self.data.head.car {
            Option::Some(Value::Int(n)) => *n,
            _ => unreached(),
        };
        match &self.data.head.cdr {
            Option::Some(Value::List(rest)) => {
                match &rest.head.car {
                    Option::Some(Value::Int(w)) => (n, StructureList::Weight(*w)),
                    Option::Some(Value::List(m)) => (
                        n,
                        StructureList::MobileList(MobileList { data: (**m).deep_clone() }),
                    ),
                    _ => unreached(),
                }
            },
            _ => unreached(),
        }
    }
}

/// A mobile over the cons representation: the two branches sit
/// directly in the two slots of one cell.
#[derive(Debug)]
pub struct MobileCons {
    pub data: Cons,
}

/// What hangs from a cons branch.
#[derive(Debug)]
pub enum StructureCons {
    MobileList(MobileCons),
    Weight(i64),
}

/// A branch over the cons representation: length in the payload slot,
/// structure in the successor slot.
#[derive(Debug)]
pub struct BranchCons {
    pub data: Cons,
}

/// Shape of a stored cons structure: a weight or a nested mobile cell.
pub open spec fn structure_cons_ok(v: Value) -> bool
    decreases v,
{
    match v {
        Value::Int(_) => true,
        Value::Pair(c) => mobile_cons_ok(*c),
        Value::List(_) => false,
    }
}

/// Shape of a mobile cell: a branch cell in each slot.
pub open spec fn mobile_cons_ok(c: Cons) -> bool
    decreases c,
{
    match c.car {
        Option::Some(Value::Pair(b1)) => match c.cdr {
            Option::Some(Value::Pair(b2)) => branch_cons_ok(*b1) && branch_cons_ok(*b2),
            _ => false,
        },
        _ => false,
    }
}

/// Shape of a branch cell: a rod length and a hanging structure.
pub open spec fn branch_cons_ok(c: Cons) -> bool
    decreases c,
{
    match c.car {
        Option::Some(Value::Int(_)) => match c.cdr {
            Option::Some(v) => structure_cons_ok(v),
            _ => false,
        },
        _ => false,
    }
}

/// The weight of a stored cons structure.
pub open spec fn structure_cons_weight(v: Value) -> int
    decreases v,
{
    match v {
        Value::Int(w) => w as int,
        Value::Pair(c) => mobile_cons_weight(*c),
        Value::List(_) => 0,
    }
}

/// The total weight of a mobile cell.
pub open spec fn mobile_cons_weight(c: Cons) -> int
    decreases c,
{
    match c.car {
        Option::Some(Value::Pair(b1)) => match c.cdr {
            Option::Some(Value::Pair(b2)) => branch_cons_weight(*b1) + branch_cons_weight(*b2),
            _ => 0,
        },
        _ => 0,
    }
}

/// The load of a branch cell.
pub open spec fn branch_cons_weight(c: Cons) -> int
    decreases c,
{
    match c.cdr {
        Option::Some(v) => structure_cons_weight(v),
        _ => 0,
    }
}

/// The rod length of a branch cell.
pub open spec fn branch_cons_length(c: Cons) -> int {
    match c.car {
        Option::Some(Value::Int(n)) => n as int,
        _ => 0,
    }
}

/// Bounds on a stored cons structure.
pub open spec fn structure_cons_bounded(v: Value) -> bool
    decreases v,
{
    match v {
        Value::Int(w) => -0x4000_0000 <= w <= 0x4000_0000,
        Value::Pair(c) => mobile_cons_bounded(*c),
        Value::List(_) => true,
    }
}

/// Bounds on a mobile cell and both of its branches.
pub open spec fn mobile_cons_bounded(c: Cons) -> bool
    decreases c,
{
    &&& -0x4000_0000 <= mobile_cons_weight(c) <= 0x4000_0000
    &&& match c.car {
        Option::Some(Value::Pair(b1)) => match c.cdr {
            Option::Some(Value::Pair(b2)) => branch_cons_bounded(*b1) && branch_cons_bounded(
                *b2,
            ),
            _ => true,
        },
        _ => true,
    }
}

/// Bounds on one branch cell.
pub open spec fn branch_cons_bounded(c: Cons) -> bool
    decreases c,
{
    &&& -0x4000_0000 <= branch_cons_length(c) <= 0x4000_0000
    &&& -0x4000_0000 <= branch_cons_weight(c) <= 0x4000_0000
    &&& match c.cdr {
        Option::Some(v) => structure_cons_bounded(v),
        _ => true,
    }
}

/// Whether a mobile cell hangs level.
pub open spec fn mobile_cons_balanced(c: Cons) -> bool
    decreases c,
{
    match c.car {
        Option::Some(Value::Pair(b1)) => match c.cdr {
            Option::Some(Value::Pair(b2)) => {
                &&& branch_cons_structure_balanced(*b1)
                &&& branch_cons_structure_balanced(*b2)
                &&& branch_cons_length(*b1) * branch_cons_weight(*b1) == branch_cons_length(*b2)
                    * branch_cons_weight(*b2)
            },
            _ => false,
        },
        _ => false,
    }
}

/// Whether what hangs from a branch cell is balanced.
pub open spec fn branch_cons_structure_balanced(c: Cons) -> bool
    decreases c,
{
    match c.cdr {
        Option::Some(Value::Int(_)) => true,
        Option::Some(Value::Pair(m)) => mobile_cons_balanced(*m),
        _ => false,
    }
}

/// The total weight of a well-formed mobile cell.
fn mobile_cons_weight_exec(c: &Cons) -> (r: i64)
    requires
        mobile_cons_ok(*c),
        mobile_cons_bounded(*c),
    ensures
        r == mobile_cons_weight(*c),
    decreases *c,
{
    match (&c.car, &c.cdr) {
        (Option::Some(Value::Pair(b1)), Option::Some(Value::Pair(b2))) => {
            let w1 = branch_cons_weight_exec(&**b1);
            let w2 = branch_cons_weight_exec(&**b2);
            w1 + w2
        },
        _ => unreached(),
    }
}

/// The load of a well-formed branch cell.
fn branch_cons_weight_exec(c: &Cons) -> (r: i64)
    requires
        branch_cons_ok(*c),
        branch_cons_bounded(*c),
    ensures
        r == branch_cons_weight(*c),
    decreases *c,
{
    match &c.cdr {
        Option::Some(Value::Int(w)) => *w,
        Option::Some(Value::Pair(m)) => mobile_cons_weight_exec(&**m),
        _ => unreached(),
    }
}

/// Whether a well-formed mobile cell hangs level.
fn mobile_cons_balanced_exec(c: &Cons) -> (r: bool)
    requires
        mobile_cons_ok(*c),
        mobile_cons_bounded(*c),
    ensures
        r == mobile_cons_balanced(*c),
    decreases *c,
{
    match (&c.car, &c.cdr) {
        (Option::Some(Value::Pair(b1)), Option::Some(Value::Pair(b2))) => {
            let b1_bal = branch_cons_balanced_exec(&**b1);
            if !b1_bal {
                return false;
            }
            let b2_bal = branch_cons_balanced_exec(&**b2);
            if !b2_bal {
                return false;
            }
            let l_len = match &b1.car {
                Option::Some(Value::Int(n)) => *n,
                _ => unreached(),
            };
            let r_len = match &b2.car {
                Option::Some(Value::Int(n)) => *n,
                _ => unreached(),
            };
            let l_w = branch_cons_weight_exec(&**b1);
            let r_w = branch_cons_weight_exec(&**b2);
            proof {
                assert(-0x4000_0000 * 0x4000_0000 <= l_len * l_w <= 0x4000_0000 * 0x4000_0000
                    && -0x4000_0000 * 0x4000_0000 <= r_len * r_w <= 0x4000_0000 * 0x4000_0000)
                    by (nonlinear_arith)
                    requires
                        -0x4000_0000 <= l_len <= 0x4000_0000,
                        -0x4000_0000 <= l_w <= 0x4000_0000,
                        -0x4000_0000 <= r_len <= 0x4000_0000,
                        -0x4000_0000 <= r_w <= 0x4000_0000,
                ;
            }
            l_len * l_w == r_len * r_w
        },
        _ => unreached(),
    }
}

/// Whether the load of a well-formed branch cell is balanced.
fn branch_cons_balanced_exec(c: &Cons) -> (r: bool)
    requires
        branch_cons_ok(*c),
        branch_cons_bounded(*c),
    ensures
        r == branch_cons_structure_balanced(*c),
    decreases *c,
{
    match &c.cdr {
        Option::Some(Value::Int(_)) => true,
        Option::Some(Value::Pair(m)) => mobile_cons_balanced_exec(&**m),
        _ => unreached(),
    }
}

impl StructureCons {
    /// The stored form of a cons structure.
    pub open spec fn to_value(self) -> Value {
        match self {
            StructureCons::Weight(w) => Value::Int(w),
            StructureCons::MobileList(m) => Value::Pair(Box::new(m.data)),
        }
    }
}

impl MobileCons {
    /// The left branch cell, as the model sees it.
    pub open spec fn left_spec(self) -> Cons {
        match self.data.car {
            Option::Some(Value::Pair(b)) => *b,
            _ => Cons { car: Option::None, cdr: Option::None },
        }
    }

    /// The right branch cell, as the model sees it.
    pub open spec fn right_spec(self) -> Cons {
        match self.data.cdr {
            Option::Some(Value::Pair(b)) => *b,
            _ => Cons { car: Option::None, cdr: Option::None },
        }
    }

    /// A mobile from its two branches.
    pub fn new(left: BranchCons, right: BranchCons) -> (r: MobileCons)
        requires
            branch_cons_ok(left.data),
            branch_cons_ok(right.data),
        ensures
            mobile_cons_ok(r.data),
            r.left_spec() == left.data,
            r.right_spec() == right.data,
            mobile_cons_weight(r.data) == branch_cons_weight(left.data) + branch_cons_weight(
                right.data,
            ),
            mobile_cons_balanced(r.data) == (branch_cons_structure_balanced(left.data)
                && branch_cons_structure_balanced(right.data) && branch_cons_length(left.data)
                * branch_cons_weight(left.data) == branch_cons_length(right.data)
                * branch_cons_weight(right.data)),
            branch_cons_bounded(left.data) && branch_cons_bounded(right.data) && -0x4000_0000
                <= branch_cons_weight(left.data) + branch_cons_weight(right.data) <= 0x4000_0000
                ==> mobile_cons_bounded(r.data),
    {
        MobileCons {
            data: Cons::new(
                Option::Some(Value::Pair(Box::new(left.data))),
                Option::Some(Value::Pair(Box::new(right.data))),
            ),
        }
    }

    /// The left branch, by value; the mobile is consumed.
    pub fn left(self) -> (r: BranchCons)
        requires
            mobile_cons_ok(self.data),
        ensures
            r.data == self.left_spec(),
            branch_cons_ok(r.data),
    {
        let MobileCons { data } = self;
        let Cons { car, cdr: _ } = data;
        match car {
            Option::Some(Value::Pair(b)) => BranchCons { data: *b },
            _ => unreached(),
        }
    }

    /// The left branch, reproduced without consuming the mobile.
    pub fn left_ref(&self) -> (r: BranchCons)
        requires
            mobile_cons_ok(self.data),
        ensures
            r.data == self.left_spec(),
            branch_cons_ok(r.data),
    {
        match &self.data.car {
            Option::Some(Value::Pair(b)) => BranchCons { data: (**b).deep_clone() },
            _ => unreached(),
        }
    }

    /// The right branch, by value; the mobile is consumed.
    pub fn right(self) -> (r: BranchCons)
        requires
            mobile_cons_ok(self.data),
        ensures
            r.data == self.right_spec(),
            branch_cons_ok(r.data),
    {
        let MobileCons { data } = self;
        let Cons { car: _, cdr } = data;
        match cdr {
            Option::Some(Value::Pair(b)) => BranchCons { data: *b },
            _ => unreached(),
        }
    }

    /// The right branch, reproduced without consuming the mobile.
    pub fn right_ref(&self) -> (r: BranchCons)
        requires
            mobile_cons_ok(self.data),
        ensures
            r.data == self.right_spec(),
            branch_cons_ok(r.data),
    {
        match &self.data.cdr {
            Option::Some(Value::Pair(b)) => BranchCons { data: (**b).deep_clone() },
            _ => unreached(),
        }
    }

    /// The total weight of the mobile.
    pub fn total_weight(&self) -> (r: i64)
        requires
            mobile_cons_ok(self.data),
            mobile_cons_bounded(self.data),
        ensures
            r == mobile_cons_weight(self.data),
    {
        mobile_cons_weight_exec(&self.data)
    }

    /// Whether the mobile hangs level.
    pub fn balanced(&self) -> (r: bool)
        requires
            mobile_cons_ok(self.data),
            mobile_cons_bounded(self.data),
        ensures
            r == mobile_cons_balanced(self.data),
    {
        mobile_cons_balanced_exec(&self.data)
    }
}

impl BranchCons {
    /// A branch from its rod length and hanging structure.
    pub fn new(length: i64, structure: StructureCons) -> (r: BranchCons)
        requires
            structure_cons_ok(structure.to_value()),
        ensures
            branch_cons_ok(r.data),
            branch_cons_length(r.data) == length,
            branch_cons_weight(r.data) == structure_cons_weight(structure.to_value()),
            branch_cons_structure_balanced(r.data) == match structure {
                StructureCons::Weight(_) => true,
                StructureCons::MobileList(m) => mobile_cons_balanced(m.data),
            },
            -0x4000_0000 <= length <= 0x4000_0000 && structure_cons_bounded(structure.to_value())
                && -0x4000_0000 <= structure_cons_weight(structure.to_value()) <= 0x4000_0000
                ==> branch_cons_bounded(r.data),
    {
        let v = match structure {
            StructureCons::Weight(w) => Value::Int(w),
            StructureCons::MobileList(m) => Value::Pair(Box::new(m.data)),
        };
        BranchCons { data: Cons::new(Option::Some(Value::Int(length)), Option::Some(v)) }
    }

    /// The stored structure value, as the model sees it.
    pub open spec fn stored_value(self) -> Value {
        match self.data.cdr {
            Option::Some(v) => v,
            _ => Value::Int(0),
        }
    }

    /// The rod length and hanging structure, by value; the branch is
    /// consumed.
    pub fn branch_struct(self) -> (r: (i64, StructureCons))
        requires
            branch_cons_ok(self.data),
        ensures
            r.0 == branch_cons_length(self.data),
            r.1.to_value() == self.stored_value(),
            structure_cons_ok(r.1.to_value()),
    {
        let BranchCons { data } = self;
        let Cons { car, cdr } = data;
        let n = match car {
            Option::Some(Value::Int(n)) => n,
            _ => unreached(),
        };
        match cdr {
            Option::Some(Value::Int(w)) => (n, StructureCons::Weight(w)),
            Option::Some(Value::Pair(m)) => (n, StructureCons::MobileList(MobileCons { data: *m })),
            _ => unreached(),
        }
    }

    /// The rod length and hanging structure, reproduced without
    /// consuming the branch.
    pub fn branch_struct_ref(&self) -> (r: (i64, StructureCons))
        requires
            branch_cons_ok(self.data),
        ensures
            r.0 == branch_cons_length(self.data),
            r.1.to_value() == self.stored_value(),
            structure_cons_ok(r.1.to_value()),
    {
        let n = match &self.data.car {
            Option::Some(Value::Int(n)) => *n,
            _ => unreached(),
        };
        match &self.data.cdr {
            Option::Some(Value::Int(w)) => (n, StructureCons::Weight(*w)),
            Option::Some(Value::Pair(m)) => (
                n,
                StructureCons::MobileList(MobileCons { data: (**m).deep_clone() }),
            ),
            _ => unreached(),
        }
    }
}

} // verus!
