use sicp::ch2::ex2_29::BranchCons;
use sicp::ch2::ex2_29::BranchList;
use sicp::ch2::ex2_29::MobileCons;
use sicp::ch2::ex2_29::MobileList;
use sicp::ch2::ex2_29::StructureCons;
use sicp::ch2::ex2_29::StructureList;
use sicp::ch2::ex2_30_32::square_tree;
use sicp::ch2::ex2_30_32::subsets;
use sicp::ch2::ex2_30_32::test_tree_helper;
use sicp::ch2::ex2_33_35::acc_map;
use sicp::ch2::ex2_33_35::append;
use sicp::ch2::ex2_33_35::cons;
use sicp::ch2::ex2_33_35::enumerate_interval;
use sicp::ch2::ex2_33_35::enumerate_tree;
use sicp::ch2::ex2_33_35::even_fibs;
use sicp::ch2::ex2_33_35::horner_eval;
use sicp::ch2::ex2_33_35::is_odd;
use sicp::ch2::ex2_33_35::length;
use sicp::ch2::ex2_33_35::lib_fib_squares;
use sicp::ch2::ex2_33_35::mul;
use sicp::ch2::ex2_33_35::plus;
use sicp::ch2::ex2_33_35::square;
use sicp::utils::cons::Value;
use sicp::utils::list::List;

fn int_list(vals: &[i64]) -> List {
    let mut v: Vec<Value> = Vec::new();
    for x in vals {
        v.push(Value::Int(*x));
    }
    List::from_vec(v)
}

fn ints_of_list(l: &List) -> Vec<i64> {
    let mut out = Vec::new();
    let mut it = l.iter_downcast();
    while let Some(i) = it.next() {
        out.push(i);
    }
    out
}

#[test]
fn test_list_total_weight() {
    let m = MobileList::new(
        BranchList::new(10, StructureList::Weight(10)),
        BranchList::new(
            10,
            StructureList::MobileList(MobileList::new(
                BranchList::new(3, StructureList::Weight(5)),
                BranchList::new(9, StructureList::Weight(3)),
            )),
        ),
    );
    assert_eq!(18, m.total_weight());
}

#[test]
fn test_list_balance() {
    let m = MobileList::new(
        BranchList::new(10, StructureList::Weight(10)),
        BranchList::new(
            10,
            StructureList::MobileList(MobileList::new(
                BranchList::new(3, StructureList::Weight(5)),
                BranchList::new(9, StructureList::Weight(3)),
            )),
        ),
    );
    assert_eq!(false, m.balanced());

    let m = MobileList::new(
        BranchList::new(5, StructureList::Weight(20)),
        BranchList::new(
            10,
            StructureList::MobileList(MobileList::new(
                BranchList::new(12, StructureList::Weight(4)),
                BranchList::new(8, StructureList::Weight(6)),
            )),
        ),
    );
    assert_eq!(true, m.balanced());
}

#[test]
fn test_cons_total_weight() {
    let m = MobileCons::new(
        BranchCons::new(10, StructureCons::Weight(10)),
        BranchCons::new(
            10,
            StructureCons::MobileList(MobileCons::new(
                BranchCons::new(3, StructureCons::Weight(5)),
                BranchCons::new(9, StructureCons::Weight(3)),
            )),
        ),
    );
    assert_eq!(18, m.total_weight());
}

#[test]
fn test_cons_balance() {
    let m = MobileCons::new(
        BranchCons::new(10, StructureCons::Weight(10)),
        BranchCons::new(
            10,
            StructureCons::MobileList(MobileCons::new(
                BranchCons::new(3, StructureCons::Weight(5)),
                BranchCons::new(9, StructureCons::Weight(3)),
            )),
        ),
    );
    assert_eq!(false, m.balanced());

    let m = MobileList::new(
        BranchList::new(5, StructureList::Weight(20)),
        BranchList::new(
            10,
            StructureList::MobileList(MobileList::new(
                BranchList::new(12, StructureList::Weight(4)),
                BranchList::new(8, StructureList::Weight(6)),
            )),
        ),
    );
    assert_eq!(true, m.balanced());
}

fn nest(vals: Vec<Value>) -> Value {
    Value::List(Box::new(List::from_vec(vals)))
}

#[test]
fn test_2_30_31() {
    // (1 (2 (3 4) 5) (6 7))
    let tree = List::from_vec(vec![
        Value::Int(1),
        nest(vec![Value::Int(2), nest(vec![Value::Int(3), Value::Int(4)]), Value::Int(5)]),
        nest(vec![Value::Int(6), Value::Int(7)]),
    ]);
    let expect = List::from_vec(vec![
        Value::Int(1),
        nest(vec![Value::Int(4), nest(vec![Value::Int(9), Value::Int(16)]), Value::Int(25)]),
        nest(vec![Value::Int(36), Value::Int(49)]),
    ]);

    assert!(test_tree_helper(&square_tree(tree), &expect));
}

#[test]
fn test_2_32() {
    let l = int_list(&[1, 2, 3]);
    let expect = List::from_vec(vec![
        nest(vec![Value::Int(3)]),
        nest(vec![Value::Int(3), Value::Int(2)]),
        nest(vec![Value::Int(2)]),
        nest(vec![Value::Int(3), Value::Int(1)]),
        nest(vec![Value::Int(3), Value::Int(2), Value::Int(1)]),
        nest(vec![Value::Int(2), Value::Int(1)]),
        nest(vec![Value::Int(1)]),
    ]);
    assert!(test_tree_helper(&subsets(l), &expect))
}

#[test]
fn test_map_square() {
    let l = int_list(&[1, 2, 3, 4, 5]);
    let expect = vec![1, 4, 9, 16, 25];
    let result = acc_map(&|x: i64| x * x, l);
    assert_eq!(expect, ints_of_list(&result));
    assert_eq!(9, square(&Value::Int(3)));
}

#[test]
fn test_filter_odd() {
    let l = int_list(&[1, 2, 3, 4, 5]);
    let expect = vec![1, 3, 5];
    let mut kept = Vec::new();
    let mut it = l.into_iter();
    while let Some(v) = it.next() {
        if is_odd(&v) {
            match v {
                Value::Int(i) => kept.push(i),
                _ => {}
            }
        }
    }
    assert_eq!(expect, kept);
}

#[test]
fn test_accumulate() {
    let l = int_list(&[1, 2, 3, 4, 5]);
    let mut acc = 0;
    let mut it = l.into_iter();
    while let Some(v) = it.next() {
        acc = plus(acc, v);
    }
    assert_eq!(acc, 15);

    let l = int_list(&[1, 2, 3, 4, 5]);
    let mut acc = 1;
    let mut it = l.into_iter();
    while let Some(v) = it.next() {
        acc = mul(acc, v);
    }
    assert_eq!(acc, 120);

    let l = int_list(&[1, 2, 3, 4, 5]);
    let expect = vec![1, 2, 3, 4, 5];
    let mut rebuilt: Option<List> = None;
    let mut it = l.into_iter();
    while let Some(v) = it.next() {
        rebuilt = cons(rebuilt, v);
    }
    assert_eq!(expect, ints_of_list(&rebuilt.unwrap()));
}

#[test]
fn test_enumerate_interval() {
    let expect = vec![2, 3, 4, 5, 6, 7];
    assert_eq!(expect, ints_of_list(&enumerate_interval(2, 7).unwrap()));
}

#[test]
fn test_enumerate_tree() {
    let tree = List::from_vec(vec![
        Value::Int(1),
        nest(vec![Value::Int(2), nest(vec![Value::Int(3), Value::Int(4)])]),
        Value::Int(5),
    ]);
    let expect = vec![1, 2, 3, 4, 5];
    assert_eq!(expect, ints_of_list(&enumerate_tree(Some(tree)).unwrap()));
}

#[test]
fn test_sum_odd_squares() {
    let tree = List::from_vec(vec![
        Value::Int(1),
        nest(vec![Value::Int(2), nest(vec![Value::Int(3), Value::Int(4)])]),
        Value::Int(5),
    ]);
    let flat = enumerate_tree(Some(tree)).unwrap();
    let mut acc = 0;
    let mut it = flat.into_iter();
    while let Some(v) = it.next() {
        if is_odd(&v) {
            acc = plus(acc, Value::Int(square(&v)));
        }
    }
    assert_eq!(acc, 35);
}

#[test]
fn test_even_fibs() {
    let expect = vec![0, 2, 8, 34];
    let odd_fib = even_fibs(10);
    assert_eq!(expect, ints_of_list(&odd_fib));
}

#[test]
fn test_lib_fib_squares() {
    let fib_sq = lib_fib_squares(10);
    let expect = vec![0, 1, 1, 4, 9, 25, 64, 169, 441, 1156, 3025];
    assert_eq!(expect, ints_of_list(&fib_sq));
}

#[test]
fn test_2_33() {
    let l1 = int_list(&[1, 2, 3, 4, 5]);
    let expect = vec![1, 4, 9, 16, 25];
    assert_eq!(expect, ints_of_list(&acc_map(&|x: i64| x * x, l1)));

    let l1 = int_list(&[1, 2]);
    let l2 = int_list(&[3, 4, 5]);
    let expect = vec![1, 2, 3, 4, 5];
    assert_eq!(expect, ints_of_list(&append(l1, l2)));

    let l1 = int_list(&[1, 2, 3, 4, 5]);
    assert_eq!(length(&l1), 5);
}

#[test]
fn test_2_34() {
    let coef = int_list(&[1, 3, 0, 5, 0, 1]);
    assert_eq!(79, horner_eval(2, coef));
}

#[test]
fn test_2_35() {
    let a = List::from_vec(vec![
        nest(vec![Value::Int(1), Value::Int(2)]),
        Value::Int(3),
        Value::Int(4),
    ]);
    assert_eq!(a.len(), 3);
    assert_eq!(sicp::ch2::ex2_33_35::count_leaves(&a), 4);

    let aa = List::from_vec(vec![
        nest(vec![Value::Int(1), Value::Int(2)]),
        Value::Int(3),
        Value::Int(4),
    ]);
    let ab = List::from_vec(vec![
        nest(vec![Value::Int(1), Value::Int(2)]),
        Value::Int(3),
        Value::Int(4),
    ]);
    let b = List::from_vec(vec![nest_list(aa), nest_list(ab)]);
    assert_eq!(sicp::ch2::ex2_33_35::count_leaves(&b), 8);
}

fn nest_list(l: List) -> Value {
    Value::List(Box::new(l))
}
