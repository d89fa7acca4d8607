use sicp::ch1::ex1_04::abs_operator;
use sicp::ch1::ex1_04::AbsOp;
use sicp::ch1::ex1_24::fermat_check;
use sicp::ch2::ex2_30_32::subsets;
use sicp::ch2::ex2_30_32::test_tree_helper;
use sicp::ch2::ex2_33_35::enumerate_interval;
use sicp::ch2::ex2_33_35::map_fib;
use sicp::ch2::ex2_20::same_parity;
use sicp::ch2::ex2_19::cc;
use sicp::utils::cons::Value;
use sicp::utils::list::List;
use sicp::ch2::ex2_29::BranchList;
use sicp::ch2::ex2_29::MobileList;
use sicp::ch2::ex2_29::StructureList;
use sicp::ch2::ex2_29::BranchCons;
use sicp::ch2::ex2_29::MobileCons;
use sicp::ch2::ex2_29::StructureCons;

fn int_list(vals: &[i64]) -> List {
    let mut v: Vec<Value> = Vec::new();
    for x in vals {
        v.push(Value::Int(*x));
    }
    List::from_vec(v)
}

fn ints_of_list(l: &List) -> Vec<i64> {
    let mut out = Vec::new();
    let mut it = l.iter_downcast();
    while let Some(i) = it.next() {
        out.push(i);
    }
    out
}

#[test]
fn abs_operator_picks_by_sign() {
    assert_eq!(AbsOp::Plus, abs_operator(3));
    assert_eq!(AbsOp::Minus, abs_operator(0));
    assert_eq!(AbsOp::Minus, abs_operator(-3));
    assert_eq!(7, AbsOp::Plus.apply(3, 4));
    assert_eq!(-1, AbsOp::Minus.apply(3, 4));
}

#[test]
fn fermat_witness_check() {
    // 2^6 = 64 is congruent to 1 modulo 7
    assert!(fermat_check(7, 2));
    // 2^5 = 32 is congruent to 2 modulo 6
    assert!(!fermat_check(6, 2));
}

#[test]
fn subsets_of_one() {
    let r = subsets(int_list(&[5]));
    let mut expect_vals: Vec<Value> = Vec::new();
    expect_vals.push(Value::List(Box::new(int_list(&[5]))));
    let expect = List::from_vec(expect_vals);
    assert!(test_tree_helper(&r, &expect));
}

#[test]
fn map_fib_values() {
    let r = map_fib(int_list(&[0, 1, 5, 10]));
    assert_eq!(vec![0, 1, 5, 55], ints_of_list(&r));
}

#[test]
fn empty_interval_is_absent() {
    assert!(enumerate_interval(5, 4).is_none());
    let one = enumerate_interval(5, 5).unwrap();
    assert_eq!(vec![5], ints_of_list(&one));
}

#[test]
fn same_parity_even_base() {
    let r = same_parity(2, int_list(&[2, 3, 4, 5, 6, 7, 8]));
    assert_eq!(vec![2, 4, 6, 8], ints_of_list(&r));
}

#[test]
fn list_change_zero_amount() {
    let coins = int_list(&[5, 1]);
    assert_eq!(1, cc(0, &coins));
    assert_eq!(0, cc(-1, &coins));
    assert_eq!(2, cc(5, &coins));
}

#[test]
fn mobile_accessors() {
    let m = MobileList::new(
        BranchList::new(2, StructureList::Weight(6)),
        BranchList::new(3, StructureList::Weight(4)),
    );
    let (llen, lst) = m.left_ref().branch_struct_ref();
    assert_eq!(2, llen);
    match lst {
        StructureList::Weight(w) => assert_eq!(6, w),
        _ => panic!("expected a bare weight"),
    }
    let (rlen, rst) = m.right().branch_struct();
    assert_eq!(3, rlen);
    match rst {
        StructureList::Weight(w) => assert_eq!(4, w),
        _ => panic!("expected a bare weight"),
    }
}

#[test]
fn cons_mobile_accessors() {
    let m = MobileCons::new(
        BranchCons::new(2, StructureCons::Weight(6)),
        BranchCons::new(3, StructureCons::Weight(4)),
    );
    assert_eq!(10, m.total_weight());
    assert_eq!(true, m.balanced());
    let (llen, _) = m.left_ref().branch_struct_ref();
    assert_eq!(2, llen);
    let (rlen, _) = m.left().branch_struct();
    assert_eq!(2, rlen);
}
