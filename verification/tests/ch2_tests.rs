use sicp::ch2::ex2_01::Rat;
use sicp::ch2::ex2_05::car;
use sicp::ch2::ex2_05::cdr;
use sicp::ch2::ex2_05::cons;
use sicp::ch2::ex2_17_18::last_pair;
use sicp::ch2::ex2_17_18::reverse;
use sicp::ch2::ex2_17_18::reverse_rec;
use sicp::ch2::ex2_19::cc;
use sicp::ch2::ex2_20::same_parity;
use sicp::ch2::ex2_21_23::for_each;
use sicp::ch2::ex2_21_23::square_list;
use sicp::ch2::ex2_25_28::count_leaves;
use sicp::ch2::ex2_25_28::deep_reverse;
use sicp::ch2::ex2_25_28::fringe;
use sicp::utils::cons::Value;
use sicp::utils::list::List;

fn int_list(vals: &[i64]) -> List {
    let mut v: Vec<Value> = Vec::new();
    for x in vals {
        v.push(Value::Int(*x));
    }
    List::from_vec(v)
}

fn ints_of_list(l: &List) -> Vec<i64> {
    let mut out = Vec::new();
    let mut it = l.iter_downcast();
    while let Some(i) = it.next() {
        out.push(i);
    }
    out
}

#[test]
fn test_rat_new() {
    let r1 = Rat::new(10, -20);
    assert_eq!(-1, r1.numer);
    assert_eq!(2, r1.denom);
}

#[test]
fn test_rat_add() {
    let r1 = Rat::new(16, -20);
    let r2 = Rat::new(9, -12);
    let r3 = r1.add(r2);
    assert_eq!(-31, r3.numer);
    assert_eq!(20, r3.denom);
}

#[test]
fn ex2_05_test_car() {
    let a = cons(3, 5);
    assert_eq!(3, car(a));
    assert_eq!(5, cdr(a));
}

#[test]
fn test_last_pair() {
    let l = int_list(&[1, 2, 3, 4]);
    let mut last = last_pair(l);
    match last.car() {
        Some(Value::Int(i)) => assert_eq!(4, i),
        _ => panic!("missing last payload"),
    }
}

#[test]
fn test_reverse() {
    let l = int_list(&[1, 2, 3, 4]);
    let test_list = [4, 3, 2, 1];
    let mut test_idx = 0;
    let r = reverse(l);
    let mut it = r.iter_downcast();
    while let Some(val) = it.next() {
        assert_eq!(val, test_list[test_idx]);
        test_idx += 1;
    }
    assert_eq!(4, test_idx);
}

#[test]
fn test_reverse_rec() {
    let mut l = int_list(&[1, 2, 3, 4, 5, 6, 7]);
    let test_list = [7, 6, 5, 4, 3, 2, 1];
    let mut test_idx = 0;
    let r = reverse_rec(&mut l);
    let mut it = r.iter_downcast();
    while let Some(val) = it.next() {
        assert_eq!(val, test_list[test_idx]);
        test_idx += 1;
    }
    assert_eq!(7, test_idx);
}

#[test]
fn ex2_19_test_count_amount() {
    // the original denominations scaled to whole units
    let us_coins = int_list(&[500, 250, 100, 50, 10]);
    assert_eq!(292, cc(1000, &us_coins));

    let uk_coins = int_list(&[1000, 500, 200, 100, 50, 20, 10, 5]);
    assert_eq!(104561, cc(1000, &uk_coins));
}

#[test]
fn test_same_parity() {
    let r = same_parity(1, int_list(&[2, 3, 4, 5, 6, 7, 8]));
    assert_eq!(vec![3, 5, 7], ints_of_list(&r));
}

#[test]
fn test_square_list() {
    let r = square_list(int_list(&[1, 2, 3]));
    assert_eq!(vec![1, 4, 9], ints_of_list(&r));
}

#[test]
fn test_for_each() {
    let v = for_each(int_list(&[1, 2, 3, 4]));
    let result = vec![1, 2, 3, 4];
    assert_eq!(v, result);
}

#[test]
fn test_count_leaves() {
    let inner = int_list(&[1, 2]);
    let mut vals: Vec<Value> = Vec::new();
    vals.push(Value::List(Box::new(inner)));
    vals.push(Value::Int(3));
    vals.push(Value::Int(4));
    let a = List::from_vec(vals);
    assert_eq!(a.len(), 3);
    assert_eq!(count_leaves(&a), 4);

    let aa = a.deep_clone();
    let mut outer: Vec<Value> = Vec::new();
    outer.push(Value::List(Box::new(a)));
    outer.push(Value::List(Box::new(aa)));
    let b = List::from_vec(outer);
    assert_eq!(count_leaves(&b), 8);
}

#[test]
fn test_2_25() {
    // (1 3 (5 7) 9): the seven sits in the nested pair
    let mut vals: Vec<Value> = Vec::new();
    vals.push(Value::Int(1));
    vals.push(Value::Int(3));
    vals.push(Value::List(Box::new(int_list(&[5, 7]))));
    vals.push(Value::Int(9));
    let list1 = List::from_vec(vals);
    let second_rest = list1.cdr_ref().unwrap().cdr_ref().unwrap();
    let inner = match second_rest.car_ref().unwrap() {
        Value::List(l) => l,
        _ => panic!("expected a nested list"),
    };
    match inner.cdr_ref().unwrap().car_ref().unwrap() {
        Value::Int(i) => assert_eq!(7, *i),
        _ => panic!("expected an integer leaf"),
    }

    // ((7)): two unwrapping steps
    let mut vals2: Vec<Value> = Vec::new();
    vals2.push(Value::List(Box::new(int_list(&[7]))));
    let list2 = List::from_vec(vals2);
    let inner2 = match list2.car_ref().unwrap() {
        Value::List(l) => l,
        _ => panic!("expected a nested list"),
    };
    match inner2.car_ref().unwrap() {
        Value::Int(i) => assert_eq!(7, *i),
        _ => panic!("expected an integer leaf"),
    }

    // (1 (2 (3 (4 (5 (6 7)))))): six descents to the seven
    let mut deep = int_list(&[6, 7]);
    for k in [5, 4, 3, 2] {
        let mut vals3: Vec<Value> = Vec::new();
        vals3.push(Value::Int(k));
        vals3.push(Value::List(Box::new(deep)));
        deep = List::from_vec(vals3);
    }
    let mut vals4: Vec<Value> = Vec::new();
    vals4.push(Value::Int(1));
    vals4.push(Value::List(Box::new(deep)));
    let list3 = List::from_vec(vals4);
    let mut cur: &List = &list3;
    for _ in 0..5 {
        cur = match cur.cdr_ref().unwrap().car_ref().unwrap() {
            Value::List(l) => l,
            _ => panic!("expected a nested list"),
        };
    }
    match cur.cdr_ref().unwrap().car_ref().unwrap() {
        Value::Int(i) => assert_eq!(7, *i),
        _ => panic!("expected an integer leaf"),
    }
}

#[test]
fn test_2_27() {
    let mut vals: Vec<Value> = Vec::new();
    vals.push(Value::List(Box::new(int_list(&[1, 2]))));
    vals.push(Value::List(Box::new(int_list(&[3, 4]))));
    let list = List::from_vec(vals);
    let expect = vec![4, 3, 2, 1];
    let mut exp_idx = 0;
    let r = deep_reverse(list);
    let mut it = r.iter();
    while let Some(v) = it.next() {
        match v {
            Value::List(l) => {
                let mut inner = l.iter_downcast();
                while let Some(val) = inner.next() {
                    assert_eq!(val, expect[exp_idx]);
                    exp_idx += 1;
                }
            }
            _ => panic!("expected nested lists"),
        }
    }
    assert_eq!(4, exp_idx);
}

#[test]
fn test_2_28() {
    let mut vals: Vec<Value> = Vec::new();
    vals.push(Value::List(Box::new(int_list(&[1, 2]))));
    vals.push(Value::List(Box::new(int_list(&[3, 4]))));
    let l = List::from_vec(vals);
    let expect = vec![1, 2, 3, 4];
    assert_eq!(expect, ints_of_list(&fringe(l)));

    let mut v1: Vec<Value> = Vec::new();
    v1.push(Value::List(Box::new(int_list(&[1, 2]))));
    v1.push(Value::List(Box::new(int_list(&[3, 4]))));
    let l1 = List::from_vec(v1);
    let mut v2: Vec<Value> = Vec::new();
    v2.push(Value::List(Box::new(int_list(&[1, 2]))));
    v2.push(Value::List(Box::new(int_list(&[3, 4]))));
    let l2 = List::from_vec(v2);
    let mut outer: Vec<Value> = Vec::new();
    outer.push(Value::List(Box::new(l1)));
    outer.push(Value::List(Box::new(l2)));
    let l = List::from_vec(outer);
    let expect = vec![1, 2, 3, 4, 1, 2, 3, 4];
    assert_eq!(expect, ints_of_list(&fringe(l)));
}
