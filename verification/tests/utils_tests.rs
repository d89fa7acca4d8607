use sicp::utils::cons::Cons;
use sicp::utils::cons::Kind;
use sicp::utils::cons::Value;
use sicp::utils::list::List;

fn int_list(vals: &[i64]) -> List {
    let mut v: Vec<Value> = Vec::new();
    for x in vals {
        v.push(Value::Int(*x));
    }
    List::from_vec(v)
}

#[test]
fn basic_cons() {
    let list = Cons::new(Some(Value::Int(1)), Some(Value::Int(2)));
    assert_eq!(list.car_ref().unwrap(), &Value::Int(1));
    assert_eq!(list.cdr_ref().unwrap(), &Value::Int(2));

    let list2 = Cons::new(Some(Value::Pair(Box::new(list))), Some(Value::Int(3)));
    let l1 = match list2.car_downcast_ref(Kind::Pair).unwrap() {
        Value::Pair(c) => c,
        _ => panic!("expected a nested cell"),
    };
    assert_eq!(l1.car_ref().unwrap(), &Value::Int(1));
    assert_eq!(list2.cdr_ref().unwrap(), &Value::Int(3));
}

#[test]
fn basic_list() {
    let mut list = int_list(&[1, 2, 3, 4]);
    let mut iter = list.iter();
    assert_eq!(iter.next().unwrap(), &Value::Int(1));
    assert_eq!(iter.next().unwrap(), &Value::Int(2));
    assert_eq!(iter.next().unwrap(), &Value::Int(3));
    assert_eq!(iter.next().unwrap(), &Value::Int(4));
    assert_eq!(iter.next(), None);

    for pos in 0..4usize {
        let v = list.nth_mut(pos);
        assert_eq!(*v, Value::Int(pos as i64 + 1));
    }

    let mut into = list.into_iter();
    assert_eq!(into.next().unwrap(), Value::Int(1));
    assert_eq!(into.next().unwrap(), Value::Int(2));
    assert_eq!(into.next().unwrap(), Value::Int(3));
    assert_eq!(into.next().unwrap(), Value::Int(4));
    assert_eq!(into.next(), None);
}

#[test]
fn cell_accessors() {
    let mut cell = Cons::new(Some(Value::Int(7)), None);
    let prev = cell.set_car(Some(Value::Int(9)));
    assert_eq!(prev, Some(Value::Int(7)));
    assert_eq!(cell.car_downcast(Kind::Int), Some(Value::Int(9)));
    assert_eq!(cell.car_ref(), None);

    let mut cell = Cons::new(Some(Value::Int(7)), None);
    // a mismatched request empties the slot and reports absence
    assert_eq!(cell.car_downcast(Kind::List), None);
    assert_eq!(cell.car_ref(), None);

    let mut cell = Cons::new(None, Some(Value::Int(3)));
    assert_eq!(cell.cdr_downcast(Kind::Int), Some(Value::Int(3)));
    assert_eq!(cell.cdr_ref(), None);
    assert_eq!(cell.set_cdr(Some(Value::Int(4))), None);
    assert_eq!(cell.cdr(), Some(Value::Int(4)));
}

#[test]
fn value_casts() {
    let v = Value::Int(5);
    assert!(v.cast_ref(Kind::Int).is_some());
    assert!(v.cast_ref(Kind::List).is_none());
    assert_eq!(v.as_int(), Some(5));
    let l = Value::List(Box::new(int_list(&[1])));
    assert_eq!(l.as_int(), None);
}

#[test]
fn hetero_head_and_take() {
    let mut l = int_list(&[1, 2, 3]);
    assert_eq!(l.len(), 3);
    assert_eq!(l.car_ref(), Some(&Value::Int(1)));
    let first = l.car();
    assert_eq!(first, Some(Value::Int(1)));
    assert_eq!(l.len(), 2);
    let rest = l.cdr();
    assert!(rest.is_some());
    assert_eq!(rest.unwrap().len(), 1);
    assert_eq!(l.len(), 1);
    let taken = l.take();
    assert_eq!(taken.len(), 1);
    assert_eq!(l.len(), 0);
}

#[test]
fn hetero_set_and_tail() {
    let mut l = int_list(&[1, 2]);
    l.set_car(Value::Int(9));
    assert_eq!(l.car_ref(), Some(&Value::Int(9)));

    let tail = l.tail();
    assert_eq!(tail.car_ref(), Some(&Value::Int(2)));
    tail.set_car(Value::Int(8));
    assert_eq!(l.nth_mut(1), &mut Value::Int(8));

    let old = l.set_cdr(Some(int_list(&[5, 6])));
    assert!(old.is_some());
    let mut it = l.iter_downcast();
    assert_eq!(it.next(), Some(9));
    assert_eq!(it.next(), Some(5));
    assert_eq!(it.next(), Some(6));
    assert_eq!(it.next(), None);
}

#[test]
fn reverse_twice_is_identity() {
    let l = int_list(&[1, 2, 3, 4, 5]);
    let back = l.reverse().reverse();
    let mut it = back.iter_downcast();
    for want in 1..=5 {
        assert_eq!(it.next(), Some(want));
    }
    assert_eq!(it.next(), None);
}

#[test]
fn built_list_length_matches() {
    assert_eq!(int_list(&[]).len(), 0);
    assert_eq!(int_list(&[4]).len(), 1);
    assert_eq!(int_list(&[4, 5, 6]).len(), 3);
}

#[test]
fn deep_clone_is_independent() {
    let original = int_list(&[1, 2, 3]);
    let mut copy = original.deep_clone();
    assert!(sicp::utils::cons::list_eq(&original, &copy));
    copy.set_car(Value::Int(42));
    assert!(!sicp::utils::cons::list_eq(&original, &copy));
    assert_eq!(original.car_ref(), Some(&Value::Int(1)));
}

#[test]
fn structural_equality() {
    let a = Value::Int(1);
    let b = Value::Int(1);
    let c = Value::Int(2);
    assert!(a == b);
    assert!(a != c);
    let la = Value::List(Box::new(int_list(&[1, 2])));
    let lb = Value::List(Box::new(int_list(&[1, 2])));
    let lc = Value::List(Box::new(int_list(&[1, 3])));
    assert!(la == lb);
    assert!(la != lc);
    // values of different kinds are never equal
    assert!(a != la);
    let ca = Value::Pair(Box::new(Cons::new(Some(Value::Int(1)), None)));
    let cb = Value::Pair(Box::new(Cons::new(Some(Value::Int(1)), None)));
    assert!(ca == cb);
    assert!(ca != la);
}

#[test]
fn hetero_first_scenario() {
    let mut l = int_list(&[1, 2, 3, 4]);
    // the head as an integer is one
    match l.car_ref().unwrap() {
        Value::Int(i) => assert_eq!(1, *i),
        _ => panic!("expected an integer"),
    }
    // requesting the head as a list kind comes back absent
    assert!(l.car_ref().unwrap().cast_ref(Kind::List).is_none());
    // and through the cell-level typed take as well
    assert_eq!(l.head.car_downcast(Kind::List), None);
}

#[test]
fn reverse_seven() {
    let l = int_list(&[1, 2, 3, 4, 5, 6, 7]);
    let r = l.reverse();
    let expect = vec![7, 6, 5, 4, 3, 2, 1];
    let mut it = r.iter_downcast();
    for want in expect {
        assert_eq!(it.next(), Some(want));
    }
    assert_eq!(it.next(), None);
}

#[test]
fn extend_appends_in_order() {
    let mut l = int_list(&[1, 2]);
    l.extend(vec![Value::Int(3), Value::Int(4)]);
    let mut it = l.iter_downcast();
    for want in 1..=4 {
        assert_eq!(it.next(), Some(want));
    }
    assert_eq!(it.next(), None);
}
