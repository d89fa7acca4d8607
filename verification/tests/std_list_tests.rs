use sicp::utils::std_list::List;
use sicp::utils::std_list::Node;

#[test]
fn basics() {
    let mut list = List::new();

    assert_eq!(list.pop_front(), None);
    assert_eq!(list.len(), 0);
    list.push_front(1);
    list.push_front(2);
    list.push_front(3);

    assert_eq!(list.len(), 3);
    assert_eq!(list.pop_front(), Some(3));
    assert_eq!(list.pop_front(), Some(2));

    assert_eq!(list.len(), 1);
    list.push_front(4);
    list.push_front(5);

    assert_eq!(list.len(), 3);
    assert_eq!(list.pop_front(), Some(5));
    assert_eq!(list.pop_front(), Some(4));

    assert_eq!(list.pop_front(), Some(1));
    assert_eq!(list.len(), 0);
    assert_eq!(list.pop_back(), None);
    assert_eq!(list.pop_front(), None);
    assert_eq!(list.len(), 0);
}

#[test]
fn test_borrow() {
    #[derive(Debug, PartialEq)]
    struct Bad<T>(T);

    let mut list = List::new();
    let a = 3;
    let b = Bad(&a);
    list.push_front(b);
    assert_eq!(list.pop_front(), Some(Bad(&3)));

    let mut list = List::new();
    let a = 3;
    list.push_front(&a);
    assert_eq!(list.pop_front(), Some(&3));
}

#[test]
fn iteration() {
    let mut list = List::new();
    list.push_front(1);
    list.push_front(2);
    list.push_front(3);

    let mut iter = list.iter();
    assert_eq!(iter.next(), Some(&3));
    assert_eq!(iter.next_back(), Some(&1));
    assert_eq!(iter.next(), Some(&2));
    assert_eq!(iter.next_back(), None);
    assert_eq!(iter.next(), None);

    let mut list = List::new();
    list.push_front(1);
    list.push_front(2);
    list.push_front(3);

    let mut list2 = List::new();
    list2.push_front(4);
    list2.push_front(5);
    list2.push_front(6);

    list2.extend_from(list);
    let mut into_iter = list2.into_iter();
    assert_eq!(into_iter.next_back(), Some(1));
    assert_eq!(into_iter.next(), Some(6));
    assert_eq!(into_iter.next_back(), Some(2));
    assert_eq!(into_iter.next(), Some(5));
    assert_eq!(into_iter.next_back(), Some(3));
    assert_eq!(into_iter.next(), Some(4));
    assert_eq!(into_iter.next(), None);

    let mut list = List::new();
    list.push_front(1);
    list.push_front(2);
    list.push_front(3);

    let mut list2 = List::new();
    list2.push_front(4);
    list2.push_front(5);
    list2.push_front(6);

    list2.extend_from(list.duplicate());
    let mut into_iter = list2.into_iter();
    assert_eq!(into_iter.next_back(), Some(1));
    assert_eq!(into_iter.next(), Some(6));
    assert_eq!(into_iter.next_back(), Some(2));
    assert_eq!(into_iter.next(), Some(5));
    assert_eq!(into_iter.next_back(), Some(3));
    assert_eq!(into_iter.next(), Some(4));
    assert_eq!(into_iter.next(), None);
}

#[test]
fn push_then_pop_front_restores() {
    let mut list = List::new();
    list.push_back(10);
    list.push_back(20);
    list.push_front(5);
    assert_eq!(list.len(), 3);
    assert_eq!(list.pop_front(), Some(5));
    assert_eq!(list.len(), 2);
    assert_eq!(list.front(), Some(&10));
    assert_eq!(list.back(), Some(&20));
}

#[test]
fn front_back_accessors() {
    let mut list = List::new();
    assert_eq!(list.front(), None::<&i64>);
    assert_eq!(list.back(), None::<&i64>);
    list.push_back(1);
    list.push_back(2);
    assert_eq!(list.front(), Some(&1));
    assert_eq!(list.back(), Some(&2));
    assert!(!list.is_empty());
    list.clear();
    assert!(list.is_empty());
    assert_eq!(list.len(), 0);
}

#[test]
fn pop_back_order() {
    let mut list = List::new();
    list.push_back(1);
    list.push_back(2);
    list.push_back(3);
    assert_eq!(list.pop_back(), Some(3));
    assert_eq!(list.pop_back(), Some(2));
    assert_eq!(list.pop_back(), Some(1));
    assert_eq!(list.pop_back(), None);
}

#[test]
fn slot_reuse_keeps_order() {
    let mut list = List::new();
    for i in 0..8 {
        list.push_back(i);
    }
    for _ in 0..4 {
        list.pop_front();
    }
    for i in 8..12 {
        list.push_back(i);
    }
    let mut it = list.iter();
    for want in 4..12 {
        assert_eq!(it.next(), Some(&want));
    }
    assert_eq!(it.next(), None);
}

#[test]
fn get_mut_updates_one_position() {
    let mut list = List::new();
    list.push_back(1);
    list.push_back(2);
    list.push_back(3);
    let slot = list.get_mut(1);
    *slot = 20;
    let mut it = list.iter();
    assert_eq!(it.next(), Some(&1));
    assert_eq!(it.next(), Some(&20));
    assert_eq!(it.next(), Some(&3));
}

#[test]
fn duplicate_is_independent() {
    let mut list = List::new();
    list.push_back(1);
    list.push_back(2);
    let mut copy = list.duplicate();
    *copy.get_mut(0) = 9;
    assert_eq!(list.front(), Some(&1));
    assert_eq!(copy.front(), Some(&9));
}

#[test]
fn push_front_scenario() {
    // pushing one, two, three front-first leaves the last push at the head
    let mut list = List::new();
    list.push_front(1);
    list.push_front(2);
    list.push_front(3);
    assert_eq!(list.front(), Some(&3));
    assert_eq!(list.pop_front(), Some(3));
    assert_eq!(list.pop_front(), Some(2));
    assert_eq!(list.len(), 1);
}

#[test]
fn node_roundtrip() {
    let n = Node::new(7);
    assert_eq!(7, n.into_element());
}

#[test]
fn iter_len_tracks_remaining() {
    let mut list = List::new();
    list.push_back(1);
    list.push_back(2);
    list.push_back(3);
    let mut it = list.iter();
    assert_eq!(3, it.len());
    it.next();
    assert_eq!(2, it.len());
    it.next_back();
    assert_eq!(1, it.len());
    it.next();
    assert_eq!(0, it.len());
    assert_eq!(it.next(), None);
    assert_eq!(it.next_back(), None);
}
