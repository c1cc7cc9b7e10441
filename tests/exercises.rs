use ownership_exercises::{List, Node, NotCopy, Owner, Stack};

#[test]
fn test_bst() {
    let one = 1;
    let two = 2;
    let p1 = &one;
    let p2 = &two;

    let mut r = Node::new(p1);
    r.insert(p2);
}

#[test]
fn test_list_insert_pop() {
    let one = 1;
    let two = 2;
    let p1 = &one;
    let p2 = &two;
    let mut head = List::new();

    head.insert(p1);
    head.insert(p2);

    let p3 = head.pop();
    let p4 = head.pop();

    match (p3, p4) {
        (Some(p3), Some(p4)) => assert!(p3 == p2 && p4 == p1),
        _ => assert!(false),
    };
}

#[test]
fn test_reverse() {
    let one = 1;
    let two = 2;
    let p1 = &one;
    let p2 = &two;
    let mut head = List::new();

    head.insert(p1);
    head.insert(p2);
    head = head.reverse();

    let p3 = head.pop();
    let p4 = head.pop();

    match (p3, p4) {
        (Some(p3), Some(p4)) => assert!(p3 == p1 && p4 == p2),
        _ => assert!(false),
    };
}

#[test]
fn test_stack() {
    let mut s = Stack::new();
    s.push(1);
    s.push(2);
    s.push(3);
    assert!(s.pop().unwrap() == 3);
    assert!(s.pop().unwrap() == 2);
    if let Some(x) = s.pop() {
        assert_eq!(x, 1);
    } else {
        assert!(false);
    }
    assert!(s.pop().is_none());
}

#[test]
fn test_struct_ownership() {
    let o = Owner { a: NotCopy { dummy: 1 }, b: NotCopy { dummy: 2 } };
    let Owner { a, b } = o;
    assert!(a.dummy == 1);
    assert!(b.dummy == 2);
}

#[test]
fn list_pops_in_reverse_of_insertion_then_none() {
    let vals = [5, 9, 9, -3, 0, 42];
    let mut l = List::new();
    for v in vals.iter() {
        l.insert(v);
    }
    for v in vals.iter().rev() {
        assert_eq!(l.pop(), Some(v));
    }
    assert_eq!(l.pop(), None);
    assert_eq!(l.pop(), None);
}

#[test]
fn list_pop_on_empty_is_none() {
    let mut l: List<i32> = List::new();
    assert_eq!(l.pop(), None);
}

#[test]
fn list_reverse_twice_keeps_order() {
    let vals = [1, 2, 3, 4];
    let mut l = List::new();
    for v in vals.iter() {
        l.insert(v);
    }
    let mut l = l.reverse().reverse();
    for v in vals.iter().rev() {
        assert_eq!(l.pop(), Some(v));
    }
    assert_eq!(l.pop(), None);
}

#[test]
fn list_reverse_of_three_and_of_empty() {
    let vals = [7, 8, 9];
    let mut l = List::new();
    for v in vals.iter() {
        l.insert(v);
    }
    let mut r = l.reverse();
    assert_eq!(r.pop(), Some(&7));
    assert_eq!(r.pop(), Some(&8));
    assert_eq!(r.pop(), Some(&9));
    assert_eq!(r.pop(), None);
    let e: List<i32> = List::new();
    let mut e = e.reverse();
    assert_eq!(e.pop(), None);
}

#[test]
fn bst_in_order_is_ascending() {
    let (a, b, c) = (1, 100, 50);
    let mut t = Node::new(&a);
    t.insert(&b);
    t.insert(&c);
    assert_eq!(t.to_vec(), vec![1, 50, 100]);
}

#[test]
fn bst_in_order_without_duplicates() {
    let vals = [8, 3, 10, 1, 6, 14, 4, 7, 13, 3, 8, -2, i32::MAX, i32::MIN];
    let mut t = Node::new(&vals[0]);
    for v in vals[1..].iter() {
        t.insert(v);
    }
    assert_eq!(t.to_vec(), vec![i32::MIN, -2, 1, 3, 4, 6, 7, 8, 10, 13, 14, i32::MAX]);
}

#[test]
fn bst_insert_present_value_changes_nothing() {
    let vals = [5, 2, 8, 2, 5, 8];
    let mut t = Node::new(&vals[0]);
    t.insert(&vals[1]);
    t.insert(&vals[2]);
    let before = t.to_vec();
    t.insert(&vals[3]);
    t.insert(&vals[4]);
    t.insert(&vals[5]);
    assert_eq!(t.to_vec(), before);
    assert_eq!(t.to_vec(), vec![2, 5, 8]);
}

#[test]
fn bst_single_node() {
    let v = 3;
    let t = Node::new(&v);
    assert_eq!(t.to_vec(), vec![3]);
}

#[test]
fn stack_pop_on_empty_is_none() {
    let mut s: Stack<u8> = Stack::new();
    assert_eq!(s.pop(), None);
    s.push(4);
    assert_eq!(s.pop(), Some(4));
    assert_eq!(s.pop(), None);
}
