use linked_lists::ll::LinkedList;

#[test]
fn linked_list() {
    let mut ll = LinkedList::new();
    assert_eq!(ll.pop(), None);

    ll.push(String::from("first"));
    ll.push(String::from("second"));
    ll.push(String::from("third"));

    assert_eq!(ll.pop(), Some(String::from("third")));
    assert_eq!(ll.pop(), Some(String::from("second")));

    ll.push(String::from("fourth"));
    ll.push(String::from("fifth"));

    assert_eq!(ll.pop(), Some(String::from("fifth")));
    assert_eq!(ll.pop(), Some(String::from("fourth")));

    assert_eq!(ll.pop(), Some(String::from("first")));
    assert_eq!(ll.pop(), None);
}

#[test]
fn into_iter() {
    let mut ll = LinkedList::new();
    let expected = vec![4, 3, 2, 1];

    ll.push(1);
    ll.push(2);
    ll.push(3);
    ll.push(4);

    let mut iter = ll.into_iter();
    let mut i = 0;
    while let Some(val) = iter.next() {
        assert_eq!(expected[i], val);
        i += 1;
    }
    assert_eq!(i, expected.len());
}

#[test]
fn ll_iter() {
    let mut ll = LinkedList::new();
    let expected = vec![&4, &3, &2, &1];

    ll.push(1);
    ll.push(2);
    ll.push(3);
    ll.push(4);

    let mut iter = ll.iter();
    let mut i = 0;
    while let Some(val) = iter.next() {
        assert_eq!(expected[i], val);
        i += 1;
    }
    assert_eq!(i, expected.len());

    // also can do it a second time
    let mut iter = ll.iter();
    let mut i = 0;
    while let Some(val) = iter.next() {
        assert_eq!(expected[i], val);
        i += 1;
    }
    assert_eq!(i, expected.len());
}

#[test]
fn iter_mut() {
    let mut ll = LinkedList::new();
    let mut one = 1;
    let mut two = 2;
    let mut three = 3;
    let expected = vec![&mut three, &mut two, &mut one];

    ll.push(1);
    ll.push(2);
    ll.push(3);

    let mut iter = ll.iter_mut();
    let mut i = 0;
    while let Some(val) = iter.next() {
        assert_eq!(expected[i], val);
        i += 1;
    }
    assert_eq!(i, expected.len());

    // also can do it a second time
    let mut iter = ll.iter_mut();
    let mut i = 0;
    while let Some(val) = iter.next() {
        assert_eq!(expected[i], val);
        i += 1;
    }
    assert_eq!(i, expected.len());
}
