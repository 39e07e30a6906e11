use linked_lists::immutable_ll::ImmutableLinkedList;

#[test]
fn immutable_linked_list() {
    let ill = ImmutableLinkedList::new();
    assert_eq!(ill.head(), None);

    let ill = ill.prepend(1).prepend(2).prepend(3);
    assert_eq!(ill.head(), Some(&3));

    let ill = ill.tail();
    assert_eq!(ill.head(), Some(&2));

    let ill = ill.tail();
    assert_eq!(ill.head(), Some(&1));

    let ill = ill.tail();
    assert_eq!(ill.head(), None);

    let ill = ill.tail();
    assert_eq!(ill.head(), None);
}

#[test]
fn immutable_ll_iter() {
    let ill = ImmutableLinkedList::new()
        .prepend(String::from("one"))
        .prepend(String::from("two"))
        .prepend(String::from("three"));

    let mut iter = ill.iter();
    assert_eq!(iter.next(), Some(&String::from("three")));
    assert_eq!(iter.next(), Some(&String::from("two")));
    assert_eq!(iter.next(), Some(&String::from("one")));
    assert_eq!(iter.next(), None);
}

#[test]
fn persistent_versions_share_suffixes() {
    let l0 = ImmutableLinkedList::new();
    let l1 = l0.prepend(1);
    let l2 = l1.prepend(2);

    // The tail of l2 exposes exactly the values of l1.
    let t = l2.tail();
    assert_eq!(t.head(), l1.head());
    let mut it_t = t.iter();
    let mut it_l1 = l1.iter();
    loop {
        let a = it_t.next();
        let b = it_l1.next();
        assert_eq!(a, b);
        if a.is_none() {
            break;
        }
    }

    // Extending l1 never changes what l2 or its tail expose.
    let l3 = l1.prepend(3);
    assert_eq!(l3.head(), Some(&3));
    assert_eq!(l2.head(), Some(&2));
    assert_eq!(l2.tail().head(), Some(&1));
    assert_eq!(t.head(), Some(&1));
}

#[test]
fn tail_of_empty_is_empty() {
    let empty = ImmutableLinkedList::<u32>::new();
    let t1 = empty.tail();
    assert!(t1.head().is_none());
    let t2 = t1.tail();
    assert!(t2.head().is_none());
    let t3 = t2.tail();
    assert!(t3.head().is_none());
}

#[test]
fn persistent_get_bounds() {
    let ill = ImmutableLinkedList::new().prepend(1).prepend(2).prepend(3);
    assert_eq!(ill.get(0), Some(&3));
    assert_eq!(ill.get(1), Some(&2));
    assert_eq!(ill.get(2), Some(&1));
    assert_eq!(ill.get(3), None);
    assert_eq!(ill.get(100), None);
    assert_eq!(ImmutableLinkedList::<u8>::new().get(0), None);
}
