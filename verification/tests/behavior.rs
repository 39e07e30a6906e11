use linked_lists::concurrent_ll::ConcurrentImmutableLinkedList;
use linked_lists::ll::LinkedList;

#[test]
fn exclusive_round_trip() {
    let mut ll = LinkedList::new();
    ll.push(1);
    ll.push(2);
    ll.push(3);
    ll.push(4);

    // iter() twice in succession yields [4, 3, 2, 1] both times.
    for _ in 0..2 {
        let mut iter = ll.iter();
        assert_eq!(iter.next(), Some(&4));
        assert_eq!(iter.next(), Some(&3));
        assert_eq!(iter.next(), Some(&2));
        assert_eq!(iter.next(), Some(&1));
        assert_eq!(iter.next(), None);
    }

    // Draining via consuming iteration yields [4, 3, 2, 1].
    let mut iter = ll.into_iter();
    assert_eq!(iter.next(), Some(4));
    assert_eq!(iter.next(), Some(3));
    assert_eq!(iter.next(), Some(2));
    assert_eq!(iter.next(), Some(1));
    assert_eq!(iter.next(), None);
}

#[test]
fn indexing_bounds() {
    let mut ll = LinkedList::new();
    assert_eq!(ll.get(0), None);

    ll.push(1);
    ll.push(2);
    ll.push(3);
    ll.push(4);

    // Matching insertion order from the front: the last push is index 0.
    assert_eq!(ll.get(0), Some(&4));
    assert_eq!(ll.get(1), Some(&3));
    assert_eq!(ll.get(2), Some(&2));
    assert_eq!(ll.get(3), Some(&1));
    assert_eq!(ll.get(4), None);
    assert_eq!(ll.get(5), None);
    assert_eq!(ll.get(1000), None);
}

#[test]
fn get_mut_writes_through() {
    let mut ll = LinkedList::new();
    ll.push(10);
    ll.push(20);
    ll.push(30);

    if let Some(v) = ll.get_mut(1) {
        *v = 21;
    } else {
        panic!("index 1 should be in range");
    }
    assert_eq!(ll.get(0), Some(&30));
    assert_eq!(ll.get(1), Some(&21));
    assert_eq!(ll.get(2), Some(&10));
    assert_eq!(ll.get_mut(3), None);
}

#[test]
fn peek_reads_front() {
    let mut ll = LinkedList::new();
    assert_eq!(ll.peek(), None);
    ll.push(5);
    assert_eq!(ll.peek(), Some(&5));
    ll.push(6);
    assert_eq!(ll.peek(), Some(&6));
    assert_eq!(ll.pop(), Some(6));
    assert_eq!(ll.peek(), Some(&5));
}

#[test]
fn concurrent_list_basics() {
    let cll = ConcurrentImmutableLinkedList::new();
    assert_eq!(cll.head(), None);

    let cll = cll.prepend(1).prepend(2).prepend(3);
    assert_eq!(cll.head(), Some(&3));

    let mut iter = cll.iter();
    assert_eq!(iter.next(), Some(&3));
    assert_eq!(iter.next(), Some(&2));
    assert_eq!(iter.next(), Some(&1));
    assert_eq!(iter.next(), None);

    let t = cll.tail();
    assert_eq!(t.head(), Some(&2));
    let e = ConcurrentImmutableLinkedList::<u8>::new().tail();
    assert_eq!(e.head(), None);
}

#[test]
fn concurrent_fork_shares_version() {
    let cll = ConcurrentImmutableLinkedList::new().prepend(1).prepend(2);
    let other = cll.fork();
    assert_eq!(other.head(), Some(&2));

    // Extending either handle leaves the other untouched.
    let extended = other.prepend(9);
    assert_eq!(extended.head(), Some(&9));
    assert_eq!(cll.head(), Some(&2));
    assert_eq!(cll.tail().head(), Some(&1));
}

#[test]
fn concurrent_get_bounds() {
    let cll = ConcurrentImmutableLinkedList::new().prepend(1).prepend(2);
    assert_eq!(cll.get(0), Some(&2));
    assert_eq!(cll.get(1), Some(&1));
    assert_eq!(cll.get(2), None);
}
