use linked_lists::dll::DoublyLinkedList;

#[test]
fn basics() {
    let mut dll = DoublyLinkedList::new();

    // Check empty list behaves right
    assert_eq!(dll.pop_front(), None);

    // Populate list
    dll.push_front(1);
    dll.push_front(2);
    dll.push_front(3);

    // Check normal removal
    assert_eq!(dll.pop_front(), Some(3));
    assert_eq!(dll.pop_front(), Some(2));

    // Push some more just to make sure nothing's corrupted
    dll.push_front(4);
    dll.push_front(5);

    // Check normal removal
    assert_eq!(dll.pop_front(), Some(5));
    assert_eq!(dll.pop_front(), Some(4));

    // Check exhaustion
    assert_eq!(dll.pop_front(), Some(1));
    assert_eq!(dll.pop_front(), None);
}

#[test]
fn single_element_pop_both_ends() {
    let mut dll = DoublyLinkedList::new();
    dll.push_front(42);
    assert_eq!(dll.pop_back(), Some(42));
    assert_eq!(dll.pop_front(), None);

    let mut dll = DoublyLinkedList::new();
    dll.push_back(7);
    assert_eq!(dll.pop_front(), Some(7));
    assert_eq!(dll.pop_back(), None);
}

#[test]
fn fifo_via_back_removal() {
    let mut dll = DoublyLinkedList::new();
    dll.push_front(1);
    dll.push_front(2);
    dll.push_front(3);
    dll.push_front(4);
    assert_eq!(dll.pop_back(), Some(1));
    assert_eq!(dll.pop_back(), Some(2));
    assert_eq!(dll.pop_back(), Some(3));
    assert_eq!(dll.pop_back(), Some(4));
    assert_eq!(dll.pop_back(), None);
}

#[test]
fn push_back_keeps_order() {
    let mut dll = DoublyLinkedList::new();
    dll.push_back(1);
    dll.push_back(2);
    dll.push_back(3);
    assert_eq!(dll.pop_front(), Some(1));
    assert_eq!(dll.pop_front(), Some(2));
    assert_eq!(dll.pop_front(), Some(3));
    assert_eq!(dll.pop_front(), None);
}

#[test]
fn dll_into_iter_both_ends() {
    let mut dll = DoublyLinkedList::new();
    dll.push_back(1);
    dll.push_back(2);
    dll.push_back(3);
    dll.push_back(4);
    let mut iter = dll.into_iter();
    assert_eq!(iter.next(), Some(1));
    assert_eq!(iter.next_back(), Some(4));
    assert_eq!(iter.next(), Some(2));
    assert_eq!(iter.next_back(), Some(3));
    assert_eq!(iter.next(), None);
    assert_eq!(iter.next_back(), None);
}

#[test]
fn slot_reuse_after_pops() {
    let mut dll = DoublyLinkedList::new();
    dll.push_front(1);
    dll.push_front(2);
    dll.push_front(3);
    assert_eq!(dll.pop_back(), Some(1));
    assert_eq!(dll.pop_front(), Some(3));
    dll.push_back(4);
    dll.push_front(5);
    assert_eq!(dll.pop_front(), Some(5));
    assert_eq!(dll.pop_front(), Some(2));
    assert_eq!(dll.pop_front(), Some(4));
    assert_eq!(dll.pop_front(), None);
}
