use linked_list::LinkedList;

#[test]
fn pop_back_example() {
    let mut l = LinkedList::new();

    l.push_front(1);
    l.push_front(2);

    assert_eq!(l.pop_back(), Some(1));
    assert_eq!(l.pop_back(), Some(2));
    assert_eq!(l.pop_back(), None);
}

#[test]
fn linked_list_returns_none_if_list_is_empty() {
    let mut l: LinkedList<i32> = LinkedList::new();

    assert_eq!(l.pop_back(), None);
}

#[test]
fn just_one_element() {
    let mut l = LinkedList::new();

    l.push_front(1);
    assert_eq!(l.pop_back(), Some(1));
    assert_eq!(l.pop_back(), None);
}

#[test]
fn multiple_elements() {
    let mut l = LinkedList::new();

    l.push_front(1);
    l.push_front(2);
    l.push_front(3);
    assert_eq!(l.to_string(), "3 -> 2 -> 1 -> None");

    assert_eq!(l.pop_back(), Some(1));
    assert_eq!(l.pop_back(), Some(2));
    assert_eq!(l.pop_back(), Some(3));
    assert_eq!(l.pop_back(), None);
}
