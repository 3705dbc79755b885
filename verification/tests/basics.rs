use linked_list::LinkedList;

#[test]
fn construction() {
    let list: LinkedList<isize> = LinkedList::new();
    assert_eq!(list.to_string(), "None");
}

#[test]
fn prepend_once() {
    let mut list = LinkedList::new();
    list.prepend(1);
    assert_eq!(list.to_string(), "1 -> None");
}

#[test]
fn prepend_twice() {
    let mut list = LinkedList::new();
    list.prepend(1);
    list.prepend(2);
    assert_eq!(list.to_string(), "2 -> 1 -> None");
}

#[test]
fn prepend_thrice() {
    let mut list = LinkedList::new();
    list.prepend(1);
    list.prepend(2);
    list.prepend(3);
    assert_eq!(list.to_string(), "3 -> 2 -> 1 -> None");
}

#[test]
fn append_when_list_is_empty() {
    let mut list = LinkedList::new();
    list.append(1);
    assert_eq!(list.to_string(), "1 -> None");
}

#[test]
fn append_twice() {
    let mut list = LinkedList::new();
    list.append(1);
    list.append(2);
    assert_eq!(list.to_string(), "1 -> 2 -> None");
}

#[test]
fn append_thrice() {
    let mut list = LinkedList::new();
    list.append(1);
    list.append(2);
    list.append(3);
    assert_eq!(list.to_string(), "1 -> 2 -> 3 -> None");
}

#[test]
fn append_and_prepend() {
    let mut list = LinkedList::new();
    list.append(1);
    list.prepend(2);
    list.append(3);
    list.prepend(4);
    assert_eq!(list.to_string(), "4 -> 2 -> 1 -> 3 -> None");
}

#[test]
fn pop() {
    let mut list: LinkedList<i32> = LinkedList::new();
    list.prepend(1);
    list.prepend(2);
    list.prepend(3);

    assert_eq!(list.pop(), Some(3));
    assert_eq!(list.pop(), Some(2));
    assert_eq!(list.pop(), Some(1));
    assert_eq!(list.pop(), None);
}

#[test]
fn list_is_empty_and_insert_to_index_zero() {
    let mut list = LinkedList::new();
    list.insert(0, 1).unwrap();
    assert_eq!(list.to_string(), "1 -> None");
}

#[test]
fn try_insert_by_nonzero_index_to_empty_list() {
    let mut list = LinkedList::new();
    let result = list.insert(1, 1);
    assert!(result.is_err());
}

#[test]
fn insert_to_index_zero() {
    let mut list = LinkedList::new();
    list.prepend(1);
    list.prepend(0);
    list.insert(0, 9).unwrap();
    assert_eq!(list.to_string(), "9 -> 0 -> 1 -> None");
}

#[test]
fn insert_to_between_nodes_pattern_1() {
    let mut list = LinkedList::new();
    list.prepend(2);
    list.prepend(1);
    list.prepend(0);

    assert_eq!(list.to_string(), "0 -> 1 -> 2 -> None");
    list.insert(1, 9).unwrap();
    assert_eq!(list.to_string(), "0 -> 9 -> 1 -> 2 -> None");
}

#[test]
fn insert_to_between_nodes_pattern_2() {
    let mut list = LinkedList::new();
    list.prepend(2);
    list.prepend(1);
    list.prepend(0);

    assert_eq!(list.to_string(), "0 -> 1 -> 2 -> None");
    list.insert(2, 9).unwrap();
    assert_eq!(list.to_string(), "0 -> 1 -> 9 -> 2 -> None");
}

#[test]
fn insert_to_tail() {
    let mut list = LinkedList::new();
    list.prepend(0);

    assert_eq!(list.to_string(), "0 -> None");
    list.insert(1, 9).unwrap();
    assert_eq!(list.to_string(), "0 -> 9 -> None");
}

#[test]
fn insert_to_tail_big() {
    let mut list = LinkedList::new();
    list.prepend(3);
    list.prepend(2);
    list.prepend(1);
    list.prepend(0);

    assert_eq!(list.to_string(), "0 -> 1 -> 2 -> 3 -> None");
    list.insert(4, 9).unwrap();
    assert_eq!(list.to_string(), "0 -> 1 -> 2 -> 3 -> 9 -> None");
}

#[test]
fn insert_to_bigger_index_than_list_size() {
    let mut list = LinkedList::new();
    list.prepend(0);

    assert_eq!(list.to_string(), "0 -> None");
    let result = list.insert(2, 9);
    assert!(result.is_err());
}

#[test]
fn insert_to_bigger_index_than_list_size_big() {
    let mut list = LinkedList::new();
    list.prepend(3);
    list.prepend(2);
    list.prepend(1);
    list.prepend(0);

    assert_eq!(list.to_string(), "0 -> 1 -> 2 -> 3 -> None");
    let result = list.insert(5, 9);
    assert!(result.is_err());
}
