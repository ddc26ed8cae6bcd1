use linked_list::LinkedList;
use std::rc::Rc;

#[test]
fn popping_from_an_empty_list_should_return_none() {
    let list: LinkedList<u32> = LinkedList::<u32>::new();
    let pop_result = list.pop();
    assert!(pop_result.is_none());
}

#[test]
fn items_should_be_popped_from_the_list() {
    let list = LinkedList::<u32>::new().push(456).push(123);
    let (first_elem, tail1) = list.pop().expect("expected result of first pop to be Some");
    assert_eq!(123u32, first_elem);
    assert_eq!(1, tail1.len());
}

#[test]
fn items_should_be_added_to_a_list() {
    let list = LinkedList::<u32>::new().push(123).push(456);

    assert_eq!(2, list.len());
}

#[test]
fn an_empty_linked_list_can_be_created() {
    let empty_list: LinkedList<u32> = LinkedList::<u32>::new();
    assert!(empty_list.is_empty());
}

#[test]
fn a_pushed_list_is_not_empty() {
    let list = LinkedList::<u32>::new().push(7);
    assert!(!list.is_empty());
}

#[test]
fn popping_reaches_the_oldest_element_last() {
    let list = LinkedList::<u32>::new().push(456).push(123);
    assert_eq!(2, list.len());
    let (first_elem, tail1) = list.pop().expect("expected result of first pop to be Some");
    assert_eq!(123u32, first_elem);
    assert_eq!(1, tail1.len());
    let tail_list = Rc::try_unwrap(tail1).expect("the tail has a single owner");
    let (second_elem, tail2) = tail_list.pop().expect("expected result of second pop to be Some");
    assert_eq!(456u32, second_elem);
    assert!(tail2.is_empty());
}

#[test]
fn pushed_values_come_back_in_reverse_order() {
    let list = LinkedList::<u32>::new().push(1).push(2).push(3);
    assert_eq!(3, list.len());
    let (a, rest) = list.pop().expect("expected a first element");
    let rest = Rc::try_unwrap(rest).expect("the tail has a single owner");
    let (b, rest) = rest.pop().expect("expected a second element");
    let rest = Rc::try_unwrap(rest).expect("the tail has a single owner");
    let (c, rest) = rest.pop().expect("expected a third element");
    assert_eq!((3u32, 2u32, 1u32), (a, b, c));
    assert!(rest.is_empty());
}

#[test]
fn fold_r_visits_elements_from_head_to_tail() {
    let list = LinkedList::<u32>::new().push(1).push(2).push(3);
    let collected = list.fold_r(Vec::new(), |mut acc: Vec<u32>, elem: &u32| {
        acc.push(*elem);
        acc
    });
    assert_eq!(vec![3u32, 2u32, 1u32], collected);
}

#[test]
fn fold_r_on_an_empty_list_returns_the_initial_value() {
    let list: LinkedList<u32> = LinkedList::<u32>::new();
    let folded = list.fold_r(41usize, |acc: usize, _elem: &u32| acc + 1);
    assert_eq!(41usize, folded);
}

#[test]
fn a_shared_tail_is_observed_unchanged_by_both_references() {
    let list = LinkedList::<u32>::new().push(7).push(8);
    let (head, tail) = list.pop().expect("expected a head element");
    assert_eq!(8u32, head);
    let second = Rc::clone(&tail);
    let collect = |mut acc: Vec<u32>, elem: &u32| {
        acc.push(*elem);
        acc
    };
    let via_first = tail.fold_r(Vec::new(), collect);
    let via_second = second.fold_r(Vec::new(), collect);
    assert_eq!(vec![7u32], via_first);
    assert_eq!(vec![7u32], via_second);
    drop(tail);
    assert_eq!(1, second.len());
    assert!(!second.is_empty());
}
