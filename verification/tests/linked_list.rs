use tokenizer::linked_list::{InsertError, LinkedList};

fn from_range(range: std::ops::Range<usize>) -> LinkedList<usize> {
    LinkedList::from_vec(range.collect::<Vec<_>>())
}

#[test]
fn can_create_from_iter() {
    let list = from_range(0..100);
    assert_eq!(list.len(), 100);
    assert_eq!(list.head(), Some(&0));
    assert_eq!(list.tail(), Some(&99));
}

#[test]
fn can_push_front() {
    let mut list = LinkedList::<usize>::new();
    list.push_front(100);
    assert_eq!(list.head(), Some(&100));
}

#[test]
fn can_push_back() {
    let mut list = LinkedList::<usize>::new();
    list.push_back(100);
    assert_eq!(list.tail(), Some(&100));
}

#[test]
fn can_insert_into_middle() {
    let mut list = from_range(0..100);
    let a = 9999999;
    let b = 45;
    list.insert(a, b).unwrap();
    assert_eq!(list.get(b), Some(&a));
    let a = 123123;
    let b = 68;
    list.insert(a, b).unwrap();
    assert_eq!(list.get(b), Some(&a));
    let a = 0;
    let b = list.len();
    list.insert(a, b).unwrap();
    assert_eq!(list.get(b), Some(&a));
}

#[test]
fn inserting_increments_length_by_one() {
    let mut list = from_range(0..100);
    assert_eq!(list.len(), 100);
    list.insert(1000, 0).unwrap();
    assert_eq!(list.len(), 101);
}

#[test]
fn pop_front_and_back_decr_length_by_one() {
    let mut list = from_range(0..100);
    assert_eq!(list.len(), 100);
    list.pop_front();
    assert_eq!(list.len(), 99);
    list.pop_back();
    assert_eq!(list.len(), 98);
}

#[test]
fn can_into_iter() {
    let list = from_range(0..100);
    let expected = (0..100).collect::<Vec<_>>();
    let mut observed = Vec::new();
    let mut iter = list.into_iter();
    while let Some(value) = iter.next() {
        observed.push(value);
    }
    assert_eq!(expected, observed);
}

#[test]
fn similar_lists_compare_equal() {
    let list1 = from_range(0..100);
    let list2 = from_range(0..100);
    assert_eq!(list1, list2);
}

#[test]
fn can_reverse() {
    let forward = LinkedList::from_vec((0..100).rev().collect::<Vec<_>>());
    let reversed = {
        let mut list = from_range(0..100);
        list.reverse();
        list
    };
    assert_eq!(forward, reversed);
}

#[test]
fn push_front_then_pop_front_returns_value_and_length() {
    let mut list = from_range(0..10);
    let len_before = list.len();
    list.push_front(77);
    assert_eq!(list.pop_front(), Some(77));
    assert_eq!(list.len(), len_before);
    assert_eq!(list, from_range(0..10));
}

#[test]
fn pop_front_and_pop_back_return_the_ends() {
    let mut list = from_range(0..100);
    assert_eq!(list.pop_front(), Some(0));
    assert_eq!(list.len(), 99);
    assert_eq!(list.pop_back(), Some(99));
    assert_eq!(list.len(), 98);
    assert_eq!(list.head(), Some(&1));
    assert_eq!(list.tail(), Some(&98));
}

#[test]
fn pops_on_empty_chain_are_absent() {
    let mut list = LinkedList::<usize>::new();
    assert_eq!(list.pop_front(), None);
    assert_eq!(list.pop_back(), None);
    assert_eq!(list.head(), None);
    assert_eq!(list.tail(), None);
    assert_eq!(list.len(), 0);
    assert!(list.is_empty());
}

#[test]
fn pop_back_on_single_element_chain_returns_it() {
    let mut list = LinkedList::<usize>::new();
    list.push_back(42);
    assert_eq!(list.pop_back(), Some(42));
    assert_eq!(list.len(), 0);
    assert_eq!(list.pop_back(), None);
}

#[test]
fn insert_beyond_length_fails_and_mutates_nothing() {
    let mut list = from_range(0..5);
    let result = list.insert(9, 6);
    assert_eq!(result, Err(InsertError::PositionOutOfBounds));
    assert_eq!(list.len(), 5);
    assert_eq!(list, from_range(0..5));

    let mut empty = LinkedList::<usize>::new();
    assert_eq!(empty.insert(1, 1), Err(InsertError::PositionOutOfBounds));
    assert_eq!(empty.len(), 0);
}

#[test]
fn get_matches_the_equivalent_plain_sequence() {
    let elems = vec![4usize, 9, 2, 7, 7, 0];
    let list = LinkedList::from_vec(elems.clone());
    for (n, expected) in elems.iter().enumerate() {
        assert_eq!(list.get(n), Some(expected));
    }
    assert_eq!(list.get(elems.len()), None);
    assert_eq!(list.get(elems.len() + 10), None);
}

#[test]
fn get_mut_overwrites_one_element() {
    let mut list = from_range(0..10);
    *list.get_mut(3).unwrap() = 500;
    assert_eq!(list.get(3), Some(&500));
    assert_eq!(list.get(2), Some(&2));
    assert_eq!(list.get(4), Some(&4));
    assert_eq!(list.len(), 10);
    assert_eq!(list.get_mut(10), None);
}

#[test]
fn tail_mut_overwrites_the_last_element() {
    let mut list = from_range(0..10);
    *list.tail_mut().unwrap() = 123;
    assert_eq!(list.tail(), Some(&123));
    assert_eq!(list.len(), 10);

    let mut empty = LinkedList::<usize>::new();
    assert_eq!(empty.tail_mut(), None);
}

#[test]
fn borrowing_iteration_is_restartable() {
    let list = from_range(0..5);
    let mut first = list.iter();
    let mut collected = Vec::new();
    while let Some(value) = first.next() {
        collected.push(*value);
    }
    assert_eq!(collected, vec![0, 1, 2, 3, 4]);

    let mut second = list.iter();
    assert_eq!(second.next(), Some(&0));
    assert_eq!(list.len(), 5);
}

#[test]
fn consuming_iteration_drains_everything() {
    let mut iter = from_range(0..100).into_iter();
    let mut count = 0;
    while let Some(value) = iter.next() {
        assert_eq!(value, count);
        count += 1;
    }
    assert_eq!(count, 100);
    assert_eq!(iter.next(), None);
    assert_eq!(iter.next(), None);
}

#[test]
fn round_trip_through_build_and_drain() {
    let elems = vec![3usize, 1, 4, 1, 5, 9, 2, 6];
    let mut iter = LinkedList::from_vec(elems.clone()).into_iter();
    let mut drained = Vec::new();
    while let Some(value) = iter.next() {
        drained.push(value);
    }
    assert_eq!(drained, elems);
}

#[test]
fn reverse_twice_restores_the_chain() {
    let mut list = from_range(0..50);
    list.reverse();
    list.reverse();
    assert_eq!(list, from_range(0..50));
    assert_eq!(list.len(), 50);

    let mut empty = LinkedList::<usize>::new();
    empty.reverse();
    assert!(empty.is_empty());
}

#[test]
fn chains_of_different_lengths_or_values_compare_unequal() {
    let list1 = from_range(0..10);
    let list2 = from_range(0..11);
    assert_ne!(list1, list2);

    let list3 = LinkedList::from_vec(vec![1usize, 2, 3]);
    let list4 = LinkedList::from_vec(vec![1usize, 2, 4]);
    assert_ne!(list3, list4);

    let empty1 = LinkedList::<usize>::new();
    let empty2 = LinkedList::<usize>::default();
    assert_eq!(empty1, empty2);
}
