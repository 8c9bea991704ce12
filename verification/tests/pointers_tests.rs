use rust_labs::pointers::greeting;
use rust_labs::pointers::{canon_head, HeapOrStack};
use std::borrow::Cow;
use std::collections::VecDeque;

#[test]
fn heap_or_stack_reads_and_writes_through() {
    let heap = HeapOrStack::Heap(Box::new(3));
    let mut stack = HeapOrStack::Stack(5);
    assert_eq!(*heap + *stack, 8);
    *stack += 1;
    assert_eq!(*stack, 6);
    let vals = [heap, stack];
    let total: i32 = vals.iter().map(|v| **v).sum();
    assert_eq!(total, 9);
}

#[test]
fn canon_head_turns_to_the_first_odd() {
    let q = VecDeque::from(vec![0, 2, 4, 3, 5]);
    match canon_head(&q) {
        Some(Cow::Owned(d)) => assert_eq!(d, VecDeque::from(vec![3, 5, 0, 2, 4])),
        _ => panic!("expected a turned copy"),
    }
    let q = VecDeque::from(vec![1, 2]);
    assert!(matches!(canon_head(&q), Some(Cow::Borrowed(_))));
    let q = VecDeque::from(vec![-3, 2, 5]);
    assert_eq!(canon_head(&q).unwrap().into_owned(), VecDeque::from(vec![5, -3, 2]));
}

#[test]
fn canon_head_without_odd_numbers() {
    assert!(canon_head(&VecDeque::new()).is_none());
    assert!(canon_head(&VecDeque::from(vec![2, 4, -1])).is_none());
}

#[test]
fn greetings_come_in_turn() {
    assert_eq!(greeting(0), "Es lebe der Kaiser!");
    assert_eq!(greeting(1), "Möge uns der Kaiser schützen!");
    assert_eq!(greeting(2), "Éljen Ferenc József császár!");
    assert_eq!(greeting(9), "Es lebe der Kaiser!");
}
