use rust_labs::machines::{join_machines, MyIntMachine, StateMachine};
use std::collections::HashMap;

#[test]
fn int_machine() {
    let machine = MyIntMachine::default();
    let mut state: i32 = 1;
    let mut counter = 0;
    loop {
        let s = machine.step(state);
        counter += 1;
        if let Some(inner) = s {
            state = inner;
        } else {
            break;
        }
    }

    assert_eq!(counter, 3);
}

#[test]
fn some_other_test() {
    let map1: HashMap<u32, u32> = [(1, 2), (2, 5), (5, 1)].into();
    let map2: HashMap<u32, u32> = [(2, 3), (5, 3), (3, 12353), (12353, 5)].into();

    let v = join_machines(map1, map2);
    let steps: Vec<Option<u32>> = v.iter().map(|m| m.step(2)).collect();
    assert_eq!(steps, vec![Some(5), Some(3)]);
}

#[test]
fn int_machine_unknown_state_stops() {
    let machine = MyIntMachine::default();
    assert_eq!(machine.step(7), None);
    assert_eq!(machine.step(3), None);
    assert_eq!(machine.step(2), Some(3));
}

#[test]
fn map_machine_requires_successor_to_be_a_state() {
    let m: HashMap<u32, u32> = [(1, 9)].into();
    assert_eq!(m.step(1), None);
    let m2: HashMap<u32, u32> = [(1, 1)].into();
    assert_eq!(m2.step(1), Some(1));
}
