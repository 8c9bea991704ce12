use vstd::prelude::*;
use std::collections::HashMap;
use std::hash::Hash;
use vstd::std_specs::hash::obeys_key_model;

verus! {

broadcast use vstd::std_specs::hash::group_hash_axioms;

/// A machine that moves from one state to the next, or stops.
pub trait StateMachine<S> {
    /// The state after `state`, or `None` when the machine stops there.
    fn step(&self, state: S) -> Option<S>;
}

/// The state that ends a run of a machine.
pub const END: i32 = -1;

/// A machine over integer states given by a transition table.
pub struct MyIntMachine {
    map: HashMap<i32, i32>,
}

/// One step by a transition table: the successor of `state` if the table has
/// one that is itself in the table and is not `END`.
pub open spec fn table_step(m: Map<i32, i32>, state: i32) -> Option<i32> {
    if m.contains_key(state) && m.contains_key(m[state]) && m[state] != END {
        Some(m[state])
    } else {
        None
    }
}

/// The table 1 -> 2, 2 -> 3, 3 -> END.
pub open spec fn int_table() -> Map<i32, i32> {
    map![1i32 => 2i32, 2i32 => 3i32, 3i32 => END]
}

impl MyIntMachine {
    pub closed spec fn table(&self) -> Map<i32, i32> {
        self.map@
    }

    /// The machine 1 -> 2 -> 3 -> END.
    pub fn default() -> (r: Self)
        ensures
            r.table() == int_table(),
    {
        let mut map: HashMap<i32, i32> = HashMap::new();
        map.insert(1, 2);
        map.insert(2, 3);
        map.insert(3, END);
        assert(map@ =~= int_table());
        MyIntMachine { map }
    }
}

impl StateMachine<i32> for MyIntMachine {
    fn step(&self, state: i32) -> (r: Option<i32>)
        ensures
            r == table_step(self.table(), state),
    {
        match self.map.get(&state) {
            Some(new_state) => {
                let new_state = *new_state;
                if self.map.contains_key(&new_state) && new_state != END {
                    Some(new_state)
                } else {
                    None
                }
            },
            None => None,
        }
    }
}

impl<S: Clone + Eq + Hash> StateMachine<S> for HashMap<S, S> {
    /// The successor of `state` in the map, if it is itself a key of the map.
    /// For key types that follow the hash-table model, the successor returned
    /// is a clone of the map's entry; `None` means there is no entry, or the
    /// clone that was looked up is not a key.
    fn step(&self, state: S) -> (r: Option<S>)
        ensures
            obeys_key_model::<S>() ==> (r matches Some(n) ==> self@.contains_key(state) && cloned(self@[state], n)
                && self@.contains_key(n)),
            obeys_key_model::<S>() ==> (r is None ==> !self@.contains_key(state) || (exists|n: S|
                cloned(self@[state], n) && !self@.contains_key(n))),
    {
        match self.get(&state) {
            Some(new_state) => {
                let new_state = new_state.clone();
                if self.contains_key(&new_state) {
                    Some(new_state)
                } else {
                    None
                }
            },
            None => None,
        }
    }
}

/// The number of steps a run from `state` takes until the machine stops,
/// counting the step that stops it, within `fuel` steps.
pub open spec fn run_length(m: Map<i32, i32>, state: i32, fuel: nat) -> nat
    decreases fuel,
{
    if fuel == 0 {
        0
    } else {
        match table_step(m, state) {
            Some(next) => 1 + run_length(m, next, (fuel - 1) as nat),
            None => 1,
        }
    }
}

/// Run from 1, the machine 1 -> 2 -> 3 -> END takes three steps: two moves
/// and the step that stops at 3.
pub proof fn law_int_machine_stops_after_three_steps()
    ensures
        run_length(int_table(), 1, 10) == 3,
{
    reveal_with_fuel(run_length, 4);
    assert(table_step(int_table(), 1) == Some(2i32));
    assert(table_step(int_table(), 2) == Some(3i32));
    assert(table_step(int_table(), 3) == None::<i32>);
}

/// The two machines side by side, each boxed behind its trait: `x` first,
/// `y` second. The contract gives the length of the list.
pub fn join_machines<'a, S, M1, M2>(x: M1, y: M2) -> (r: Vec<Box<dyn StateMachine<S> + 'a>>) where
    M1: StateMachine<S> + 'a,
    M2: StateMachine<S> + 'a,

    ensures
        r@.len() == 2,
{
    let a: Box<dyn StateMachine<S> + 'a> = Box::new(x);
    let b: Box<dyn StateMachine<S> + 'a> = Box::new(y);
    let v: Vec<Box<dyn StateMachine<S> + 'a>> = vec![a, b];
    v
}

} // verus!
