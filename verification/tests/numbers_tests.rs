use rust_labs::numbers::{first_zero_index, random_grid, ARR_LEN};
use rust_labs::numbers::{
    assert_sorted, check_collatz, check_collatz_array, collatz, divisors, make_powers, DoubleString,
};
use std::collections::BTreeSet;

#[test]
fn powers_of_three() {
    let p = make_powers(3);
    assert_eq!(p, [3, 9, 27, 81, 243, 729, 2187, 6561, 19683, 59049]);
    assert_eq!(make_powers(0), [0; 10]);
    assert_eq!(make_powers(1), [1; 10]);
    assert_eq!(make_powers(84)[9], 84u64.pow(10));
}

#[test]
fn collatz_steps() {
    assert_eq!(collatz(6), 3);
    assert_eq!(collatz(7), 22);
    assert!(check_collatz(1));
    assert!(check_collatz(27) == false); // 27 needs 111 steps
    assert!(check_collatz(6));
    assert!(!check_collatz(0));
}

#[test]
fn collatz_array() {
    let r = check_collatz_array([1, 2, 3, 4, 5, 6, 7, 8, 9, 27]);
    assert_eq!(r, [true, true, true, true, true, true, true, true, true, false]);
}

#[test]
fn divisors_examples() {
    let d: Vec<u32> = divisors(12).into_iter().collect();
    assert_eq!(d, vec![1, 2, 3, 4, 6, 12]);
    let d: Vec<u32> = divisors(1).into_iter().collect();
    assert_eq!(d, vec![1]);
    let d: BTreeSet<u32> = divisors(49);
    assert_eq!(d.into_iter().collect::<Vec<u32>>(), vec![1, 7, 49]);
    assert_eq!(divisors(97).len(), 2);
    assert_eq!(divisors(65535 * 65535).len(), 81);
}

#[test]
fn sorted_list_passes() {
    let mut v: Vec<u32> = vec![2, 5, 1, 624, 2367, 1235, 2137, 11, 751];
    v.sort();
    assert_sorted(&v);
    assert_sorted(&[]);
}

#[test]
fn double_string() {
    let d = DoubleString::from_strs("a", "b");
    assert_eq!((d.0.as_str(), d.1.as_str()), ("a", "b"));
    let e = DoubleString::from_strings(&"x".to_string(), &"y".to_string());
    assert_eq!(e.1, "y");
}

#[test]
fn grid_scan_finds_the_first_zero() {
    let mut g = [[7u32; ARR_LEN]; ARR_LEN];
    assert_eq!(first_zero_index(&g), 0);
    g[3][4] = 0;
    g[5][1] = 0;
    assert_eq!(first_zero_index(&g), 3 * 4 + 4);
    g[2][9] = 0;
    assert_eq!(first_zero_index(&g), 2 * 9 + 9);
    let r = random_grid();
    assert!(r.iter().all(|row| row.iter().all(|v| *v <= 100)));
}

#[test]
fn collatz_overflow_is_foreseen() {
    assert!(rust_labs::numbers::collatz_fits(27));
    assert!(rust_labs::numbers::collatz_fits(1));
    assert!(!rust_labs::numbers::collatz_fits(u64::MAX));
}
