use rust_labs::lists::{
    cycles_2, cycles_2_loop, run_length_encode, run_length_encode_loop, sum_squares_odd,
    sum_i32, sum_squares_odd_loop, vertices, vertices_loop, wrap_call,
};
use rust_labs::primes::{primes, primes_loop};

#[test]
fn nasty_test() {
    let f1 = |x| x * 100;
    let mut vec = Vec::new();
    let f2 = move |v1, v2| {
        vec.push(v1 + v2);
        let val = vec[0];
        std::mem::drop(vec);
        val
    };
    let val = wrap_call(f1, f2);
    assert_eq!(val, 300);
}

#[test]
fn sum_squares_odd_cases() {
    let empty: &[u32] = &[];
    assert_eq!(sum_squares_odd_loop(empty), 0);
    assert_eq!(sum_squares_odd(empty), 0);
    let evens = [2, 4, 6];
    assert_eq!(sum_squares_odd_loop(&evens), 0);
    assert_eq!(sum_squares_odd(&evens), 0);
    let nums = [1, 2, 3, 4, 5];
    assert_eq!(sum_squares_odd_loop(&nums), 35);
    assert_eq!(sum_squares_odd(&nums), 35);
}

#[test]
fn vertices_and_cycles() {
    let edges = [(1, 2), (2, 1), (3, 4), (4, 3), (5, 5), (2, 3)];
    let v_loop = vertices_loop(&edges);
    let v_iter = vertices(&edges);
    assert_eq!(v_loop, v_iter);
    assert_eq!(v_loop, vec![1, 2, 3, 4, 5]);
    let c_loop = cycles_2_loop(&edges);
    let c_iter = cycles_2(&edges);
    assert_eq!(c_loop, c_iter);
    assert_eq!(c_loop, vec![1, 2, 3, 4]);
}

#[test]
fn cycles_2_duplicates() {
    let edges = [(1, 2), (2, 1), (1, 2), (2, 1), (2, 2)];
    assert_eq!(cycles_2_loop(&edges), vec![1, 2]);
    assert_eq!(cycles_2(&edges), vec![1, 2]);
}

#[test]
fn empty_graph() {
    let edges: [(u32, u32); 0] = [];
    assert_eq!(vertices_loop(&edges), Vec::<u32>::new());
    assert_eq!(vertices(&edges), Vec::<u32>::new());
    assert_eq!(cycles_2_loop(&edges), Vec::<u32>::new());
    assert_eq!(cycles_2(&edges), Vec::<u32>::new());
}

#[test]
fn primes_examples() {
    assert_eq!(primes_loop(0), Vec::<u32>::new());
    assert_eq!(primes(0), Vec::<u32>::new());
    assert_eq!(primes_loop(2), Vec::<u32>::new());
    assert_eq!(primes(2), Vec::<u32>::new());
    assert_eq!(primes_loop(3), vec![2]);
    assert_eq!(primes(3), vec![2]);
    assert_eq!(primes_loop(10), vec![2, 3, 5, 7]);
    assert_eq!(primes(10), vec![2, 3, 5, 7]);
    assert_eq!(primes_loop(30), vec![2, 3, 5, 7, 11, 13, 17, 19, 23, 29]);
    assert_eq!(primes(30), vec![2, 3, 5, 7, 11, 13, 17, 19, 23, 29]);
}

#[test]
fn primes_large_count() {
    let p100 = primes(100);
    assert_eq!(p100.len(), 25);
    assert_eq!(p100.last(), Some(&97));
    assert_eq!(p100, primes_loop(100));
}

#[test]
fn wrap_call_fn_ptr() {
    fn times2(x: u32) -> u32 {
        x * 2
    }
    let val = wrap_call(times2, |a, b| a + b);
    assert_eq!(val, 6); // 2*1 + 2*2 = 2 + 4 = 6
}

#[test]
fn rle_basic_and_edges() {
    assert_eq!(run_length_encode_loop(&[]), Vec::<(u32, usize)>::new());
    assert_eq!(run_length_encode(&[]), Vec::<(u32, usize)>::new());
    assert_eq!(run_length_encode_loop(&[7]), vec![(7, 1)]);
    assert_eq!(run_length_encode(&[7]), vec![(7, 1)]);
    let data = [1, 1, 2, 2, 2, 1];
    let expect = vec![(1, 2), (2, 3), (1, 1)];
    assert_eq!(run_length_encode_loop(&data), expect);
    assert_eq!(run_length_encode(&data), expect);
}

#[test]
fn rle_varied_runs() {
    let data = [3, 3, 3, 3, 2, 2, 9, 9, 9, 1, 1, 1, 1, 1];
    let expect = vec![(3, 4), (2, 2), (9, 3), (1, 5)];
    assert_eq!(run_length_encode_loop(&data), expect);
    assert_eq!(run_length_encode(&data), expect);
}

#[test]
fn primes_sieve_and_trial_division_agree() {
    for n in [0u32, 1, 4, 5, 49, 50, 121, 1000] {
        assert_eq!(primes(n), primes_loop(n));
    }
    assert_eq!(primes(65538).last(), Some(&65537));
    assert_eq!(primes_loop(65538).len(), primes(65538).len());
}

#[test]
fn cycles_ignore_repeated_self_loops() {
    let edges = [(5, 5), (5, 5), (6, 7)];
    assert_eq!(cycles_2_loop(&edges), Vec::<u32>::new());
    assert_eq!(cycles_2(&edges), Vec::<u32>::new());
    assert_eq!(vertices(&edges), vec![5, 6, 7]);
}

#[test]
fn sum_squares_large_values() {
    let nums = [65535u32, 2];
    assert_eq!(sum_squares_odd_loop(&nums), 65535 * 65535);
    assert_eq!(sum_squares_odd(&nums), 65535 * 65535);
}

#[test]
fn rle_decodes_back() {
    let data = [4u32, 4, 0, 4, 4, 4];
    let runs = run_length_encode(&data);
    let mut back = Vec::new();
    for (v, n) in &runs {
        for _ in 0..*n {
            back.push(*v);
        }
    }
    assert_eq!(back, data.to_vec());
    assert_eq!(runs, vec![(4, 2), (0, 1), (4, 3)]);
}

#[test]
fn both_encoders_and_both_sieves_agree() {
    for list in [vec![], vec![1], vec![2, 2, 2, 3, 3, 2], vec![5, 4, 4, 4, 4, 1, 1, 9]] {
        assert_eq!(run_length_encode(&list), run_length_encode_loop(&list));
    }
    for n in [0u32, 1, 2, 3, 30, 1000] {
        assert_eq!(primes(n), primes_loop(n));
    }
}

#[test]
fn sum_i32_adds_parts_and_partial_sums() {
    let parts: [&[i32]; 3] = [&[1, 2, 3], &[10], &[-5, 0]];
    let partials: Vec<i32> = parts.iter().map(|p| sum_i32(p)).collect();
    assert_eq!(partials, vec![6, 10, -5]);
    assert_eq!(sum_i32(&partials), 11);
    assert_eq!(sum_i32(&[]), 0);
    assert_eq!(sum_i32(&[i32::MAX, -1, 1]), i32::MAX);
}
