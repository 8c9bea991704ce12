use vstd::prelude::*;
use std::collections::BTreeSet;
use rand::Rng;
use vstd::arithmetic::div_mod::{lemma_fundamental_div_mod, lemma_mod_multiples_basic};

verus! {

broadcast use vstd::std_specs::btree::group_btree_axioms, vstd::laws_cmp::group_laws_cmp;

/// The number of steps after which the Collatz check gives up.
pub const MAX_ITER: u32 = 100;

/// The length of the arrays of powers and of check results.
pub const ARR_LEN: usize = 10;

/// `x` to the power `e`.
pub open spec fn power(x: int, e: nat) -> int
    decreases e,
{
    if e == 0 {
        1
    } else {
        x * power(x, (e - 1) as nat)
    }
}

proof fn lemma_power_monotone(x: nat, e1: nat, e2: nat)
    requires
        x >= 1,
        e1 <= e2,
    ensures
        1 <= power(x as int, e1) <= power(x as int, e2),
    decreases e2,
{
    if e2 > e1 {
        lemma_power_monotone(x, e1, (e2 - 1) as nat);
        assert(power(x as int, (e2 - 1) as nat) <= x * power(x as int, (e2 - 1) as nat)) by (nonlinear_arith)
            requires
                x >= 1,
                power(x as int, (e2 - 1) as nat) >= 1,
        ;
    } else if e1 > 0 {
        lemma_power_monotone(x, (e1 - 1) as nat, (e1 - 1) as nat);
        assert(x * power(x as int, (e1 - 1) as nat) >= 1) by (nonlinear_arith)
            requires
                x >= 1,
                power(x as int, (e1 - 1) as nat) >= 1,
        ;
    }
}

/// The first ten powers of `x`: `x`, `x^2`, .., `x^10`.
pub fn make_powers(x: u64) -> (arr: [u64; ARR_LEN])
    requires
        power(x as int, 10) <= u64::MAX,
    ensures
        forall|i: int| 0 <= i < 10 ==> arr[i] == power(x as int, (i + 1) as nat),
{
    let mut arr: [u64; ARR_LEN] = [x; ARR_LEN];
    assert(power(x as int, 1) == x) by {
        reveal_with_fuel(power, 2);
    }
    assert(arr[0] == x);
    let mut i: usize = 1;
    while i < ARR_LEN
        invariant
            1 <= i <= 10,
            power(x as int, 10) <= u64::MAX,
            forall|k: int| 0 <= k < i ==> arr[k] == power(x as int, (k + 1) as nat),
        decreases 10 - i,
    {
        proof {
            if x >= 1 {
                lemma_power_monotone(x as nat, (i + 1) as nat, 10);
            }
            assert(power(x as int, (i + 1) as nat) == x * power(x as int, i as nat));
            assert(arr[i - 1] == power(x as int, ((i - 1) + 1) as nat));
            assert(arr[i - 1] * x == x * power(x as int, i as nat)) by (nonlinear_arith)
                requires
                    arr[i - 1] == power(x as int, i as nat),
            ;
            if x == 0 {
                assert(arr[i - 1] * x == 0);
            }
        }
        arr[i] = arr[i - 1] * x;
        i += 1;
    }
    arr
}

/// One Collatz step: halve an even number, map an odd `n` to `3n + 1`.
pub open spec fn collatz_step(n: int) -> int {
    if n % 2 == 0 {
        n / 2
    } else {
        3 * n + 1
    }
}

pub fn collatz(n: u64) -> (r: u64)
    requires
        n % 2 == 1 ==> 3 * n + 1 <= u64::MAX,
    ensures
        r == collatz_step(n as int),
{
    if n % 2 == 0 {
        n / 2
    } else {
        3 * n + 1
    }
}

/// Whether the Collatz sequence from `n` is at 1 within its first `k` values.
pub open spec fn reaches_one(n: int, k: nat) -> bool
    decreases k,
{
    if k == 0 {
        false
    } else if n == 1 {
        true
    } else {
        reaches_one(collatz_step(n), (k - 1) as nat)
    }
}

/// The first `k` steps of the Collatz sequence from `n` that are taken
/// (none after 1 is reached) stay within `u64`.
pub open spec fn steps_fit(n: int, k: nat) -> bool
    decreases k,
{
    if k == 0 || n == 1 {
        true
    } else {
        collatz_step(n) <= u64::MAX && steps_fit(collatz_step(n), (k - 1) as nat)
    }
}

/// Whether the Collatz steps that `check_collatz` takes from `n` stay
/// within `u64`.
pub fn collatz_fits(n: u64) -> (r: bool)
    ensures
        r == steps_fit(n as int, MAX_ITER as nat),
{
    let mut m = n;
    let mut k: u32 = MAX_ITER;
    while k > 0
        invariant
            k <= MAX_ITER,
            steps_fit(m as int, k as nat) == steps_fit(n as int, MAX_ITER as nat),
        decreases k,
    {
        if m == 1 {
            return true;
        }
        if m % 2 == 1 && m > (u64::MAX - 1) / 3 {
            return false;
        }
        m = collatz(m);
        k -= 1;
    }
    true
}

/// Whether the Collatz sequence from `n` reaches 1 within `MAX_ITER` values.
pub fn check_collatz(n: u64) -> (r: bool)
    requires
        steps_fit(n as int, MAX_ITER as nat),
    ensures
        r == reaches_one(n as int, MAX_ITER as nat),
{
    let mut m = n;
    let mut k: u32 = 1;
    while k <= MAX_ITER
        invariant
            1 <= k <= MAX_ITER + 1,
            steps_fit(m as int, (MAX_ITER + 1 - k) as nat),
            reaches_one(m as int, (MAX_ITER + 1 - k) as nat) == reaches_one(n as int, MAX_ITER as nat),
        decreases MAX_ITER + 1 - k,
    {
        if m == 1 {
            assert(reaches_one(m as int, (MAX_ITER + 1 - k) as nat));
            return true;
        }
        m = collatz(m);
        k += 1;
    }
    false
}

/// The Collatz check of each element.
pub fn check_collatz_array(arr: [u64; ARR_LEN]) -> (res: [bool; ARR_LEN])
    requires
        forall|i: int| 0 <= i < 10 ==> steps_fit(#[trigger] arr[i] as int, MAX_ITER as nat),
    ensures
        forall|i: int| 0 <= i < 10 ==> res[i] == reaches_one(#[trigger] arr[i] as int, MAX_ITER as nat),
{
    let mut res: [bool; ARR_LEN] = [false; ARR_LEN];
    let mut i: usize = 0;
    while i < ARR_LEN
        invariant
            i <= 10,
            forall|k: int| 0 <= k < 10 ==> steps_fit(#[trigger] arr[k] as int, MAX_ITER as nat),
            forall|k: int| 0 <= k < i ==> res[k] == reaches_one(#[trigger] arr[k] as int, MAX_ITER as nat),
        decreases 10 - i,
    {
        res[i] = check_collatz(arr[i]);
        i += 1;
    }
    res
}

/// The divisors of `n`.
pub open spec fn divisor_set(n: int) -> Set<u32> {
    Set::new(|d: u32| 1 <= d <= n && n % (d as int) == 0)
}

/// All divisors of `n`, found in pairs `d` and `n / d` for `d` up to the
/// square root of `n`. The squares are computed in `u32`.
pub fn divisors(n: u32) -> (set: BTreeSet<u32>)
    requires
        1 <= n <= 65535 * 65535,
    ensures
        set@ == divisor_set(n as int),
{
    let mut set = BTreeSet::<u32>::new();
    let mut i: u32 = 1;
    assert forall|x: u32| #[trigger] set@.contains(x) <==> (1 <= x <= n && (n as int) % (x as int) == 0 && (x < 1 || (n as int) / (x as int) < 1)) by {
        if 1 <= x <= n {
            lemma_fundamental_div_mod(n as int, x as int);
            let q = (n as int) / (x as int);
            let r = (n as int) % (x as int);
            assert(q >= 1) by (nonlinear_arith)
                requires
                    n == x * q + r,
                    0 <= r < x,
                    1 <= x <= n,
            ;
        }
    }
    loop
        invariant_except_break
            i == 1 || i * i < n,
            forall|x: u32| #[trigger] set@.contains(x) <==> (1 <= x <= n && (n as int) % (x as int) == 0 && (x < i || (n as int) / (x as int) < i)),
        invariant
            1 <= i,
            1 <= n <= 65535 * 65535,
        ensures
            set@ == divisor_set(n as int),
        decreases 65535 - i,
    {
        if n % i == 0 {
            proof {
                lemma_fundamental_div_mod(n as int, i as int);
            }
            let q = n / i;
            set.insert(i);
            set.insert(q);
            proof {
                assert(n == i * q) by (nonlinear_arith)
                    requires
                        n == i * (n / i) + 0,
                        q == n / i,
                ;
                assert(1 <= q <= n) by (nonlinear_arith)
                    requires
                        n == i * q,
                        i >= 1,
                        n >= 1,
                ;
                assert(n % q == 0) by {
                    assert(n == q * i) by (nonlinear_arith)
                        requires
                            n == i * q,
                    ;
                    lemma_mod_multiples_basic(i as int, q as int);
                }
                assert(n / q == i) by {
                    vstd::arithmetic::div_mod::lemma_fundamental_div_mod_converse(n as int, q as int, i as int, 0);
                }
                assert forall|x: u32| #[trigger] set@.contains(x) <==> (1 <= x <= n && (n as int) % (x as int) == 0 && (x < i + 1 || (n as int) / (x as int) < i + 1)) by {
                    if 1 <= x <= n && (n as int) % (x as int) == 0 && (n as int) / (x as int) == i {
                        lemma_fundamental_div_mod(n as int, x as int);
                        assert(x == q) by (nonlinear_arith)
                            requires
                                n == x * i + 0,
                                n == i * q,
                                i >= 1,
                        ;
                    }
                }
            }
        } else {
            proof {
                assert forall|x: u32| #[trigger] set@.contains(x) <==> (1 <= x <= n && (n as int) % (x as int) == 0 && (x < i + 1 || (n as int) / (x as int) < i + 1)) by {
                    if 1 <= x <= n && (n as int) % (x as int) == 0 && (n as int) / (x as int) == i {
                        lemma_fundamental_div_mod(n as int, x as int);
                        assert(n == i * x) by (nonlinear_arith)
                            requires
                                n == x * ((n as int) / (x as int)) + 0,
                                (n as int) / (x as int) == i,
                        ;
                        assert(n % i == 0) by {
                            lemma_mod_multiples_basic(x as int, i as int);
                        }
                    }
                }
            }
        }
        assert(i <= 65534) by (nonlinear_arith)
            requires
                i == 1 || i * i < n,
                n <= 65535 * 65535,
                i >= 1,
        ;
        i += 1;
        assert(i * i <= 65535 * 65535) by (nonlinear_arith)
            requires
                i <= 65535,
        ;
        if i * i == n {
            let ghost before = set@;
            set.insert(i);
            proof {
                assert forall|x: u32| set@.contains(x) <==> divisor_set(n as int).contains(x) by {
                    assert(set@.contains(x) <==> before.contains(x) || x == i);
                    if divisor_set(n as int).contains(x) && !(x < i || (n as int) / (x as int) < i) && x != i {
                        lemma_fundamental_div_mod(n as int, x as int);
                        let q = (n as int) / (x as int);
                        assert(false) by (nonlinear_arith)
                            requires
                                n == x * q + 0,
                                x >= i,
                                q >= i,
                                x != i,
                                i * i == n,
                                i >= 1,
                        ;
                    }
                    if x == i {
                        lemma_mod_multiples_basic(i as int, i as int);
                        assert(i <= n) by (nonlinear_arith)
                            requires
                                i * i == n,
                                i >= 1,
                        ;
                    }
                }
                assert(set@ =~= divisor_set(n as int));
            }
            break;
        } else if i * i > n {
            proof {
                assert forall|x: u32| set@.contains(x) <==> divisor_set(n as int).contains(x) by {
                    if divisor_set(n as int).contains(x) && !(x < i || (n as int) / (x as int) < i) {
                        lemma_fundamental_div_mod(n as int, x as int);
                        let q = (n as int) / (x as int);
                        assert(false) by (nonlinear_arith)
                            requires
                                n == x * q + 0,
                                x >= i,
                                q >= i,
                                i * i > n,
                                i >= 1,
                        ;
                    }
                }
                assert(set@ =~= divisor_set(n as int));
            }
            break;
        }
    }
    set
}

pub open spec fn is_sorted(v: Seq<u32>) -> bool {
    forall|i: int| 0 <= i < v.len() - 1 ==> #[trigger] v[i] <= v[i + 1]
}

/// Checks that a list is sorted. An unsorted list stops the program, so it
/// is not an input of this function.
pub fn assert_sorted(vec: &[u32])
    requires
        is_sorted(vec@),
{
    let mut k: usize = 0;
    while vec.len() > 0 && k < vec.len() - 1
        invariant
            k <= vec.len(),
            is_sorted(vec@),
        decreases vec.len() - k,
    {
        assert(vec@[k as int] <= vec@[k + 1]);
        k += 1;
    }
}


} // verus!

verus! {

/// A pair of strings.
pub struct DoubleString(pub String, pub String);

impl DoubleString {
    /// A pair holding copies of two string slices.
    pub fn from_strs(str_1: &str, str_2: &str) -> (r: Self)
        ensures
            r.0@ == str_1@,
            r.1@ == str_2@,
    {
        DoubleString(str_1.to_owned(), str_2.to_owned())
    }

    /// A pair holding clones of two strings.
    pub fn from_strings(str_1: &String, str_2: &String) -> (r: Self)
        ensures
            r.0 == *str_1,
            r.1 == *str_2,
    {
        DoubleString(str_1.clone(), str_2.clone())
    }
}


/// Why a server cannot listen on a port.
#[derive(Clone, Copy, Debug, PartialEq, Eq, Structural)]
pub enum PortError {
    /// Ports up to 1024 belong to the system.
    System(u32),
    /// Ports go up to 65535.
    OutOfRange,
}

/// The port a server may listen on: from 1025 to 65535.
pub fn server_port(port: u32) -> (r: Result<u16, PortError>)
    ensures
        port <= 1024 ==> r == Err::<u16, PortError>(PortError::System(port)),
        port > 65535 ==> r == Err::<u16, PortError>(PortError::OutOfRange),
        1025 <= port <= 65535 ==> r == Ok::<u16, PortError>(port as u16),
{
    if port <= 1024 {
        return Err(PortError::System(port));
    } else if port > 65535 {
        return Err(PortError::OutOfRange);
    }
    Ok(port as u16)
}

/// A number of `0..=100`, drawn by `Rng::random_range` on the thread's
/// generator, which rand documents as a value of the range.
#[verifier::external_body]
fn random_percent() -> (r: u32)
    ensures
        r <= 100,
{
    rand::rng().random_range(0..=100u32)
}

/// A square grid of numbers drawn from `0..=100`.
pub fn random_grid() -> (g: [[u32; ARR_LEN]; ARR_LEN])
    ensures
        forall|i: int, j: int| 0 <= i < 10 && 0 <= j < 10 ==> g[i][j] <= 100,
{
    let mut g: [[u32; ARR_LEN]; ARR_LEN] = [[0; ARR_LEN]; ARR_LEN];
    let mut i: usize = 0;
    while i < ARR_LEN
        invariant
            i <= 10,
            forall|a: int, b: int| 0 <= a < 10 && 0 <= b < 10 ==> g[a][b] <= 100,
        decreases 10 - i,
    {
        let mut row: [u32; ARR_LEN] = [0; ARR_LEN];
        let mut j: usize = 0;
        while j < ARR_LEN
            invariant
                j <= 10,
                forall|b: int| 0 <= b < 10 ==> row[b] <= 100,
            decreases 10 - j,
        {
            row[j] = random_percent();
            j += 1;
        }
        g[i] = row;
        i += 1;
    }
    g
}

/// The first zero of the grid, row by row, from the cell numbered `k`
/// (cell `k` is at row `k / 10`, column `k % 10`).
pub open spec fn first_zero_from(g: [[u32; ARR_LEN]; ARR_LEN], k: int) -> Option<(int, int)>
    decreases 100 - k,
{
    if k < 0 || k >= 100 {
        None
    } else if g[k / 10][k % 10] == 0 {
        Some((k / 10, k % 10))
    } else {
        first_zero_from(g, k + 1)
    }
}

/// Where the scan of the grid, row by row, first meets a zero, written as
/// `row * column + column` of that cell; 0 when there is none.
pub fn first_zero_index(g: &[[u32; ARR_LEN]; ARR_LEN]) -> (ind: usize)
    ensures
        match first_zero_from(*g, 0) {
            Some((i, j)) => ind == i * j + j,
            None => ind == 0,
        },
{
    let mut k: usize = 0;
    while k < 100
        invariant
            k <= 100,
            first_zero_from(*g, 0) == first_zero_from(*g, k as int),
        decreases 100 - k,
    {
        let i = k / 10;
        let j = k % 10;
        if g[i][j] == 0 {
            assert(i * j + j <= 99) by (nonlinear_arith)
                requires
                    i < 10,
                    j < 10,
            ;
            return i * j + j;
        }
        k += 1;
    }
    0
}

} // verus!
