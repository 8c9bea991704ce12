use vstd::prelude::*;
use vstd::arithmetic::div_mod::{
    lemma_fundamental_div_mod, lemma_mod_add_multiples_vanish, lemma_mod_multiples_basic,
    lemma_mod_self_0,
};
use crate::lists::{law_increasing_sequence_determined_by_elements, strictly_increasing};

verus! {


/// `x` is prime: at least 2, and no number from 2 up to `x - 1` divides it.
pub open spec fn is_prime(x: int) -> bool {
    x >= 2 && forall|d: int| 2 <= d < x ==> #[trigger] (x % d) != 0
}

/// The list of all primes below `n`, in ascending order.
pub open spec fn primes_below(r: Seq<u32>, n: int) -> bool {
    &&& strictly_increasing(r)
    &&& forall|x: u32|
        #![trigger r.contains(x)]
        #![trigger is_prime(x as int)]
        r.contains(x) <==> (x < n && is_prime(x as int))
}

/// No number `d` from 2 up to `lim - 1` with `d * d <= k` divides `k`.
pub open spec fn no_small_factor(k: int, lim: int) -> bool {
    forall|d: int| 2 <= d < lim && d * d <= k ==> #[trigger] (k % d) != 0
}

proof fn lemma_divides_trans(a: int, b: int, c: int)
    requires
        a >= 1,
        b >= 1,
        c >= 0,
        b % a == 0,
        c % b == 0,
    ensures
        c % a == 0,
{
    lemma_fundamental_div_mod(b, a);
    lemma_fundamental_div_mod(c, b);
    let q = (b / a) * (c / b);
    assert(c == q * a) by (nonlinear_arith)
        requires
            b == a * (b / a) + 0,
            c == b * (c / b) + 0,
            q == (b / a) * (c / b),
    ;
    lemma_mod_multiples_basic(q, a);
}

proof fn lemma_search_divisor(v: int, k: int) -> (d: int)
    requires
        2 <= k <= v,
        forall|e: int| 2 <= e < k ==> #[trigger] (v % e) != 0,
    ensures
        k <= d <= v,
        v % d == 0,
        forall|e: int| 2 <= e < d ==> #[trigger] (v % e) != 0,
    decreases v - k,
{
    if v % k == 0 {
        k
    } else {
        if k == v {
            lemma_mod_self_0(v);
        }
        lemma_search_divisor(v, k + 1)
    }
}

/// The least divisor of `v` from 2 up is prime, and unless it is `v` itself
/// its square is at most `v`.
proof fn lemma_least_divisor(v: int) -> (d: int)
    requires
        v >= 2,
    ensures
        2 <= d <= v,
        v % d == 0,
        is_prime(d),
        d == v || d * d <= v,
        d == v <==> is_prime(v),
{
    let d = lemma_search_divisor(v, 2);
    assert forall|e: int| 2 <= e < d implies #[trigger] (d % e) != 0 by {
        if d % e == 0 {
            lemma_divides_trans(e, d, v);
        }
    }
    if d < v {
        lemma_fundamental_div_mod(v, d);
        let q = v / d;
        assert(v == q * d) by (nonlinear_arith)
            requires
                v == d * (v / d) + 0,
                q == v / d,
        ;
        assert(q >= 2) by (nonlinear_arith)
            requires
                v == q * d,
                d < v,
                d >= 2,
        ;
        assert(v % q == 0) by {
            assert(v == d * q) by (nonlinear_arith)
                requires
                    v == q * d,
            ;
            lemma_mod_multiples_basic(d, q);
        }
        assert(q >= d) by {
            if q < d {
                assert(v % q != 0);
            }
        }
        assert(d * d <= v) by (nonlinear_arith)
            requires
                v == q * d,
                q >= d,
                d >= 2,
        ;
    }
    d
}

/// A number from 2 up is prime exactly when no `d` with `d * d <= v` divides it.
proof fn lemma_prime_iff_no_small_factor(v: int, lim: int)
    requires
        v >= 2,
        v < lim * lim,
        lim >= 2,
    ensures
        is_prime(v) <==> no_small_factor(v, lim),
{
    if is_prime(v) {
        assert forall|d: int| 2 <= d < lim && d * d <= v implies #[trigger] (v % d) != 0 by {
            assert(d < v) by (nonlinear_arith)
                requires
                    2 <= d,
                    d * d <= v,
            ;
        }
    } else {
        let d = lemma_least_divisor(v);
        assert(d < lim) by (nonlinear_arith)
            requires
                d * d <= v,
                v < lim * lim,
                d >= 2,
                lim >= 2,
        ;
        assert(!no_small_factor(v, lim));
    }
}

/// Two multiples of `i` less than `i` apart are equal.
proof fn lemma_close_multiples(k: int, j: int, i: int)
    requires
        i > 0,
        k % i == 0,
        j % i == 0,
        j <= k < j + i,
    ensures
        k == j,
{
    lemma_fundamental_div_mod(k, i);
    lemma_fundamental_div_mod(j, i);
    let qk = k / i;
    let qj = j / i;
    assert(qk == qj) by (nonlinear_arith)
        requires
            k == i * qk + 0,
            j == i * qj + 0,
            j <= k < j + i,
            i > 0,
    ;
}

/// All primes below `n` in ascending order, by trial division of each
/// candidate with the primes found so far whose square does not exceed it.
/// Squares are computed in `u32`, so candidates stop below 65538.
pub fn primes(n: u32) -> (r: Vec<u32>)
    requires
        n <= 65538,
    ensures
        primes_below(r@, n as int),
{
    let mut ps: Vec<u32> = Vec::new();
    let mut v: u32 = 2;
    while v < n
        invariant
            2 <= v,
            v <= n || n < 2,
            n < 2 ==> v == 2,
            n <= 65538,
            primes_below(ps@, v as int),
            forall|t: int| 0 <= t < ps.len() ==> 2 <= #[trigger] ps@[t] < v,
        decreases n - v,
    {
        let mut all_ok = true;
        let mut k: usize = 0;
        while k < ps.len()
            invariant
                k <= ps.len(),
                v < n,
                n <= 65538,
                primes_below(ps@, v as int),
                forall|t: int| 0 <= t < ps.len() ==> 2 <= #[trigger] ps@[t] < v,
                all_ok == (forall|t: int|
                    0 <= t < k ==> !(#[trigger] ps@[t] * ps@[t] <= v && v % ps@[t] == 0)),
            decreases ps.len() - k,
        {
            let p = ps[k];
            proof {
                assert(ps@.contains(p));
                assert(is_prime(p as int));
                if p == 65536 {
                    assert((p as int) % 2 == 0);
                }
                assert(p <= 65535);
                assert(p * p <= 65535 * 65535) by (nonlinear_arith)
                    requires
                        p <= 65535,
                ;
            }
            if p * p <= v && v % p == 0 {
                all_ok = false;
            }
            k += 1;
        }
        proof {
            if all_ok {
                if !is_prime(v as int) {
                    let d = lemma_least_divisor(v as int);
                    assert(ps@.contains(d as u32));
                    let t = choose|t: int| 0 <= t < ps.len() && ps@[t] == d as u32;
                    assert(!(ps@[t] * ps@[t] <= v && v % ps@[t] == 0));
                }
            } else {
                let t = choose|t: int| 0 <= t < ps.len() && #[trigger] ps@[t] * ps@[t] <= v && v % ps@[t] == 0;
                assert(2 <= ps@[t] < v);
                assert(!is_prime(v as int));
            }
        }
        if all_ok {
            let ghost before = ps@;
            ps.push(v);
            proof {
                assert forall|x: u32| ps@.contains(x) <==> (x < v + 1 && is_prime(x as int)) by {
                    if x == v {
                        assert(ps@[ps.len() - 1] == v);
                    } else if ps@.contains(x) {
                        let t = choose|t: int| 0 <= t < ps.len() && ps@[t] == x;
                        assert(t < before.len());
                        assert(before.contains(x));
                    } else if x < v && is_prime(x as int) {
                        let t = choose|t: int| 0 <= t < before.len() && before[t] == x;
                        assert(ps@[t] == x);
                    }
                }
            }
        } else {
            proof {
                assert forall|x: u32| ps@.contains(x) <==> (x < v + 1 && is_prime(x as int)) by {
                    if ps@.contains(x) {
                        let t = choose|t: int| 0 <= t < ps.len() && ps@[t] == x;
                        assert(ps@[t] < v);
                    }
                }
            }
        }
        v += 1;
    }
    proof {
        if n < 2 {
            assert forall|x: u32| ps@.contains(x) <==> (x < n && is_prime(x as int)) by {
                if ps@.contains(x) {
                    let t = choose|t: int| 0 <= t < ps.len() && ps@[t] == x;
                    assert(ps@[t] < 2);
                }
            }
        }
    }
    ps
}

/// All primes below `n` in ascending order, by the sieve of Eratosthenes:
/// each prime `i` with `i * i <= n` strikes out its multiples from `i * i` on;
/// after 2 only odd `i` are tried.
pub fn primes_loop(n: u32) -> (r: Vec<u32>)
    requires
        n as int + 65535 <= usize::MAX,
    ensures
        primes_below(r@, n as int),
{
    let n: usize = n as usize;
    if n <= 2 {
        let r = Vec::new();
        assert forall|x: u32| r@.contains(x) <==> (x < n && is_prime(x as int)) by {}
        return r;
    }
    let mut sieve: Vec<bool> = vec![true; n + 1];
    sieve.set(0, false);
    sieve.set(1, false);
    let mut i: usize = 2;
    assert(2 * 2 <= u32::MAX);
    while (i as u64) * (i as u64) <= n as u64
        invariant
            i * i <= u64::MAX,
            2 < n,
            n <= u32::MAX,
            n + 65535 <= usize::MAX,
            sieve@.len() == n + 1,
            2 <= i,
            i == 2 || i % 2 == 1,
            i <= n,
            !sieve@[0],
            !sieve@[1],
            forall|k: int| 2 <= k < n ==> #[trigger] sieve@[k] == no_small_factor(k, i as int),
        decreases n + 1 - i,
    {
        assert(i * i <= n);
        assert(i + 2 <= n && i <= 65535) by (nonlinear_arith)
            requires
                i * i <= n,
                2 <= i,
                n <= u32::MAX,
        ;
        if sieve[i] {
            let mut j: usize = i * i;
            proof {
                lemma_mod_multiples_basic(i as int, i as int);
            }
            loop
                invariant_except_break
                    j <= n,
                invariant
                    2 < n,
                    sieve@.len() == n + 1,
                    2 <= i,
                    i <= 65535,
                    n + 65535 <= usize::MAX,
                    i * i <= n,
                    i * i <= j,
                    j % i == 0,
                    j <= n + i,
                    !sieve@[0],
                    !sieve@[1],
                    forall|k: int|
                        2 <= k < n ==> #[trigger] sieve@[k] == (no_small_factor(k, i as int) && !(
                        k % (i as int) == 0 && i * i <= k && k < j)),
                ensures
                    j >= n,
                    sieve@.len() == n + 1,
                    !sieve@[0],
                    !sieve@[1],
                    forall|k: int|
                        2 <= k < n ==> #[trigger] sieve@[k] == (no_small_factor(k, i as int) && !(
                        k % (i as int) == 0 && i * i <= k && k < j)),
                decreases n - j,
            {
                sieve.set(j, false);
                proof {
                    assert forall|k: int|
                        2 <= k < n implies #[trigger] sieve@[k] == (no_small_factor(k, i as int) && !(
                        k % (i as int) == 0 && i * i <= k && k < j + i)) by {
                        if k % (i as int) == 0 && i * i <= k && j <= k && k < j + i {
                            lemma_close_multiples(k, j as int, i as int);
                        }
                    }
                    lemma_mod_add_multiples_vanish(j as int, i as int);
                }
                j += i;
                if j >= n {
                    break;
                }
            }
            assert forall|k: int| 2 <= k < n implies #[trigger] sieve@[k] == no_small_factor(k, i + 1) by {
                if no_small_factor(k, i as int) && !(k % (i as int) == 0 && i * i <= k) {
                    assert forall|d: int| 2 <= d < i + 1 && d * d <= k implies #[trigger] (k % d) != 0 by {
                        if d < i {
                        }
                    }
                }
            }
        } else {
            proof {
                assert(!no_small_factor(i as int, i as int));
                let d = choose|d: int| 2 <= d < i && d * d <= i && #[trigger] ((i as int) % d) == 0;
                assert forall|k: int| 2 <= k < n implies #[trigger] sieve@[k] == no_small_factor(k, i + 1) by {
                    if no_small_factor(k, i as int) && k % (i as int) == 0 && i * i <= k {
                        lemma_divides_trans(d, i as int, k);
                        assert(d * d <= k) by (nonlinear_arith)
                            requires
                                d * d <= i,
                                i * i <= k,
                                i >= 2,
                        ;
                    }
                }
            }
        }
        if i == 2 {
            i += 1;
        } else {
            proof {
                assert forall|k: int| 2 <= k < n implies #[trigger] sieve@[k] == no_small_factor(k, i + 2) by {
                    if no_small_factor(k, i + 1) && k % (i + 1) == 0 && (i + 1) * (i + 1) <= k {
                        assert((i + 1) % 2 == 0);
                        lemma_divides_trans(2, i + 1, k);
                        assert(2 * 2 <= k) by (nonlinear_arith)
                            requires
                                (i + 1) * (i + 1) <= k,
                                i >= 3,
                        ;
                    }
                }
            }
            i += 2;
        }
        assert(i * i <= u64::MAX) by (nonlinear_arith)
            requires
                i <= 65537,
        ;
    }
    proof {
        assert forall|k: int| 2 <= k < n implies #[trigger] sieve@[k] == is_prime(k) by {
            lemma_prime_iff_no_small_factor(k, i as int);
        }
    }
    let mut res: Vec<u32> = Vec::new();
    let mut idx: usize = 2;
    while idx < n
        invariant
            2 <= idx <= n,
            n <= u32::MAX,
            sieve@.len() == n + 1,
            forall|k: int| 2 <= k < n ==> #[trigger] sieve@[k] == is_prime(k),
            strictly_increasing(res@),
            forall|t: int| 0 <= t < res.len() ==> #[trigger] res@[t] < idx,
            forall|x: u32| res@.contains(x) <==> (x < idx && is_prime(x as int)),
        decreases n - idx,
    {
        if sieve[idx] {
            let ghost before = res@;
            res.push(idx as u32);
            proof {
                assert forall|x: u32| res@.contains(x) <==> (x < idx + 1 && is_prime(x as int)) by {
                    if x == idx {
                        assert(res@[res.len() - 1] == x);
                    } else if res@.contains(x) {
                        let t = choose|t: int| 0 <= t < res.len() && res@[t] == x;
                        assert(before.contains(x));
                    } else if x < idx && is_prime(x as int) {
                        let t = choose|t: int| 0 <= t < before.len() && before[t] == x;
                        assert(res@[t] == x);
                    }
                }
            }
        } else {
            assert forall|x: u32| res@.contains(x) <==> (x < idx + 1 && is_prime(x as int)) by {
                if x == idx {
                    if res@.contains(x) {
                        let t = choose|t: int| 0 <= t < res.len() && res@[t] == x;
                    }
                }
            }
        }
        idx += 1;
    }
    res
}

/// The list of the primes below `n` is one list: the sieve and the loop
/// give the same.
pub proof fn law_primes_below_is_unique(a: Seq<u32>, b: Seq<u32>, n: int)
    requires
        primes_below(a, n),
        primes_below(b, n),
    ensures
        a == b,
{
    assert(a.to_set() =~= b.to_set()) by {
        assert forall|x: u32| a.to_set().contains(x) <==> b.to_set().contains(x) by {
            assert(a.contains(x) <==> (x < n && is_prime(x as int)));
            assert(b.contains(x) <==> (x < n && is_prime(x as int)));
        }
    }
    law_increasing_sequence_determined_by_elements(a, b);
}

} // verus!
