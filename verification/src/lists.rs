use vstd::prelude::*;
use vstd::multiset::Multiset;
use std::collections::HashSet;
use itertools::Itertools;

verus! {

broadcast use vstd::std_specs::hash::group_hash_axioms, vstd::seq_lib::group_to_multiset_ensures;

// ---------------------------------------------------------------------------
// Specifications
// ---------------------------------------------------------------------------

pub open spec fn sorted(s: Seq<u32>) -> bool {
    forall|i: int, j: int| 0 <= i <= j < s.len() ==> s[i] <= s[j]
}

pub open spec fn strictly_increasing(s: Seq<u32>) -> bool {
    forall|i: int, j: int| 0 <= i < j < s.len() ==> s[i] < s[j]
}

/// The sum of the squares of the odd numbers of a sequence.
pub open spec fn odd_square_sum(s: Seq<u32>) -> int
    decreases s.len(),
{
    if s.len() == 0 {
        0
    } else {
        odd_square_sum(s.drop_last()) + if s.last() % 2 == 1 {
            s.last() * s.last()
        } else {
            0int
        }
    }
}

/// Every vertex that is an endpoint of some edge.
pub open spec fn endpoints(edges: Seq<(u32, u32)>) -> Set<u32> {
    Set::new(|x: u32| exists|i: int| 0 <= i < edges.len() && (edges[i].0 == x || edges[i].1 == x))
}

/// Edges `a` and `b` form a cycle of length two: `a = u->v`, `b = v->u`, `u != v`.
pub open spec fn two_cycle(a: (u32, u32), b: (u32, u32)) -> bool {
    a.0 == b.1 && a.1 == b.0 && a.0 != a.1
}

/// Every vertex on a cycle of length two.
pub open spec fn cycle_vertices(edges: Seq<(u32, u32)>) -> Set<u32> {
    Set::new(
        |x: u32|
            exists|i: int, j: int|
                0 <= i < edges.len() && 0 <= j < edges.len() && two_cycle(edges[i], edges[j])
                    && (edges[i].0 == x || edges[i].1 == x),
    )
}


/// A run of `len` copies of `val`.
pub open spec fn run(val: u32, len: nat) -> Seq<u32> {
    Seq::new(len, |_i: int| val)
}

/// The list that a run-length encoding stands for.
pub open spec fn expand(runs: Seq<(u32, usize)>) -> Seq<u32>
    decreases runs.len(),
{
    if runs.len() == 0 {
        seq![]
    } else {
        expand(runs.drop_last()) + run(runs.last().0, runs.last().1 as nat)
    }
}

/// A run-length encoding in canonical form: no empty runs, and no two
/// neighbouring runs of the same value.
pub open spec fn canonical(runs: Seq<(u32, usize)>) -> bool {
    &&& forall|i: int| 0 <= i < runs.len() ==> #[trigger] runs[i].1 >= 1
    &&& forall|i: int| 0 <= i < runs.len() - 1 ==> #[trigger] runs[i].0 != runs[i + 1].0
}

/// All pairs of an element of `a` with an element of `b`, `a` varying slowest.
pub open spec fn product<A, B>(a: Seq<A>, b: Seq<B>) -> Seq<(A, B)>
    decreases a.len(),
{
    if a.len() == 0 {
        seq![]
    } else {
        product(a.drop_last(), b) + b.map_values(|y: B| (a.last(), y))
    }
}

// ---------------------------------------------------------------------------
// Calls into std and itertools
// ---------------------------------------------------------------------------

/// Sorts a vector with `slice::sort`, which std documents as sorting in
/// ascending order and keeping the elements.
#[verifier::external_body]
fn sort_in_place(v: &mut Vec<u32>)
    ensures
        sorted(final(v)@),
        final(v)@.to_multiset() == old(v)@.to_multiset(),
{
    v.sort();
}

/// `Itertools::unique`: keeps the first occurrence of each element, in order.
#[verifier::external_body]
fn unique_of(v: Vec<u32>) -> (r: Vec<u32>)
    ensures
        r@ == v@.remove_duplicates(seq![]),
{
    v.into_iter().unique().collect()
}

/// `Itertools::sorted`: the elements in ascending order.
#[verifier::external_body]
fn sorted_of(v: Vec<u32>) -> (r: Vec<u32>)
    ensures
        sorted(r@),
        r@.to_multiset() == v@.to_multiset(),
{
    v.into_iter().sorted().collect()
}

/// `Itertools::cartesian_product` of a slice with itself: every pair, the
/// first component varying slowest.
#[verifier::external_body]
fn pairs_of(a: &[(u32, u32)]) -> (r: Vec<((u32, u32), (u32, u32))>)
    ensures
        r@ == product(a@, a@),
{
    a.iter().cloned().cartesian_product(a.iter().cloned()).collect()
}

// ---------------------------------------------------------------------------
// Lemmas
// ---------------------------------------------------------------------------

proof fn lemma_odd_square_sum_prefix(s: Seq<u32>, i: int)
    requires
        0 <= i <= s.len(),
    ensures
        0 <= odd_square_sum(s.take(i)) <= odd_square_sum(s),
    decreases s.len(),
{
    if s.len() > 0 {
        if i == s.len() {
            assert(s.take(i) =~= s);
            lemma_odd_square_sum_prefix(s.drop_last(), i - 1);
        } else {
            assert(s.drop_last().take(i) =~= s.take(i));
            lemma_odd_square_sum_prefix(s.drop_last(), i);
        }
        assert(s.last() * s.last() >= 0) by (nonlinear_arith);
    }
}

proof fn lemma_remove_duplicates_no_duplicates(s: Seq<u32>, seen: Seq<u32>)
    requires
        seen.no_duplicates(),
    ensures
        s.remove_duplicates(seen).no_duplicates(),
    decreases s.len(),
{
    if s.len() > 0 {
        if seen.contains(s[0]) {
            lemma_remove_duplicates_no_duplicates(s.skip(1), seen);
        } else {
            lemma_remove_duplicates_no_duplicates(s.skip(1), seen + seq![s[0]]);
        }
    }
}

/// A sorted rearrangement of a sequence without duplicates is strictly
/// increasing and holds the same elements.
proof fn lemma_sorted_rearrangement(old_s: Seq<u32>, new_s: Seq<u32>)
    requires
        old_s.no_duplicates(),
        sorted(new_s),
        new_s.to_multiset() == old_s.to_multiset(),
    ensures
        strictly_increasing(new_s),
        new_s.to_set() == old_s.to_set(),
{
    old_s.lemma_multiset_has_no_duplicates();
    new_s.lemma_multiset_has_no_duplicates_conv();
    assert forall|x: u32| new_s.to_set().contains(x) == old_s.to_set().contains(x) by {
        assert(new_s.to_multiset().contains(x) == new_s.contains(x));
        assert(old_s.to_multiset().contains(x) == old_s.contains(x));
    }
    assert(new_s.to_set() =~= old_s.to_set());
}

/// The last value of a non-empty expansion is the value of the last run.
proof fn lemma_expand_last(runs: Seq<(u32, usize)>)
    requires
        canonical(runs),
        runs.len() > 0,
    ensures
        expand(runs).len() > 0,
        expand(runs).last() == runs.last().0,
        expand(runs).len() == expand(runs.drop_last()).len() + runs.last().1,
{
    assert(runs[runs.len() - 1].1 >= 1);
}

/// A run-length encoding in canonical form is determined by the list it
/// stands for: the plain and the iterator encoders give the same runs.
pub proof fn law_canonical_encoding_is_unique(a: Seq<(u32, usize)>, b: Seq<(u32, usize)>)
    requires
        canonical(a),
        canonical(b),
        expand(a) == expand(b),
    ensures
        a == b,
    decreases a.len() + b.len(),
{
    if a.len() == 0 || b.len() == 0 {
        if a.len() > 0 {
            lemma_expand_last(a);
        }
        if b.len() > 0 {
            lemma_expand_last(b);
        }
        assert(a =~= b);
    } else {
        lemma_expand_last(a);
        lemma_expand_last(b);
        let (pa, pb) = (a.drop_last(), b.drop_last());
        let (v, n, m) = (a.last().0, a.last().1 as int, b.last().1 as int);
        let s = expand(a);
        assert(b.last().0 == v);
        assert(canonical(pa)) by {
            assert forall|i: int| 0 <= i < pa.len() - 1 implies #[trigger] pa[i].0 != pa[i + 1].0 by {
                assert(a[i].0 != a[i + 1].0);
            }
            assert forall|i: int| 0 <= i < pa.len() implies #[trigger] pa[i].1 >= 1 by {
                assert(a[i].1 >= 1);
            }
        }
        assert(canonical(pb)) by {
            assert forall|i: int| 0 <= i < pb.len() - 1 implies #[trigger] pb[i].0 != pb[i + 1].0 by {
                assert(b[i].0 != b[i + 1].0);
            }
            assert forall|i: int| 0 <= i < pb.len() implies #[trigger] pb[i].1 >= 1 by {
                assert(b[i].1 >= 1);
            }
        }
        // The run before the last one holds another value, so the last run
        // of each is the whole trailing block of `v`.
        if n < m {
            assert(pa.len() > 0) by {
                if pa.len() == 0 {
                    assert(s.len() == n);
                    assert(expand(b).len() >= m);
                }
            }
            lemma_expand_last(pa);
            assert(a[a.len() - 2].0 != v);
            let k = s.len() - n - 1;
            assert(s[k] == expand(pa).last());
            assert(expand(b)[k] == v) by {
                assert(k >= expand(pb).len());
                assert(expand(b) == expand(pb) + run(v, m as nat));
            }
        } else if m < n {
            assert(pb.len() > 0) by {
                if pb.len() == 0 {
                    assert(expand(b).len() == m);
                }
            }
            lemma_expand_last(pb);
            assert(b[b.len() - 2].0 != v);
            let k = s.len() - m - 1;
            assert(expand(b)[k] == expand(pb).last());
            assert(s[k] == v) by {
                assert(k >= expand(pa).len());
                assert(s == expand(pa) + run(v, n as nat));
            }
        }
        assert(n == m);
        assert(expand(pa) =~= s.take(s.len() - n));
        assert(expand(pb) =~= expand(b).take(expand(b).len() - m));
        law_canonical_encoding_is_unique(pa, pb);
        assert(a =~= pa.push(a.last()));
        assert(b =~= pb.push(b.last()));
    }
}

/// A strictly increasing sequence is determined by its set of elements.
pub proof fn law_increasing_sequence_determined_by_elements(a: Seq<u32>, b: Seq<u32>)
    requires
        strictly_increasing(a),
        strictly_increasing(b),
        a.to_set() == b.to_set(),
    ensures
        a == b,
    decreases a.len() + b.len(),
{
    if a.len() == 0 || b.len() == 0 {
        if a.len() > 0 {
            assert(a.to_set().contains(a[0]));
            assert(!b.contains(a[0]));
        }
        if b.len() > 0 {
            assert(b.to_set().contains(b[0]));
            assert(!a.contains(b[0]));
        }
        assert(a =~= b);
    } else {
        let la = a.last();
        let lb = b.last();
        assert(a.to_set().contains(la));
        assert(b.to_set().contains(lb));
        let ia = choose|k: int| 0 <= k < a.len() && a[k] == lb;
        let ib = choose|k: int| 0 <= k < b.len() && b[k] == la;
        assert(la == lb);
        let a1 = a.drop_last();
        let b1 = b.drop_last();
        assert forall|x: u32| a1.to_set().contains(x) == b1.to_set().contains(x) by {
            if a1.contains(x) {
                let k = choose|k: int| 0 <= k < a1.len() && a1[k] == x;
                assert(a.to_set().contains(x));
                let m = choose|m: int| 0 <= m < b.len() && b[m] == x;
                assert(x < la);
                assert(m != b.len() - 1);
                assert(b1[m] == x);
            }
            if b1.contains(x) {
                let k = choose|k: int| 0 <= k < b1.len() && b1[k] == x;
                assert(b.to_set().contains(x));
                let m = choose|m: int| 0 <= m < a.len() && a[m] == x;
                assert(x < lb);
                assert(m != a.len() - 1);
                assert(a1[m] == x);
            }
        }
        assert(a1.to_set() =~= b1.to_set());
        law_increasing_sequence_determined_by_elements(a1, b1);
        assert(a =~= a1.push(la));
        assert(b =~= b1.push(lb));
    }
}

// ---------------------------------------------------------------------------
// Functions
// ---------------------------------------------------------------------------

/// Calls `f1` on 1 and on 2, then `f2` on the two results.
pub fn wrap_call(f1: impl Fn(u32) -> u32, f2: impl FnOnce(u32, u32) -> u32) -> (r: u32)
    requires
        f1.requires((1u32,)),
        f1.requires((2u32,)),
        forall|a: u32, b: u32|
            f1.ensures((1u32,), a) && f1.ensures((2u32,), b) ==> f2.requires((a, b)),
    ensures
        exists|a: u32, b: u32|
            f1.ensures((1u32,), a) && f1.ensures((2u32,), b) && f2.ensures((a, b), r),
{
    let f1_rename = f1;
    let a = f1_rename(1);
    let b = f1_rename(2);
    f2(a, b)
}

/// The sum of the squares of the odd elements, by an indexed loop.
pub fn sum_squares_odd_loop(list: &[u32]) -> (res: u32)
    requires
        odd_square_sum(list@) <= u32::MAX,
    ensures
        res == odd_square_sum(list@),
{
    let mut res: u32 = 0;
    let mut i: usize = 0;
    while i < list.len()
        invariant
            i <= list.len(),
            res == odd_square_sum(list@.take(i as int)),
            odd_square_sum(list@) <= u32::MAX,
        decreases list.len() - i,
    {
        let val = list[i];
        assert(list@.take(i + 1).drop_last() =~= list@.take(i as int));
        proof {
            lemma_odd_square_sum_prefix(list@, i + 1);
        }
        if val % 2 == 1 {
            res += val * val;
        }
        i += 1;
    }
    assert(list@.take(list.len() as int) =~= list@);
    res
}

/// The sum of the squares of the odd elements: first the squares of the odd
/// elements are gathered, then summed.
pub fn sum_squares_odd(list: &[u32]) -> (res: u32)
    requires
        odd_square_sum(list@) <= u32::MAX,
    ensures
        res == odd_square_sum(list@),
{
    let mut squares: Vec<u32> = Vec::new();
    let mut i: usize = 0;
    while i < list.len()
        invariant
            i <= list.len(),
            odd_square_sum(list@) <= u32::MAX,
            odd_square_sum(list@.take(i as int)) == total(squares@),
        decreases list.len() - i,
    {
        let v = list[i];
        assert(list@.take(i + 1).drop_last() =~= list@.take(i as int));
        proof {
            lemma_odd_square_sum_prefix(list@, i + 1);
        }
        proof {
            lemma_odd_square_sum_prefix(list@, i as int);
        }
        if v % 2 == 1 {
            let ghost before = squares@;
            squares.push(v * v);
            assert(squares@.drop_last() =~= before);
        }
        i += 1;
    }
    assert(list@.take(list.len() as int) =~= list@);
    let mut sum: u32 = 0;
    let mut k: usize = 0;
    while k < squares.len()
        invariant
            k <= squares.len(),
            total(squares@) == odd_square_sum(list@),
            odd_square_sum(list@) <= u32::MAX,
            sum == total(squares@.take(k as int)),
        decreases squares.len() - k,
    {
        assert(squares@.take(k + 1).drop_last() =~= squares@.take(k as int));
        proof {
            lemma_total_prefix(squares@, k + 1);
        }
        sum += squares[k];
        k += 1;
    }
    assert(squares@.take(squares.len() as int) =~= squares@);
    sum
}

/// The sum of a sequence.
pub open spec fn total(s: Seq<u32>) -> int
    decreases s.len(),
{
    if s.len() == 0 {
        0
    } else {
        total(s.drop_last()) + s.last()
    }
}

proof fn lemma_total_prefix(s: Seq<u32>, i: int)
    requires
        0 <= i <= s.len(),
    ensures
        0 <= total(s.take(i)) <= total(s),
    decreases s.len(),
{
    if s.len() > 0 {
        if i == s.len() {
            assert(s.take(i) =~= s);
            lemma_total_prefix(s.drop_last(), i - 1);
        } else {
            assert(s.drop_last().take(i) =~= s.take(i));
            lemma_total_prefix(s.drop_last(), i);
        }
    }
}

/// The vertices of a graph in ascending order, gathered through a hash set.
pub fn vertices_loop(edges: &[(u32, u32)]) -> (vec: Vec<u32>)
    ensures
        strictly_increasing(vec@),
        vec@.to_set() == endpoints(edges@),
{
    let mut set = HashSet::<u32>::new();
    let mut vec = Vec::<u32>::new();
    let mut i: usize = 0;
    while i < edges.len()
        invariant
            i <= edges.len(),
            set@ == endpoints(edges@.take(i as int)),
            vec@.to_set() == set@,
            vec@.no_duplicates(),
        decreases edges.len() - i,
    {
        let (u, v) = edges[i];
        let ghost s0 = vec@;
        if set.insert(u) {
            vec.push(u);
        }
        let ghost s1 = vec@;
        if set.insert(v) {
            vec.push(v);
        }
        proof {
            if s1.len() > s0.len() {
                s0.lemma_push_to_set_commute(u);
            }
            if vec@.len() > s1.len() {
                s1.lemma_push_to_set_commute(v);
            }
        }
        let ghost prev = edges@.take(i as int);
        let ghost next = edges@.take(i + 1);
        assert(set@ =~= endpoints(next)) by {
            assert forall|x: u32| set@.contains(x) implies endpoints(next).contains(x) by {
                if x == u || x == v {
                    assert(next[i as int] == (u, v));
                } else {
                    let k = choose|k: int| 0 <= k < prev.len() && (prev[k].0 == x || prev[k].1 == x);
                    assert(next[k] == prev[k]);
                }
            }
            assert forall|x: u32| endpoints(next).contains(x) implies set@.contains(x) by {
                let k = choose|k: int| 0 <= k < next.len() && (next[k].0 == x || next[k].1 == x);
                if k < i {
                    assert(prev[k] == next[k]);
                }
            }
        }
        i += 1;
    }
    assert(edges@.take(edges.len() as int) =~= edges@);
    let ghost before = vec@;
    sort_in_place(&mut vec);
    proof {
        lemma_sorted_rearrangement(before, vec@);
    }
    vec
}

/// The vertices of a graph in ascending order: every endpoint listed, then
/// duplicates dropped and the rest sorted.
pub fn vertices(edges: &[(u32, u32)]) -> (vec: Vec<u32>)
    ensures
        strictly_increasing(vec@),
        vec@.to_set() == endpoints(edges@),
{
    let mut all: Vec<u32> = Vec::new();
    let mut i: usize = 0;
    while i < edges.len()
        invariant
            i <= edges.len(),
            all@.to_set() == endpoints(edges@.take(i as int)),
        decreases edges.len() - i,
    {
        let (u, v) = edges[i];
        let ghost s0 = all@;
        all.push(u);
        all.push(v);
        proof {
            s0.lemma_push_to_set_commute(u);
            s0.push(u).lemma_push_to_set_commute(v);
        }
        let ghost prev = edges@.take(i as int);
        let ghost next = edges@.take(i + 1);
        assert(all@.to_set() =~= endpoints(next)) by {
            assert forall|x: u32| all@.to_set().contains(x) implies endpoints(next).contains(x) by {
                if x == u || x == v {
                    assert(next[i as int] == (u, v));
                } else {
                    let k = choose|k: int| 0 <= k < prev.len() && (prev[k].0 == x || prev[k].1 == x);
                    assert(next[k] == prev[k]);
                }
            }
            assert forall|x: u32| endpoints(next).contains(x) implies all@.to_set().contains(x) by {
                let k = choose|k: int| 0 <= k < next.len() && (next[k].0 == x || next[k].1 == x);
                if k < i {
                    assert(prev[k] == next[k]);
                }
            }
        }
        i += 1;
    }
    assert(edges@.take(edges.len() as int) =~= edges@);
    let ghost flat = all@;
    let distinct = unique_of(all);
    proof {
        flat.lemma_remove_duplicates_properties(seq![]);
        lemma_remove_duplicates_no_duplicates(flat, seq![]);
        assert(flat + seq![] =~= flat);
        assert(distinct@.to_set() =~= flat.to_set());
    }
    let ghost d = distinct@;
    let vec = sorted_of(distinct);
    proof {
        lemma_sorted_rearrangement(d, vec@);
    }
    vec
}

/// Run-length encoding by a single scan that extends the current run or closes it.
pub fn run_length_encode_loop(list: &[u32]) -> (runs: Vec<(u32, usize)>)
    ensures
        canonical(runs@),
        expand(runs@) == list@,
{
    if list.len() == 0 {
        assert(list@ =~= seq![]);
        return Vec::new();
    }
    let mut runs: Vec<(u32, usize)> = Vec::new();
    let mut val: u32 = list[0];
    let mut len: usize = 1;
    let mut i: usize = 1;
    assert(run(val, 1) =~= list@.take(1));
    while i < list.len()
        invariant
            1 <= i <= list.len(),
            1 <= len <= i,
            canonical(runs@),
            runs@.len() > 0 ==> runs@.last().0 != val,
            expand(runs@) + run(val, len as nat) == list@.take(i as int),
        decreases list.len() - i,
    {
        if list[i] == val {
            assert(run(val, (len + 1) as nat) =~= run(val, len as nat).push(val));
            assert(list@.take(i + 1) =~= list@.take(i as int).push(list@[i as int]));
            len += 1;
        } else {
            let ghost old_runs = runs@;
            runs.push((val, len));
            assert(runs@.drop_last() =~= old_runs);
            assert(run(list@[i as int], 1) =~= seq![list@[i as int]]);
            assert(list@.take(i + 1) =~= list@.take(i as int).push(list@[i as int]));
            val = list[i];
            len = 1;
        }
        i += 1;
    }
    let ghost old_runs = runs@;
    runs.push((val, len));
    assert(runs@.drop_last() =~= old_runs);
    assert(list@.take(list.len() as int) =~= list@);
    runs
}

/// Run-length encoding by chunks: each step finds where the current chunk of
/// equal values ends and emits it whole.
pub fn run_length_encode(list: &[u32]) -> (runs: Vec<(u32, usize)>)
    ensures
        canonical(runs@),
        expand(runs@) == list@,
{
    let mut runs: Vec<(u32, usize)> = Vec::new();
    let mut start: usize = 0;
    assert(list@.take(0) =~= seq![]);
    while start < list.len()
        invariant
            start <= list.len(),
            canonical(runs@),
            expand(runs@) == list@.take(start as int),
            runs@.len() > 0 && start < list.len() ==> runs@.last().0 != list@[start as int],
        decreases list.len() - start,
    {
        let first = list[start];
        let mut end: usize = start + 1;
        while end < list.len() && list[end] == first
            invariant
                start < end <= list.len(),
                forall|k: int| start <= k < end ==> list@[k] == first,
            decreases list.len() - end,
        {
            end += 1;
        }
        let ghost old_runs = runs@;
        runs.push((first, end - start));
        assert(runs@.drop_last() =~= old_runs);
        assert(list@.take(end as int) =~= list@.take(start as int) + run(first, (end - start) as nat));
        start = end;
    }
    assert(list@.take(list.len() as int) =~= list@);
    runs
}

/// Elements of the pairs of `product(a, b)` are exactly the pairs of elements.
proof fn lemma_product_index<A, B>(a: Seq<A>, b: Seq<B>, p: (A, B))
    ensures
        product(a, b).contains(p) <==> (a.contains(p.0) && b.contains(p.1)),
    decreases a.len(),
{
    if a.len() > 0 {
        let a1 = a.drop_last();
        let f = |y: B| (a.last(), y);
        lemma_product_index(a1, b, p);
        let tail = b.map_values(f);
        let whole = product(a1, b) + tail;
        assert(product(a, b) == whole);
        if whole.contains(p) {
            let k = choose|k: int| 0 <= k < whole.len() && whole[k] == p;
            if k < product(a1, b).len() {
                assert(product(a1, b)[k] == p);
                let m = choose|m: int| 0 <= m < a1.len() && a1[m] == p.0;
                assert(a[m] == p.0);
            } else {
                let m = k - product(a1, b).len();
                assert(tail[m] == p);
                assert(b[m] == p.1);
                assert(a[a.len() - 1] == p.0);
            }
        }
        if a.contains(p.0) && b.contains(p.1) {
            let m = choose|m: int| 0 <= m < a.len() && a[m] == p.0;
            let n = choose|n: int| 0 <= n < b.len() && b[n] == p.1;
            if m == a.len() - 1 {
                assert(tail[n] == p);
                assert(whole[product(a1, b).len() + n] == p);
            } else {
                assert(a1[m] == p.0);
                assert(product(a1, b).contains(p));
                let k = choose|k: int| 0 <= k < product(a1, b).len() && product(a1, b)[k] == p;
                assert(whole[k] == p);
            }
        }
    }
}

/// The vertices on cycles of length two, in ascending order, found by
/// comparing every pair of distinct edge positions once.
pub fn cycles_2_loop(edges: &[(u32, u32)]) -> (vec: Vec<u32>)
    ensures
        strictly_increasing(vec@),
        vec@.to_set() == cycle_vertices(edges@),
{
    let m = edges.len();
    let mut set = HashSet::<u32>::new();
    let mut vec = Vec::<u32>::new();
    let mut i: usize = 0;
    while i < m
        invariant
            m == edges.len(),
            i <= m,
            vec@.to_set() == set@,
            vec@.no_duplicates(),
            set@.subset_of(cycle_vertices(edges@)),
            forall|a: int, b: int|
                0 <= a < i && a < b < m && #[trigger] two_cycle(edges@[a], edges@[b])
                    ==> set@.contains(edges@[a].0) && set@.contains(edges@[a].1),
        decreases m - i,
    {
        let mut j: usize = i + 1;
        while j < m
            invariant
                m == edges.len(),
                i < m,
                i + 1 <= j <= m,
                vec@.to_set() == set@,
                vec@.no_duplicates(),
                set@.subset_of(cycle_vertices(edges@)),
                forall|a: int, b: int|
                    0 <= a < i && a < b < m && #[trigger] two_cycle(edges@[a], edges@[b])
                        ==> set@.contains(edges@[a].0) && set@.contains(edges@[a].1),
                forall|b: int|
                    i < b < j && #[trigger] two_cycle(edges@[i as int], edges@[b])
                        ==> set@.contains(edges@[i as int].0) && set@.contains(edges@[i as int].1),
            decreases m - j,
        {
            let (u, v) = edges[i];
            let (x, y) = edges[j];
            if u == y && v == x && u != v {
                assert(two_cycle(edges@[i as int], edges@[j as int]));
                let ghost s0 = vec@;
                if set.insert(u) {
                    vec.push(u);
                }
                let ghost s1 = vec@;
                if set.insert(v) {
                    vec.push(v);
                }
                proof {
                    if s1.len() > s0.len() {
                        s0.lemma_push_to_set_commute(u);
                    }
                    if vec@.len() > s1.len() {
                        s1.lemma_push_to_set_commute(v);
                    }
                    assert(cycle_vertices(edges@).contains(u));
                    assert(cycle_vertices(edges@).contains(v));
                }
            }
            j += 1;
        }
        i += 1;
    }
    proof {
        assert forall|w: u32| cycle_vertices(edges@).contains(w) implies set@.contains(w) by {
            let (a, b) = choose|a: int, b: int|
                0 <= a < edges@.len() && 0 <= b < edges@.len() && two_cycle(edges@[a], edges@[b])
                    && (edges@[a].0 == w || edges@[a].1 == w);
            if a < b {
                assert(two_cycle(edges@[a], edges@[b]));
            } else {
                assert(a != b);
                assert(two_cycle(edges@[b], edges@[a]));
            }
        }
        assert(set@ =~= cycle_vertices(edges@));
    }
    let ghost before = vec@;
    sort_in_place(&mut vec);
    proof {
        lemma_sorted_rearrangement(before, vec@);
    }
    vec
}

/// The vertices on cycles of length two, in ascending order, from all ordered
/// pairs of edges.
pub fn cycles_2(edges: &[(u32, u32)]) -> (vec: Vec<u32>)
    ensures
        strictly_increasing(vec@),
        vec@.to_set() == cycle_vertices(edges@),
{
    let pairs = pairs_of(edges);
    let mut found: Vec<u32> = Vec::new();
    let mut k: usize = 0;
    while k < pairs.len()
        invariant
            k <= pairs.len(),
            pairs@ == product(edges@, edges@),
            found@.to_set().subset_of(cycle_vertices(edges@)),
            forall|t: int|
                0 <= t < k && #[trigger] two_cycle(pairs@[t].0, pairs@[t].1)
                    ==> found@.contains(pairs@[t].0.0) && found@.contains(pairs@[t].0.1),
        decreases pairs.len() - k,
    {
        let ((u, v), (x, y)) = pairs[k];
        if u == y && v == x && u != v {
            proof {
                lemma_product_index(edges@, edges@, pairs@[k as int]);
                assert(product(edges@, edges@)[k as int] == pairs@[k as int]);
                let a = choose|a: int| 0 <= a < edges@.len() && edges@[a] == (u, v);
                let b = choose|b: int| 0 <= b < edges@.len() && edges@[b] == (x, y);
                assert(two_cycle(edges@[a], edges@[b]));
                assert(cycle_vertices(edges@).contains(u));
                assert(cycle_vertices(edges@).contains(v));
            }
            let ghost s0 = found@;
            found.push(u);
            found.push(v);
            proof {
                s0.lemma_push_to_set_commute(u);
                s0.push(u).lemma_push_to_set_commute(v);
                assert forall|t: int|
                    0 <= t < k + 1 && #[trigger] two_cycle(pairs@[t].0, pairs@[t].1)
                        implies found@.contains(pairs@[t].0.0) && found@.contains(pairs@[t].0.1) by {
                    if t < k {
                        assert(s0.contains(pairs@[t].0.0));
                        assert(s0.contains(pairs@[t].0.1));
                        assert(found@.to_set().contains(pairs@[t].0.0));
                        assert(found@.to_set().contains(pairs@[t].0.1));
                    } else {
                        assert(found@[found@.len() - 2] == u);
                        assert(found@[found@.len() - 1] == v);
                    }
                }
            }
        }
        k += 1;
    }
    proof {
        assert forall|w: u32| cycle_vertices(edges@).contains(w) implies found@.to_set().contains(w) by {
            let (a, b) = choose|a: int, b: int|
                0 <= a < edges@.len() && 0 <= b < edges@.len() && two_cycle(edges@[a], edges@[b])
                    && (edges@[a].0 == w || edges@[a].1 == w);
            let p = (edges@[a], edges@[b]);
            lemma_product_index(edges@, edges@, p);
            let t = choose|t: int| 0 <= t < pairs@.len() && pairs@[t] == p;
            assert(two_cycle(pairs@[t].0, pairs@[t].1));
        }
        assert(found@.to_set() =~= cycle_vertices(edges@));
    }
    let ghost flat = found@;
    let distinct = unique_of(found);
    proof {
        flat.lemma_remove_duplicates_properties(seq![]);
        lemma_remove_duplicates_no_duplicates(flat, seq![]);
        assert(flat + seq![] =~= flat);
        assert(distinct@.to_set() =~= flat.to_set());
    }
    let ghost d = distinct@;
    let vec = sorted_of(distinct);
    proof {
        lemma_sorted_rearrangement(d, vec@);
    }
    vec
}

/// The sum of a list of integers.
pub open spec fn signed_total(xs: Seq<i32>) -> int
    decreases xs.len(),
{
    if xs.len() == 0 {
        0
    } else {
        signed_total(xs.drop_last()) + xs.last()
    }
}

/// Every running sum of the list, from the first element on, is an `i32`.
pub open spec fn sums_fit(xs: Seq<i32>) -> bool {
    forall|k: int| 0 <= k <= xs.len() ==> i32::MIN <= #[trigger] signed_total(xs.take(k)) <= i32::MAX
}

/// The sum of a list of `i32`, added from the first element on.
pub fn sum_i32(xs: &[i32]) -> (s: i32)
    requires
        sums_fit(xs@),
    ensures
        s == signed_total(xs@),
{
    let mut s: i32 = 0;
    let mut i: usize = 0;
    assert(xs@.take(0) =~= Seq::<i32>::empty());
    while i < xs.len()
        invariant
            i <= xs@.len(),
            sums_fit(xs@),
            s == signed_total(xs@.take(i as int)),
        decreases xs.len() - i,
    {
        assert(xs@.take(i + 1).drop_last() =~= xs@.take(i as int));
        assert(i32::MIN <= signed_total(xs@.take(i + 1)) <= i32::MAX);
        s = s + xs[i];
        i += 1;
    }
    assert(xs@.take(xs@.len() as int) =~= xs@);
    s
}

} // verus!
