//! A value held in place or on the heap, and a queue turned until an odd
//! number leads.
use std::borrow::Cow;
use std::collections::VecDeque;
use vstd::prelude::*;

verus! {

/// A value stored either in place or in a box on the heap.
pub enum HeapOrStack<T> {
    Stack(T),
    Heap(Box<T>),
}

impl<T> HeapOrStack<T> {
    /// The stored value, wherever it lies.
    pub open spec fn value(self) -> T {
        match self {
            HeapOrStack::Stack(inner) => inner,
            HeapOrStack::Heap(inner) => *inner,
        }
    }
}

impl<T> std::ops::Deref for HeapOrStack<T> {
    type Target = T;

    fn deref(&self) -> (r: &T)
        ensures
            *r == self.value(),
    {
        match self {
            HeapOrStack::Stack(inner) => inner,
            HeapOrStack::Heap(inner) => inner,
        }
    }
}

impl<T> std::ops::DerefMut for HeapOrStack<T> {
    fn deref_mut(&mut self) -> (r: &mut T)
        ensures
            *r == old(self).value(),
            final(self).value() == *final(r),
    {
        match self {
            HeapOrStack::Stack(inner) => inner,
            HeapOrStack::Heap(inner) => inner,
        }
    }
}

/// What `v % 2 == 1` says of an `i32` under Rust's remainder: a positive
/// odd number.
pub open spec fn odd_head(v: i32) -> bool {
    v > 0 && v % 2 == 1
}

/// `s` turned left by `k` places.
pub open spec fn rotated(s: Seq<i32>, k: int) -> Seq<i32> {
    s.subrange(k, s.len() as int) + s.subrange(0, k)
}

/// The queue turned left until a positive odd number leads: borrowed
/// unchanged where one already leads, an owned turned copy where it had to
/// turn. None where the queue holds no positive odd number (an empty queue
/// among them).
pub fn canon_head<'a>(xs: &'a VecDeque<i32>) -> (r: Option<Cow<'a, VecDeque<i32>>>)
    ensures
        match r {
            None => forall|i: int| 0 <= i < xs@.len() ==> !odd_head(#[trigger] xs@[i]),
            Some(c) => exists|k: int|
                0 <= k < xs@.len() && odd_head(xs@[k]) && (forall|j: int| 0 <= j < k ==> !odd_head(#[trigger] xs@[j]))
                    && c@ == rotated(xs@, k) && (c is Borrowed <==> k == 0),
        },
{
    let n = xs.len();
    let mut k: usize = 0;
    while k < n
        invariant
            n == xs@.len(),
            k <= n,
            forall|j: int| 0 <= j < k ==> !odd_head(#[trigger] xs@[j]),
        decreases n - k,
    {
        let v = xs[k];
        assert(v == xs@[k as int]);
        if v > 0 && (v as u32) % 2 == 1 {
            if k == 0 {
                assert(rotated(xs@, 0) == xs@);
                return Some(Cow::Borrowed(xs));
            }
            let mut turned: VecDeque<i32> = VecDeque::new();
            let mut i: usize = k;
            while i < n
                invariant
                    n == xs@.len(),
                    k <= i <= n,
                    odd_head(xs@[k as int]),
                    forall|j: int| 0 <= j < k ==> !odd_head(#[trigger] xs@[j]),
                    turned@ == xs@.subrange(k as int, i as int),
                decreases n - i,
            {
                let x = xs[i];
                turned.push_back(x);
                i += 1;
                assert(turned@ == xs@.subrange(k as int, i as int));
            }
            let mut j: usize = 0;
            while j < k
                invariant
                    n == xs@.len(),
                    j <= k < n,
                    odd_head(xs@[k as int]),
                    forall|b: int| 0 <= b < k ==> !odd_head(#[trigger] xs@[b]),
                    turned@ == xs@.subrange(k as int, n as int) + xs@.subrange(0, j as int),
                decreases k - j,
            {
                let x = xs[j];
                turned.push_back(x);
                j += 1;
                assert(turned@ == xs@.subrange(k as int, n as int) + xs@.subrange(0, j as int));
            }
            assert(turned@ == rotated(xs@, k as int));
            let c: Cow<'a, VecDeque<i32>> = Cow::Owned(turned);
            assert(c@ == rotated(xs@, k as int));
            return Some(c);
        }
        k += 1;
    }
    None
}

/// The greeting given after `count` earlier ones: the three greetings of
/// the Austro-Hungarian greeter, in turn.
pub fn greeting(count: usize) -> (g: &'static str)
    ensures
        count % 3 == 0 ==> g@ == "Es lebe der Kaiser!"@,
        count % 3 == 1 ==> g@ == "Möge uns der Kaiser schützen!"@,
        count % 3 == 2 ==> g@ == "Éljen Ferenc József császár!"@,
{
    let greetings: [&'static str; 3] = ["Es lebe der Kaiser!", "Möge uns der Kaiser schützen!", "Éljen Ferenc József császár!"];
    greetings[count % 3]
}

} // verus!
