//! Lists of (key, value) pairs read as maps, and lists read as sets.
use vstd::prelude::*;

verus! {

/// The map that a list of pairs describes; a later pair for a key wins.
pub open spec fn assoc<K, V>(s: Seq<(K, V)>) -> Map<K, V>
    decreases s.len(),
{
    if s.len() == 0 {
        Map::empty()
    } else {
        assoc(s.drop_last()).insert(s.last().0, s.last().1)
    }
}

/// No key occurs twice.
pub open spec fn keys_distinct<K, V>(s: Seq<(K, V)>) -> bool {
    forall|i: int, j: int| 0 <= i < j < s.len() ==> s[i].0 != s[j].0
}

pub proof fn lemma_assoc_dom<K, V>(s: Seq<(K, V)>, k: K)
    ensures
        assoc(s).contains_key(k) <==> exists|i: int| 0 <= i < s.len() && s[i].0 == k,
    decreases s.len(),
{
    if s.len() > 0 {
        lemma_assoc_dom(s.drop_last(), k);
        if assoc(s.drop_last()).contains_key(k) {
            let i = choose|i: int| 0 <= i < s.drop_last().len() && s.drop_last()[i].0 == k;
            assert(s[i].0 == k);
        }
        if s.last().0 == k {
            assert(s[s.len() - 1].0 == k);
        }
        if exists|i: int| 0 <= i < s.len() && s[i].0 == k {
            let i = choose|i: int| 0 <= i < s.len() && s[i].0 == k;
            if i < s.len() - 1 {
                assert(s.drop_last()[i].0 == k);
            }
        }
    }
}

pub proof fn lemma_assoc_at<K, V>(s: Seq<(K, V)>, i: int)
    requires
        keys_distinct(s),
        0 <= i < s.len(),
    ensures
        assoc(s).contains_key(s[i].0),
        assoc(s)[s[i].0] == s[i].1,
    decreases s.len(),
{
    if i < s.len() - 1 {
        lemma_assoc_at(s.drop_last(), i);
    }
}

pub proof fn lemma_assoc_update<K, V>(s: Seq<(K, V)>, i: int, v: V)
    requires
        keys_distinct(s),
        0 <= i < s.len(),
    ensures
        keys_distinct(s.update(i, (s[i].0, v))),
        assoc(s.update(i, (s[i].0, v))) == assoc(s).insert(s[i].0, v),
    decreases s.len(),
{
    let t = s.update(i, (s[i].0, v));
    if i == s.len() - 1 {
        assert(t.drop_last() == s.drop_last());
        assert(!assoc(s.drop_last()).contains_key(s[i].0)) by {
            lemma_assoc_dom(s.drop_last(), s[i].0);
        }
        assert(assoc(t) =~= assoc(s).insert(s[i].0, v));
    } else {
        lemma_assoc_update(s.drop_last(), i, v);
        assert(t.drop_last() == s.drop_last().update(i, (s[i].0, v)));
        assert(assoc(t) =~= assoc(s).insert(s[i].0, v));
    }
}

/// Whether `k` is in the list.
pub fn list_contains(v: &Vec<(u32, u32)>, k: (u32, u32)) -> (r: bool)
    ensures
        r == v@.contains(k),
{
    let n = v.len();
    let mut i: usize = 0;
    while i < n
        invariant
            n == v@.len(),
            i <= n,
            forall|j: int| 0 <= j < i ==> v@[j] != k,
        decreases n - i,
    {
        if v[i].0 == k.0 && v[i].1 == k.1 {
            assert(v@[i as int] == k);
            return true;
        }
        i += 1;
    }
    false
}

/// Adds `k` to the list where it is not there yet.
pub fn list_insert(v: &mut Vec<(u32, u32)>, k: (u32, u32))
    ensures
        final(v)@.to_set() == old(v)@.to_set().insert(k),
        old(v)@.no_duplicates() ==> final(v)@.no_duplicates(),
{
    if !list_contains(v, k) {
        v.push(k);
        assert(old(v)@.no_duplicates() ==> v@.no_duplicates()) by {
            if old(v)@.no_duplicates() {
                assert forall|a: int, b: int| 0 <= a < v@.len() && 0 <= b < v@.len() && a != b implies v@[a] != v@[b] by {
                    if a == v@.len() - 1 {
                        assert(old(v)@[b] == v@[b]);
                    } else if b == v@.len() - 1 {
                        assert(old(v)@[a] == v@[a]);
                    } else {
                        assert(old(v)@[a] == v@[a] && old(v)@[b] == v@[b]);
                    }
                }
            }
        }
        assert(v@.to_set() =~= old(v)@.to_set().insert(k)) by {
            assert forall|x: (u32, u32)| v@.contains(x) <==> old(v)@.contains(x) || x == k by {
                if old(v)@.contains(x) {
                    let j = choose|j: int| 0 <= j < old(v)@.len() && old(v)@[j] == x;
                    assert(v@[j] == x);
                }
                if x == k {
                    assert(v@[v@.len() - 1] == x);
                }
            }
        }
    } else {
        assert(v@.to_set() =~= old(v)@.to_set().insert(k));
    }
}

/// Removes every occurrence of `k` from the list.
pub fn list_remove(v: &mut Vec<(u32, u32)>, k: (u32, u32))
    ensures
        final(v)@.to_set() == old(v)@.to_set().remove(k),
        old(v)@.no_duplicates() ==> final(v)@.no_duplicates(),
{
    let ghost keep = |x: (u32, u32)| x != k;
    let mut kept: Vec<(u32, u32)> = Vec::new();
    let n = v.len();
    let mut i: usize = 0;
    while i < n
        invariant
            n == v@.len(),
            v@ == old(v)@,
            i <= n,
            keep == (|x: (u32, u32)| x != k),
            kept@ == v@.take(i as int).filter(keep),
            forall|x: (u32, u32)| kept@.contains(x) ==> v@.take(i as int).contains(x),
            old(v)@.no_duplicates() ==> kept@.no_duplicates(),
        decreases n - i,
    {
        let e = v[i];
        proof {
            reveal(Seq::filter);
            assert(v@.take(i + 1).drop_last() == v@.take(i as int));
            assert(v@.take(i + 1).last() == e);
        }
        let ghost prev = kept@;
        if !(e.0 == k.0 && e.1 == k.1) {
            kept.push(e);
            proof {
                if old(v)@.no_duplicates() {
                    assert(!prev.contains(e)) by {
                        if prev.contains(e) {
                            let j = choose|j: int| 0 <= j < i && v@.take(i as int)[j] == e;
                            assert(v@[j] == v@[i as int]);
                        }
                    }
                    assert forall|a: int, b: int| 0 <= a < kept@.len() && 0 <= b < kept@.len() && a != b implies kept@[a] != kept@[b] by {
                        if a == kept@.len() - 1 {
                            assert(prev.contains(kept@[b]));
                        } else if b == kept@.len() - 1 {
                            assert(prev.contains(kept@[a]));
                        } else {
                            assert(prev[a] == kept@[a] && prev[b] == kept@[b]);
                        }
                    }
                }
            }
        }
        proof {
            assert forall|x: (u32, u32)| kept@.contains(x) implies v@.take(i + 1).contains(x) by {
                if prev.contains(x) {
                    let j = choose|j: int| 0 <= j < i && v@.take(i as int)[j] == x;
                    assert(v@.take(i + 1)[j] == x);
                } else {
                    assert(v@.take(i + 1)[i as int] == x);
                }
            }
        }
        i += 1;
    }
    assert(v@.take(n as int) == v@);
    proof {
        broadcast use Seq::lemma_filter_contains_rev, Seq::lemma_filter_pred, Seq::lemma_filter_contains;

        assert forall|x: (u32, u32)| kept@.contains(x) <==> (old(v)@.contains(x) && x != k) by {
            if kept@.contains(x) {
                let j = choose|j: int| 0 <= j < kept@.len() && kept@[j] == x;
                assert(keep(kept@[j]));
            }
            if old(v)@.contains(x) && x != k {
                let j = choose|j: int| 0 <= j < old(v)@.len() && old(v)@[j] == x;
                assert(keep(old(v)@[j]));
            }
        }
        assert(kept@.to_set() =~= old(v)@.to_set().remove(k));
    }
    *v = kept;
}

} // verus!
