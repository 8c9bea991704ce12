//! The border table of a byte pattern (the longest proper prefix of each
//! prefix that is also its suffix), and the automaton that reads a stream
//! until the pattern ends it.
use vstd::prelude::*;

verus! {

/// `b` is the length of a proper border of the first `n` bytes of `s`:
/// they begin and end with the same `b` bytes, and `b < n`.
pub open spec fn is_border(s: Seq<u8>, n: int, b: int) -> bool {
    &&& 0 <= b < n <= s.len()
    &&& forall|t: int| 0 <= t < b ==> #[trigger] s[t] == s[n - b + t]
}

/// `b` is the longest proper border of the first `n` bytes of `s`.
pub open spec fn longest_border(s: Seq<u8>, n: int, b: int) -> bool {
    &&& is_border(s, n, b)
    &&& forall|c: int| #[trigger] is_border(s, n, c) ==> c <= b
}

/// A border of a border is a border.
proof fn lemma_border_of_border(s: Seq<u8>, n: int, b: int, c: int)
    requires
        is_border(s, n, b),
        is_border(s, b, c),
    ensures
        is_border(s, n, c),
{
    assert forall|t: int| 0 <= t < c implies #[trigger] s[t] == s[n - c + t] by {
        assert(s[t] == s[b - c + t]);
        assert(s[b - c + t] == s[n - b + (b - c + t)]);
    }
}

/// A shorter border is a border of the longer one.
proof fn lemma_shorter_border(s: Seq<u8>, n: int, k: int, b: int)
    requires
        is_border(s, n, k),
        is_border(s, n, b),
        b < k,
    ensures
        is_border(s, k, b),
{
    assert forall|t: int| 0 <= t < b implies #[trigger] s[t] == s[k - b + t] by {
        assert(s[t] == s[n - b + t]);
        assert(s[k - b + t] == s[n - k + (k - b + t)]);
    }
}

/// A border that is not empty is a border of one byte fewer, extended by
/// the byte that follows it.
proof fn lemma_border_shrinks(s: Seq<u8>, n: int, c: int)
    requires
        is_border(s, n, c),
        c > 0,
    ensures
        is_border(s, n - 1, c - 1),
        s[c - 1] == s[n - 1],
{
    assert(s[c - 1] == s[n - c + (c - 1)]);
    assert forall|t: int| 0 <= t < c - 1 implies #[trigger] s[t] == s[(n - 1) - (c - 1) + t] by {
        assert(s[t] == s[n - c + t]);
    }
}

/// A border followed by the byte that ends the longer prefix grows by one.
proof fn lemma_border_grows(s: Seq<u8>, n: int, k: int)
    requires
        is_border(s, n - 1, k),
        n <= s.len(),
        s[k] == s[n - 1],
    ensures
        is_border(s, n, k + 1),
{
    assert forall|t: int| 0 <= t < k + 1 implies #[trigger] s[t] == s[n - (k + 1) + t] by {
        if t < k {
            assert(s[t] == s[(n - 1) - k + t]);
        }
    }
}

/// The border table of `pattern`: for each `j` up to its length, the
/// length of the longest proper border of its first `j` bytes (zero for
/// none and for the first two entries).
pub fn calc_p(pattern: &[u8]) -> (p: Vec<usize>)
    requires
        pattern@.len() < usize::MAX,
    ensures
        p@.len() == pattern@.len() + 1,
        p@[0] == 0,
        forall|j: int| 1 <= j <= pattern@.len() ==> longest_border(pattern@, j, #[trigger] p@[j] as int),
{
    let ghost s = pattern@;
    let m = pattern.len() + 1;
    let mut p: Vec<usize> = Vec::new();
    p.push(0);
    if m >= 2 {
        p.push(0);
        assert forall|c: int| #[trigger] is_border(s, 1, c) implies c <= 0 by {}
        assert(is_border(s, 1, 0));
    }
    let mut len: usize = 0;
    let mut j: usize = 2;
    while j < m
        invariant
            m == s.len() + 1,
            s == pattern@,
            2 <= j,
            j <= m || m < 2,
            m >= 2 ==> p@.len() == j,
            m < 2 ==> p@.len() == 1,
            p@[0] == 0,
            forall|i: int| 1 <= i < p@.len() ==> longest_border(s, i, #[trigger] p@[i] as int),
            m >= 2 ==> len == p@[j - 1],
        decreases m - j,
    {
        proof {
            assert(longest_border(s, j - 1, p@[j - 1] as int));
        }
        // Walk down the borders of the first j - 1 bytes until one extends.
        while len > 0 && pattern[len] != pattern[j - 1]
            invariant
                m == s.len() + 1,
                s == pattern@,
                2 <= j < m,
                p@.len() == j,
                forall|i: int| 1 <= i < p@.len() ==> longest_border(s, i, #[trigger] p@[i] as int),
                is_border(s, j - 1, len as int),
                forall|b: int|
                    #[trigger] is_border(s, j - 1, b) && b > len ==> s[b] != s[j - 1],
            decreases len,
        {
            proof {
                let k = len as int;
                assert(longest_border(s, k, p@[k] as int));
                assert forall|b: int| #[trigger] is_border(s, j - 1, b) && b > p@[k] implies s[b] != s[j - 1] by {
                    if b < k {
                        lemma_shorter_border(s, j - 1, k, b);
                    }
                }
                lemma_border_of_border(s, j - 1, k, p@[k] as int);
            }
            len = p[len];
        }
        proof {
            let k = len as int;
            assert forall|c: int| #[trigger] is_border(s, j as int, c) implies c <= (if s[k] == s[j - 1] {
                k + 1
            } else {
                0
            }) by {
                if c > 0 {
                    lemma_border_shrinks(s, j as int, c);
                    assert(is_border(s, j - 1, c - 1));
                }
            }
        }
        if pattern[len] == pattern[j - 1] {
            proof {
                lemma_border_grows(s, j as int, len as int);
            }
            len = len + 1;
        } else {
            len = 0;
            assert(is_border(s, j as int, 0));
        }
        p.push(len);
        j += 1;
    }
    p
}


/// The last `i` bytes of `text` are the first `i` bytes of `end`.
pub open spec fn fits(text: Seq<u8>, end: Seq<u8>, i: int) -> bool {
    &&& 0 <= i <= text.len()
    &&& i <= end.len()
    &&& forall|t: int| 0 <= t < i ==> #[trigger] end[t] == text[text.len() - i + t]
}

/// `i` is the longest part of `end`, short of all of it, that `text` ends
/// with: how far a reader of `text` has come towards `end`.
pub open spec fn progress(text: Seq<u8>, end: Seq<u8>, i: int) -> bool {
    &&& fits(text, end, i)
    &&& i < end.len()
    &&& forall|c: int| #[trigger] fits(text, end, c) && c < end.len() ==> c <= i
}

/// `p` is the border table of `end`.
pub open spec fn border_table(end: Seq<u8>, p: Seq<usize>) -> bool {
    &&& p.len() == end.len() + 1
    &&& p[0] == 0
    &&& forall|j: int| 1 <= j <= end.len() ==> longest_border(end, j, #[trigger] p[j] as int)
}

/// Where `text` ends with `end[..i]`, a border of that part is a part that
/// `text` ends with.
proof fn lemma_fit_border(text: Seq<u8>, end: Seq<u8>, i: int, b: int)
    requires
        fits(text, end, i),
        is_border(end, i, b),
    ensures
        fits(text, end, b),
{
    assert forall|t: int| 0 <= t < b implies #[trigger] end[t] == text[text.len() - b + t] by {
        assert(end[t] == end[i - b + t]);
        assert(end[i - b + t] == text[text.len() - i + (i - b + t)]);
    }
}

/// Two parts of `end` that `text` ends with: the shorter is a border of the
/// longer.
proof fn lemma_fits_border(text: Seq<u8>, end: Seq<u8>, i: int, c: int)
    requires
        fits(text, end, i),
        fits(text, end, c),
        c < i,
    ensures
        is_border(end, i, c),
{
    assert forall|t: int| 0 <= t < c implies #[trigger] end[t] == end[i - c + t] by {
        assert(end[t] == text[text.len() - c + t]);
        assert(end[i - c + t] == text[text.len() - i + (i - c + t)]);
    }
}

/// How far a reader has come towards `end` once it reads the last byte of
/// `read`, where it had come `i` bytes before it. Reaching the length of
/// `end` means that `read` ends with `end`.
pub fn terminator_step(end: &[u8], p: &[usize], read: &[u8], i: usize) -> (r: usize)
    requires
        border_table(end@, p@),
        read@.len() > 0,
        progress(read@.drop_last(), end@, i as int),
    ensures
        fits(read@, end@, r as int),
        forall|c: int| #[trigger] fits(read@, end@, c) ==> c <= r,
{
    let ghost text = read@.drop_last();
    let byte = read[read.len() - 1];
    let mut i = i;
    while i > 0 && end[i] != byte
        invariant
            border_table(end@, p@),
            read@.len() > 0,
            text == read@.drop_last(),
            byte == read@.last(),
            fits(text, end@, i as int),
            i < end@.len(),
            forall|c: int| #[trigger] fits(text, end@, c) && c > i && c < end@.len() ==> end@[c] != byte,
        decreases i,
    {
        proof {
            let k = i as int;
            assert(longest_border(end@, k, p@[k] as int));
            lemma_fit_border(text, end@, k, p@[k] as int);
            assert forall|c: int| #[trigger] fits(text, end@, c) && c > p@[k] && c < end@.len() implies end@[c] != byte by {
                if c < k {
                    lemma_fits_border(text, end@, k, c);
                }
            }
        }
        i = p[i];
    }
    let ghost k = i as int;
    proof {
        assert forall|c: int| #[trigger] fits(read@, end@, c) implies c <= (if end@[k] == byte { k + 1 } else { 0 }) by {
            if c > 0 {
                assert(end@[c - 1] == read@[read@.len() - c + (c - 1)]);
                assert forall|t: int| 0 <= t < c - 1 implies #[trigger] end@[t] == text[text.len() - (c - 1) + t] by {
                    assert(end@[t] == read@[read@.len() - c + t]);
                }
                assert(fits(text, end@, c - 1));
            }
        }
    }
    if end[i] == byte {
        proof {
            assert forall|t: int| 0 <= t < k + 1 implies #[trigger] end@[t] == read@[read@.len() - (k + 1) + t] by {
                if t < k {
                    assert(end@[t] == text[text.len() - k + t]);
                }
            }
        }
        i + 1
    } else {
        0
    }
}

} // verus!
