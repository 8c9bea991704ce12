use vstd::prelude::*;
use vstd::string::{StrSliceExecFns, StringExecFns};
use crate::db::errors::ParseErr;

verus! {

// ---------------------------------------------------------------------------
// Specifications
// ---------------------------------------------------------------------------

/// The characters that Unicode gives the White_Space property.
pub open spec fn white_space(c: char) -> bool {
    let n = c as u32;
    ||| 0x09 <= n <= 0x0D
    ||| n == 0x20
    ||| n == 0x85
    ||| n == 0xA0
    ||| n == 0x1680
    ||| 0x2000 <= n <= 0x200A
    ||| n == 0x2028
    ||| n == 0x2029
    ||| n == 0x202F
    ||| n == 0x205F
    ||| n == 0x3000
}

/// The maximal runs of non-space characters of `t` from position `start` on,
/// the current run having begun at `start` and been read up to `i`.
pub open spec fn words_from(t: Seq<char>, start: int, i: int) -> Seq<Seq<char>>
    decreases t.len() - i,
{
    if i >= t.len() {
        if start < t.len() {
            seq![t.subrange(start, t.len() as int)]
        } else {
            seq![]
        }
    } else if white_space(t[i]) {
        (if start < i {
            seq![t.subrange(start, i)]
        } else {
            seq![]
        }) + words_from(t, i + 1, i + 1)
    } else {
        words_from(t, start, i + 1)
    }
}

/// The whitespace-separated words of a text.
pub open spec fn words(t: Seq<char>) -> Seq<Seq<char>> {
    words_from(t, 0, 0)
}

/// Splits `t` at the non-overlapping occurrences of `sep`, found from the
/// left, keeping each occurrence as a part marked `true` and the non-empty
/// text between them as parts marked `false`.
pub open spec fn split_from(t: Seq<char>, sep: Seq<char>, start: int, i: int) -> Seq<(Seq<char>, bool)>
    decreases t.len() - i,
{
    if sep.len() == 0 || i + sep.len() > t.len() {
        if start < t.len() {
            seq![(t.subrange(start, t.len() as int), false)]
        } else {
            seq![]
        }
    } else if t.subrange(i, i + sep.len()) == sep {
        (if start < i {
            seq![(t.subrange(start, i), false)]
        } else {
            seq![]
        }) + seq![(sep, true)] + split_from(t, sep, i + sep.len(), i + sep.len())
    } else {
        split_from(t, sep, start, i + 1)
    }
}

/// Every character as a part of its own, as an empty separator splits.
pub open spec fn singles(t: Seq<char>) -> Seq<(Seq<char>, bool)> {
    Seq::new(t.len(), |k: int| (t.subrange(k, k + 1), false))
}

/// The parts of `t` split at `sep`; with `skip` the text stays one part, marked `true`.
pub open spec fn split_keep(t: Seq<char>, sep: Seq<char>, skip: bool) -> Seq<(Seq<char>, bool)> {
    if skip {
        seq![(t, true)]
    } else if sep.len() == 0 {
        singles(t)
    } else {
        split_from(t, sep, 0, 0)
    }
}

/// Splits every part of a list at `sep`, leaving parts marked `true` as they are.
pub open spec fn split_all(parts: Seq<(Seq<char>, bool)>, sep: Seq<char>) -> Seq<(Seq<char>, bool)>
    decreases parts.len(),
{
    if parts.len() == 0 {
        seq![]
    } else {
        split_all(parts.drop_last(), sep) + split_keep(parts.last().0, sep, parts.last().1)
    }
}

pub open spec fn unmarked(ws: Seq<Seq<char>>) -> Seq<(Seq<char>, bool)> {
    ws.map_values(|w: Seq<char>| (w, false))
}

/// The operators of the command language, in the order in which the tokenizer splits them off.
pub open spec fn operator(k: int) -> Seq<char> {
    if k == 0 {
        seq![',']
    } else if k == 1 {
        seq![':']
    } else if k == 2 {
        seq!['<', '=']
    } else if k == 3 {
        seq!['>', '=']
    } else if k == 4 {
        seq!['!', '=']
    } else if k == 5 {
        seq!['=']
    } else if k == 6 {
        seq!['<']
    } else {
        seq!['>']
    }
}

/// The parts after splitting the words of a line at the first `k` operators.
pub open spec fn split_stage(t: Seq<char>, k: nat) -> Seq<(Seq<char>, bool)>
    decreases k,
{
    if k == 0 {
        unmarked(words(t))
    } else {
        split_all(split_stage(t, (k - 1) as nat), operator(k - 1))
    }
}

/// The tokens of a command line: its words, with every operator split off
/// into a token of its own.
pub open spec fn token_list(t: Seq<char>) -> Seq<Seq<char>> {
    firsts(split_stage(t, 8))
}

pub open spec fn strs_view<'a>(v: Seq<&'a str>) -> Seq<Seq<char>> {
    v.map_values(|w: &'a str| w@)
}

pub open spec fn firsts(v: Seq<(Seq<char>, bool)>) -> Seq<Seq<char>> {
    v.map_values(|p: (Seq<char>, bool)| p.0)
}

pub open spec fn parts_view<'a>(v: Seq<(&'a str, bool)>) -> Seq<(Seq<char>, bool)> {
    v.map_values(|p: (&'a str, bool)| (p.0@, p.1))
}

/// `c` with ASCII capitals made small.
pub open spec fn ascii_lower(c: char) -> char {
    if 'A' <= c <= 'Z' {
        ((c as u32) + 32) as char
    } else {
        c
    }
}

pub open spec fn lower(s: Seq<char>) -> Seq<char> {
    s.map_values(|c: char| ascii_lower(c))
}

/// Whether `tok` ends with `sep`.
pub open spec fn ends_with(tok: Seq<char>, sep: Seq<char>) -> bool {
    sep.len() <= tok.len() && tok.subrange(tok.len() - sep.len(), tok.len() as int) == sep
}

/// `tok` with every trailing repetition of `sep` removed.
pub open spec fn trim_end(tok: Seq<char>, sep: Seq<char>) -> Seq<char>
    decreases tok.len(),
{
    if sep.len() > 0 && ends_with(tok, sep) {
        trim_end(tok.subrange(0, tok.len() - sep.len()), sep)
    } else {
        tok
    }
}

// ---------------------------------------------------------------------------
// Calls into std
// ---------------------------------------------------------------------------

/// `char::is_whitespace`, which std documents as the Unicode White_Space property.
#[verifier::external_body]
fn is_space(c: char) -> (r: bool)
    ensures
        r == white_space(c),
{
    c.is_whitespace()
}

/// The characters of a string slice, from `str::chars`.
#[verifier::external_body]
pub(crate) fn chars_of(s: &str) -> (v: Vec<char>)
    ensures
        v@ == s@,
{
    s.chars().collect()
}

/// Whether two characters are equal once ASCII capitals are made small.
fn same_ignoring_case(c: char, d: char) -> (r: bool)
    ensures
        r == (ascii_lower(c) == ascii_lower(d)),
{
    let x = c as u32;
    let y = d as u32;
    let lx = if 65 <= x && x <= 90 {
        x + 32
    } else {
        x
    };
    let ly = if 65 <= y && y <= 90 {
        y + 32
    } else {
        y
    };
    assert(ascii_lower(c) as u32 == lx);
    assert(ascii_lower(d) as u32 == ly);
    lx == ly
}

/// Whether two texts are equal once ASCII capitals are made small, as
/// `str::eq_ignore_ascii_case` decides.
pub(crate) fn eq_ignore_case(a: &str, b: &str) -> (r: bool)
    ensures
        r == (lower(a@) == lower(b@)),
{
    let x = chars_of(a);
    let y = chars_of(b);
    if x.len() != y.len() {
        assert(lower(a@).len() != lower(b@).len());
        return false;
    }
    let mut i: usize = 0;
    while i < x.len()
        invariant
            x@ == a@,
            y@ == b@,
            x@.len() == y@.len(),
            i <= x@.len(),
            forall|j: int| 0 <= j < i ==> ascii_lower(#[trigger] x@[j]) == ascii_lower(y@[j]),
        decreases x.len() - i,
    {
        if !same_ignoring_case(x[i], y[i]) {
            assert(lower(a@)[i as int] != lower(b@)[i as int]);
            return false;
        }
        i += 1;
    }
    assert(lower(a@) =~= lower(b@));
    true
}

/// `str::to_ascii_lowercase`: a copy with ASCII capitals made small.
#[verifier::external_body]
pub(crate) fn to_lower(s: &str) -> (r: String)
    ensures
        r@ == lower(s@),
{
    s.to_ascii_lowercase()
}

/// A string holding a single character, from `char::to_string`.
#[verifier::external_body]
pub(crate) fn char_text(c: char) -> (r: String)
    ensures
        r@ == seq![c],
{
    c.to_string()
}

// ---------------------------------------------------------------------------
// Tokenizing
// ---------------------------------------------------------------------------

fn same_at(t: &Vec<char>, i: usize, sep: &Vec<char>) -> (r: bool)
    requires
        i + sep.len() <= t.len(),
    ensures
        r == (t@.subrange(i as int, i + sep.len()) == sep@),
{
    let mut k: usize = 0;
    while k < sep.len()
        invariant
            i + sep.len() <= t.len(),
            k <= sep.len(),
            forall|m: int| 0 <= m < k ==> t@[i + m] == sep@[m],
        decreases sep.len() - k,
    {
        if t[i + k] != sep[k] {
            assert(t@.subrange(i as int, i + sep.len())[k as int] != sep@[k as int]);
            return false;
        }
        k += 1;
    }
    assert(t@.subrange(i as int, i + sep.len()) =~= sep@);
    true
}

/// Splits `text` at the occurrences of `sep`, keeping the separators as parts
/// marked `true`; with `skip` the whole text is returned as one part marked `true`.
pub fn split_and_keep<'a>(text: &'a str, sep: &'a str, skip: bool) -> (parts: Vec<(&'a str, bool)>)
    ensures
        parts_view(parts@) == split_keep(text@, sep@, skip),
{
    if skip {
        let parts = vec![(text, true)];
        assert(parts_view(parts@) =~= seq![(text@, true)]);
        return parts;
    }
    let t = chars_of(text);
    let s = chars_of(sep);
    let mut parts: Vec<(&'a str, bool)> = Vec::new();
    if s.len() == 0 {
        let mut k: usize = 0;
        while k < t.len()
            invariant
                k <= t.len(),
                t@ == text@,
                parts_view(parts@) == singles(text@).take(k as int),
            decreases t.len() - k,
        {
            let piece = text.substring_char(k, k + 1);
            let ghost before = parts@;
            parts.push((piece, false));
            proof {
                assert(singles(text@).take(k + 1) =~= singles(text@).take(k as int).push((text@.subrange(k as int, k + 1), false)));
                assert(parts_view(parts@) =~= parts_view(before).push((piece@, false)));
            }
            k += 1;
        }
        assert(singles(text@).take(t.len() as int) =~= singles(text@));
        return parts;
    }
    let mut start: usize = 0;
    let mut i: usize = 0;
    let ghost whole = split_from(text@, sep@, 0, 0);
    while s.len() <= t.len() - i
        invariant
            t@ == text@,
            s@ == sep@,
            s.len() > 0,
            start <= i,
            i <= t.len(),
            parts_view(parts@) + split_from(text@, sep@, start as int, i as int) == whole,
        decreases t.len() - i,
    {
        if same_at(&t, i, &s) {
            let ghost before = parts@;
            if start < i {
                parts.push((text.substring_char(start, i), false));
            }
            parts.push((sep, true));
            proof {
                let mid: Seq<(Seq<char>, bool)> = if start < i {
                    seq![(text@.subrange(start as int, i as int), false)]
                } else {
                    seq![]
                };
                assert(parts_view(parts@) =~= parts_view(before) + mid + seq![(sep@, true)]);
            }
            i = i + s.len();
            start = i;
        } else {
            i += 1;
        }
    }
    if start < t.len() {
        let ghost before = parts@;
        parts.push((text.substring_char(start, t.len()), false));
        assert(parts_view(parts@) =~= parts_view(before) + seq![(text@.subrange(start as int, text@.len() as int), false)]);
    } else {
        assert(parts_view(parts@) =~= parts_view(parts@) + seq![]);
    }
    parts
}

/// Splits each part of a list at `sep`, as `split_and_keep` does, keeping the order.
fn split_each<'a>(parts: &Vec<(&'a str, bool)>, sep: &'a str) -> (out: Vec<(&'a str, bool)>)
    ensures
        parts_view(out@) == split_all(parts_view(parts@), sep@),
{
    let mut out: Vec<(&'a str, bool)> = Vec::new();
    let mut k: usize = 0;
    while k < parts.len()
        invariant
            k <= parts.len(),
            parts_view(out@) == split_all(parts_view(parts@).take(k as int), sep@),
        decreases parts.len() - k,
    {
        let (tok, skip) = parts[k];
        let mut pieces = split_and_keep(tok, sep, skip);
        let ghost before = out@;
        let ghost added = pieces@;
        out.append(&mut pieces);
        proof {
            assert(parts_view(parts@).take(k + 1).drop_last() =~= parts_view(parts@).take(k as int));
            assert(parts_view(out@) =~= parts_view(before) + parts_view(added));
        }
        k += 1;
    }
    assert(parts_view(parts@).take(parts.len() as int) =~= parts_view(parts@));
    out
}

/// The whitespace-separated words of a line.
fn split_words<'a>(line: &'a str) -> (ws: Vec<&'a str>)
    ensures
        strs_view(ws@) == words(line@),
{
    let t = chars_of(line);
    let mut ws: Vec<&'a str> = Vec::new();
    let mut start: usize = 0;
    let mut i: usize = 0;
    while i < t.len()
        invariant
            t@ == line@,
            start <= i <= t.len(),
            strs_view(ws@) + words_from(line@, start as int, i as int) == words(line@),
        decreases t.len() - i,
    {
        if is_space(t[i]) {
            let ghost before = ws@;
            if start < i {
                ws.push(line.substring_char(start, i));
            }
            proof {
                let mid: Seq<Seq<char>> = if start < i {
                    seq![line@.subrange(start as int, i as int)]
                } else {
                    seq![]
                };
                assert(strs_view(ws@) =~= strs_view(before) + mid);
            }
            i += 1;
            start = i;
        } else {
            i += 1;
        }
    }
    if start < t.len() {
        let ghost before = ws@;
        ws.push(line.substring_char(start, t.len()));
        assert(strs_view(ws@) =~= strs_view(before) + seq![line@.subrange(start as int, line@.len() as int)]);
    } else {
        assert(strs_view(ws@) =~= strs_view(ws@) + seq![]);
    }
    ws
}

/// A stream of tokens that can be looked at before it is taken.
pub struct Tokens<'a> {
    toks: Vec<&'a str>,
    pos: usize,
}

impl<'a> Tokens<'a> {
    /// The tokens that have not been taken yet.
    pub closed spec fn rest(&self) -> Seq<Seq<char>> {
        strs_view(self.toks@).skip(self.pos as int)
    }

    pub closed spec fn wf(&self) -> bool {
        self.pos <= self.toks.len()
    }

    /// A stream over the given tokens.
    pub fn from_vec(toks: Vec<&'a str>) -> (r: Self)
        ensures
            r.wf(),
            r.rest() == strs_view(toks@),
    {
        let r = Tokens { toks, pos: 0 };
        assert(r.rest() =~= strs_view(toks@));
        r
    }

    /// Takes the next token.
    pub fn next(&mut self) -> (r: Option<&'a str>)
        requires
            old(self).wf(),
        ensures
            final(self).wf(),
            old(self).rest().len() == 0 ==> r is None && final(self).rest() == old(self).rest(),
            old(self).rest().len() > 0 ==> r is Some && r.unwrap()@ == old(self).rest()[0]
                && final(self).rest() == old(self).rest().drop_first(),
    {
        if self.pos < self.toks.len() {
            let t = self.toks[self.pos];
            self.pos = self.pos + 1;
            assert(self.rest() =~= old(self).rest().drop_first());
            Some(t)
        } else {
            None
        }
    }

    /// The next token, left in place.
    pub fn peek(&self) -> (r: Option<&'a str>)
        requires
            self.wf(),
        ensures
            self.rest().len() == 0 ==> r is None,
            self.rest().len() > 0 ==> r is Some && r.unwrap()@ == self.rest()[0],
    {
        if self.pos < self.toks.len() {
            Some(self.toks[self.pos])
        } else {
            None
        }
    }
}

/// The token stream of a command line: its words, with the operators
/// `,` `:` `<=` `>=` `!=` `=` `<` `>` split off into tokens of their own.
pub fn token_stream<'a>(string: &'a str) -> (r: Tokens<'a>)
    ensures
        r.wf(),
        r.rest() == token_list(string@),
{
    let ws = split_words(string);
    let mut parts: Vec<(&'a str, bool)> = Vec::new();
    let mut k: usize = 0;
    while k < ws.len()
        invariant
            k <= ws.len(),
            parts_view(parts@) == unmarked(strs_view(ws@).take(k as int)),
        decreases ws.len() - k,
    {
        let ghost before = parts@;
        parts.push((ws[k], false));
        proof {
            assert(strs_view(ws@).take(k + 1) =~= strs_view(ws@).take(k as int).push(ws@[k as int]@));
            assert(parts_view(parts@) =~= parts_view(before).push((ws@[k as int]@, false)));
            assert(unmarked(strs_view(ws@).take(k + 1)) =~= unmarked(strs_view(ws@).take(k as int)).push((ws@[k as int]@, false)));
        }
        k += 1;
    }
    assert(strs_view(ws@).take(ws.len() as int) =~= strs_view(ws@));
    assert(parts_view(parts@) == split_stage(string@, 0));
    let p1 = split_each(&parts, ",");
    let p2 = split_each(&p1, ":");
    let p3 = split_each(&p2, "<=");
    let p4 = split_each(&p3, ">=");
    let p5 = split_each(&p4, "!=");
    let p6 = split_each(&p5, "=");
    let p7 = split_each(&p6, "<");
    let p8 = split_each(&p7, ">");
    proof {
        reveal_strlit(",");
        reveal_strlit(":");
        reveal_strlit("<=");
        reveal_strlit(">=");
        reveal_strlit("!=");
        reveal_strlit("=");
        reveal_strlit("<");
        reveal_strlit(">");
        assert(","@ =~= operator(0));
        assert(":"@ =~= operator(1));
        assert("<="@ =~= operator(2));
        assert(">="@ =~= operator(3));
        assert("!="@ =~= operator(4));
        assert("="@ =~= operator(5));
        assert("<"@ =~= operator(6));
        assert(">"@ =~= operator(7));
        reveal_with_fuel(split_stage, 9);
    }
    let mut toks: Vec<&'a str> = Vec::new();
    let mut m: usize = 0;
    while m < p8.len()
        invariant
            m <= p8.len(),
            parts_view(p8@) == split_stage(string@, 8),
            strs_view(toks@) == firsts(parts_view(p8@).take(m as int)),
        decreases p8.len() - m,
    {
        let ghost before = toks@;
        toks.push(p8[m].0);
        proof {
            assert(parts_view(p8@).take(m + 1) =~= parts_view(p8@).take(m as int).push(parts_view(p8@)[m as int]));
            assert(strs_view(toks@) =~= strs_view(before).push(p8@[m as int].0@));
            assert(firsts(parts_view(p8@).take(m + 1)) =~= firsts(parts_view(p8@).take(m as int)).push(p8@[m as int].0@));
        }
        m += 1;
    }
    assert(parts_view(p8@).take(p8.len() as int) =~= parts_view(p8@));
    Tokens::from_vec(toks)
}

// ---------------------------------------------------------------------------
// Reading tokens
// ---------------------------------------------------------------------------

pub open spec fn is_missing_token(e: ParseErr, prev: Seq<char>, missing: Seq<char>) -> bool {
    e matches ParseErr::MissingToken { prev: p, missing: m } && p@ == prev && m@ == missing
}

pub open spec fn is_expected_token(e: ParseErr, text: Seq<char>) -> bool {
    e matches ParseErr::ExpectedToken(t) && t@ == text
}

pub open spec fn is_wrong_token(e: ParseErr, expected: Seq<char>, got: Seq<char>) -> bool {
    e matches ParseErr::WrongToken { expected: x, got: g } && x@ == expected && g@ == got
}

/// The position of the first character of `t` outside `charset`, if any.
pub open spec fn first_outside(t: Seq<char>, charset: Seq<char>, from: int) -> Option<int>
    decreases t.len() - from,
{
    if from >= t.len() {
        None
    } else if !charset.contains(t[from]) {
        Some(from)
    } else {
        first_outside(t, charset, from + 1)
    }
}

/// The separators joined by `, `.
pub open spec fn joined(seps: Seq<Seq<char>>) -> Seq<char>
    decreases seps.len(),
{
    if seps.len() == 0 {
        seq![]
    } else if seps.len() == 1 {
        seps[0]
    } else {
        joined(seps.drop_last()) + seq![',', ' '] + seps.last()
    }
}

/// The message of a missing token followed by one of `seps`: `expect[s1, s2, ..]`.
pub open spec fn any_separator_text(expect: Seq<char>, seps: Seq<Seq<char>>) -> Seq<char> {
    expect + seq!['['] + joined(seps) + seq![']']
}

/// The position in `seps` of the first one equal to `next`, if any.
pub open spec fn first_equal(seps: Seq<Seq<char>>, next: Seq<char>, from: int) -> Option<int>
    decreases seps.len() - from,
{
    if from >= seps.len() {
        None
    } else if seps[from] == next {
        Some(from)
    } else {
        first_equal(seps, next, from + 1)
    }
}

pub(crate) fn text_of(s: &str) -> (r: String)
    ensures
        r@ == s@,
{
    String::from_str(s)
}

/// Checks that every character of `token` belongs to `charset`; the first
/// that does not is reported.
pub fn matches_charset<'a>(token: &'a str, charset: &str) -> (r: Result<&'a str, ParseErr>)
    ensures
        first_outside(token@, charset@, 0) is None ==> (r matches Ok(t) && t@ == token@),
        first_outside(token@, charset@, 0) matches Some(k) ==> (r matches Err(
            ParseErr::FieldInvalidChar(c),
        ) && c == token@[k]),
{
    let t = chars_of(token);
    let cs = chars_of(charset);
    let mut i: usize = 0;
    while i < t.len()
        invariant
            t@ == token@,
            cs@ == charset@,
            i <= t.len(),
            first_outside(token@, charset@, 0) == first_outside(token@, charset@, i as int),
        decreases t.len() - i,
    {
        let c = t[i];
        let mut found = false;
        let mut k: usize = 0;
        while k < cs.len()
            invariant
                k <= cs.len(),
                cs@ == charset@,
                found == (exists|m: int| 0 <= m < k && cs@[m] == c),
            decreases cs.len() - k,
        {
            if cs[k] == c {
                found = true;
            }
            k += 1;
        }
        if !found {
            return Err(ParseErr::FieldInvalidChar(c));
        }
        assert(charset@.contains(c));
        i += 1;
    }
    Ok(token)
}

/// Takes the next token; a missing one is reported as missing after `prev`.
pub fn next_token<'a>(iter: &mut Tokens<'a>, prev: &str, expect: &str) -> (r: Result<&'a str, ParseErr>)
    requires
        old(iter).wf(),
    ensures
        final(iter).wf(),
        old(iter).rest().len() > 0 ==> (r matches Ok(t) && t@ == old(iter).rest()[0]
            && final(iter).rest() == old(iter).rest().drop_first()),
        old(iter).rest().len() == 0 ==> (r matches Err(e) && is_missing_token(e, prev@, expect@)
            && final(iter).rest() == old(iter).rest()),
{
    match iter.next() {
        Some(t) => Ok(t),
        None => Err(ParseErr::MissingToken { prev: text_of(prev), missing: text_of(expect) }),
    }
}

/// Takes the next token and checks that it is `expect`, ignoring ASCII case.
pub fn expect_token<'a>(iter: &mut Tokens<'a>, prev: &str, expect: &str) -> (r: Result<&'a str, ParseErr>)
    requires
        old(iter).wf(),
    ensures
        final(iter).wf(),
        final(iter).rest() == if old(iter).rest().len() > 0 {
            old(iter).rest().drop_first()
        } else {
            old(iter).rest()
        },
        (old(iter).rest().len() > 0 && lower(old(iter).rest()[0]) == lower(expect@)) ==> (r matches Ok(t)
            && t@ == old(iter).rest()[0]),
        !(old(iter).rest().len() > 0 && lower(old(iter).rest()[0]) == lower(expect@)) ==> (r matches Err(e)
            && is_missing_token(e, prev@, expect@)),
{
    match iter.next() {
        Some(tok) => {
            if eq_ignore_case(tok, expect) {
                Ok(tok)
            } else {
                Err(ParseErr::MissingToken { prev: text_of(prev), missing: text_of(expect) })
            }
        },
        None => Err(ParseErr::MissingToken { prev: text_of(prev), missing: text_of(expect) }),
    }
}

/// Whether `tok` ends with `sep`, as `str::ends_with` decides it.
pub fn token_ends_with(tok: &str, sep: &str) -> (r: bool)
    ensures
        r == ends_with(tok@, sep@),
{
    let t = chars_of(tok);
    let s = chars_of(sep);
    if s.len() > t.len() {
        return false;
    }
    let off = t.len() - s.len();
    let r = same_at(&t, off, &s);
    assert(t@.subrange(off as int, off + s.len()) == tok@.subrange(tok@.len() - sep@.len(), tok@.len() as int));
    r
}

/// `tok` with every trailing repetition of `sep` removed, as `str::trim_end_matches` does.
pub fn trim_end_matches<'a>(tok: &'a str, sep: &str) -> (r: &'a str)
    ensures
        r@ == trim_end(tok@, sep@),
{
    let t = chars_of(tok);
    let s = chars_of(sep);
    let mut end: usize = t.len();
    assert(tok@.subrange(0, end as int) =~= tok@);
    if s.len() > 0 {
        while s.len() <= end && same_at(&t, end - s.len(), &s)
            invariant
                t@ == tok@,
                s@ == sep@,
                s.len() > 0,
                end <= t.len(),
                trim_end(tok@, sep@) == trim_end(tok@.subrange(0, end as int), sep@),
            decreases end,
        {
            assert(tok@.subrange(0, end as int).subrange(0, end - s.len()) =~= tok@.subrange(0, end - s.len()));
            assert(tok@.subrange(0, end as int).subrange(end - s.len(), end as int) =~= t@.subrange(end - s.len(), end as int));
            end = end - s.len();
        }
        proof {
            let cur = tok@.subrange(0, end as int);
            if ends_with(cur, sep@) {
                assert(cur.subrange(cur.len() - sep@.len(), cur.len() as int) =~= t@.subrange(end - s.len(), end as int));
            }
        }
    }
    assert(tok@.subrange(0, t.len() as int) =~= tok@);
    tok.substring_char(0, end)
}

fn is_next<'a>(iter: &Tokens<'a>, sep: &str) -> (r: bool)
    requires
        iter.wf(),
    ensures
        r == (iter.rest().len() > 0 && iter.rest()[0] == sep@),
{
    match iter.peek() {
        Some(next) => str_eq_local(next, sep),
        None => false,
    }
}

fn str_eq_local(a: &str, b: &str) -> (r: bool)
    ensures
        r == (a@ == b@),
{
    crate::text::str_eq(a, b)
}

fn concat(a: &str, b: &str) -> (r: String)
    ensures
        r@ == a@ + b@,
{
    let mut s = String::from_str(a);
    s.append(b);
    s
}

/// Takes a token that must be followed by `sep`, either at its own end
/// (then all trailing copies of `sep` are trimmed) or as the next token
/// (which is then taken too).
pub fn token_separator<'a>(iter: &mut Tokens<'a>, expect: &str, sep: &str) -> (r: Result<&'a str, ParseErr>)
    requires
        old(iter).wf(),
    ensures
        final(iter).wf(),
        ({
            let rest = old(iter).rest();
            if rest.len() == 0 {
                r matches Err(e) && is_expected_token(e, expect@ + sep@) && final(iter).rest() == rest
            } else if ends_with(rest[0], sep@) {
                r matches Ok(t) && t@ == trim_end(rest[0], sep@) && final(iter).rest() == rest.drop_first()
            } else if rest.len() > 1 && rest[1] == sep@ {
                r matches Ok(t) && t@ == rest[0] && final(iter).rest() == rest.skip(2)
            } else {
                r matches Err(e) && is_expected_token(e, expect@ + sep@) && final(iter).rest() == rest.drop_first()
            }
        }),
{
    let ghost rest = iter.rest();
    match iter.next() {
        None => Err(ParseErr::ExpectedToken(concat(expect, sep))),
        Some(tok) => {
            if token_ends_with(tok, sep) {
                return Ok(trim_end_matches(tok, sep));
            }
            if is_next(iter, sep) {
                iter.next();
                assert(iter.rest() =~= rest.skip(2));
                return Ok(tok);
            }
            Err(ParseErr::ExpectedToken(concat(expect, sep)))
        },
    }
}

/// Takes a token that may be followed by `sep`, at its own end or as the
/// next token; `found_sep` is set when it is, and left as it was otherwise.
pub fn token_maybe_separator<'a>(
    iter: &mut Tokens<'a>,
    expect: &str,
    sep: &str,
    found_sep: &mut bool,
) -> (r: Result<&'a str, ParseErr>)
    requires
        old(iter).wf(),
    ensures
        final(iter).wf(),
        ({
            let rest = old(iter).rest();
            if rest.len() == 0 {
                r matches Err(e) && is_expected_token(e, expect@) && final(iter).rest() == rest
                    && *final(found_sep) == *old(found_sep)
            } else if ends_with(rest[0], sep@) {
                r matches Ok(t) && t@ == trim_end(rest[0], sep@) && final(iter).rest() == rest.drop_first()
                    && *final(found_sep)
            } else if rest.len() > 1 && rest[1] == sep@ {
                r matches Ok(t) && t@ == rest[0] && final(iter).rest() == rest.skip(2) && *final(found_sep)
            } else {
                r matches Ok(t) && t@ == rest[0] && final(iter).rest() == rest.drop_first()
                    && *final(found_sep) == *old(found_sep)
            }
        }),
{
    let ghost rest = iter.rest();
    match iter.next() {
        None => Err(ParseErr::ExpectedToken(text_of(expect))),
        Some(tok) => {
            if token_ends_with(tok, sep) {
                *found_sep = true;
                return Ok(trim_end_matches(tok, sep));
            }
            if is_next(iter, sep) {
                iter.next();
                *found_sep = true;
                assert(iter.rest() =~= rest.skip(2));
                return Ok(tok);
            }
            Ok(tok)
        },
    }
}

/// The separators joined by `, `, as `[&str]::join` writes them.
fn join_separators(seps: &[&str]) -> (r: String)
    ensures
        r@ == joined(strs_view(seps@)),
{
    let mut out = String::new();
    let mut k: usize = 0;
    proof {
        reveal_strlit(", ");
    }
    while k < seps.len()
        invariant
            k <= seps.len(),
            out@ == joined(strs_view(seps@).take(k as int)),
        decreases seps.len() - k,
    {
        if k > 0 {
            out.append(", ");
        }
        out.append(seps[k]);
        assert(strs_view(seps@).take(k + 1).drop_last() =~= strs_view(seps@).take(k as int));
        assert(strs_view(seps@).take(k + 1).last() == seps@[k as int]@);
        proof {
            reveal_strlit(", ");
        }
        assert(", "@ =~= seq![',', ' ']);
        if k == 0 {
            assert(out@ =~= joined(strs_view(seps@).take(1)));
        }
        k += 1;
    }
    assert(strs_view(seps@).take(seps.len() as int) =~= strs_view(seps@));
    out
}

/// Takes a token that must be followed, as the next token, by one of
/// `separators`; the first of them that matches is stored in `found_sep`
/// and taken as well.
pub fn token_any_separator<'a>(
    iter: &mut Tokens<'a>,
    expect: &str,
    separators: &[&'a str],
    found_sep: &mut &'a str,
) -> (r: Result<&'a str, ParseErr>)
    requires
        old(iter).wf(),
    ensures
        final(iter).wf(),
        ({
            let rest = old(iter).rest();
            let seps = strs_view(separators@);
            let msg = any_separator_text(expect@, seps);
            if rest.len() == 0 {
                r matches Err(e) && is_expected_token(e, msg) && final(iter).rest() == rest
                    && *final(found_sep) == *old(found_sep)
            } else if rest.len() > 1 && first_equal(seps, rest[1], 0) is Some {
                r matches Ok(t) && t@ == rest[0] && final(iter).rest() == rest.skip(2)
                    && (*final(found_sep))@ == seps[first_equal(seps, rest[1], 0).unwrap()]
            } else {
                r matches Err(e) && is_expected_token(e, msg) && final(iter).rest() == rest.drop_first()
                    && *final(found_sep) == *old(found_sep)
            }
        }),
{
    let ghost rest = iter.rest();
    let ghost seps = strs_view(separators@);
    let mut msg = text_of(expect);
    proof {
        reveal_strlit("[");
        reveal_strlit("]");
    }
    msg.append("[");
    msg.append(join_separators(separators).as_str());
    msg.append("]");
    assert("["@ =~= seq!['[']);
    assert("]"@ =~= seq![']']);
    assert(msg@ =~= any_separator_text(expect@, seps));
    match iter.next() {
        None => Err(ParseErr::ExpectedToken(msg)),
        Some(tok) => {
            let mut k: usize = 0;
            while k < separators.len()
                invariant
                    k <= separators.len(),
                    iter.wf(),
                    iter.rest() == rest.drop_first(),
                    seps == strs_view(separators@),
                    rest.len() > 0,
                    msg@ == any_separator_text(expect@, seps),
                    tok@ == rest[0],
                    rest == old(iter).rest(),
                    *found_sep == *old(found_sep),
                    rest.len() > 1 ==> first_equal(seps, rest[1], 0) == first_equal(seps, rest[1], k as int),
                decreases separators.len() - k,
            {
                assert(seps[k as int] == separators@[k as int]@);
                if is_next(iter, separators[k]) {
                    assert(rest.len() > 1 && rest[1] == iter.rest()[0]);
                    assert(first_equal(seps, rest[1], k as int) == Some(k as int));
                    *found_sep = separators[k];
                    assert((*found_sep)@ == seps[k as int]);
                    iter.next();
                    assert(iter.rest() =~= rest.skip(2));
                    return Ok(tok);
                }
                assert(rest.len() > 1 ==> rest[1] == iter.rest()[0]);
                k += 1;
            }
            Err(ParseErr::ExpectedToken(msg))
        },
    }
}

/// Checks that no token is left; one that is is reported against `expect`.
pub fn expect_empty<'a>(iter: &mut Tokens<'a>, expect: &str) -> (r: Result<(), ParseErr>)
    requires
        old(iter).wf(),
    ensures
        final(iter).wf(),
        old(iter).rest().len() == 0 ==> r is Ok && final(iter).rest() == old(iter).rest(),
        old(iter).rest().len() > 0 ==> (r matches Err(e) && is_wrong_token(e, expect@, old(iter).rest()[0])
            && final(iter).rest() == old(iter).rest().drop_first()),
{
    match iter.next() {
        Some(tok) => Err(ParseErr::WrongToken { expected: text_of(expect), got: text_of(tok) }),
        None => Ok(()),
    }
}

/// Looks at the next token: when there is none, `empty` is set and nothing
/// is returned; when it is `expect` (ignoring ASCII case) it is taken;
/// otherwise it is left and reported as missing after `prev`.
pub fn token_or_empty<'a>(iter: &mut Tokens<'a>, prev: &str, expect: &str, empty: &mut bool) -> (r: Result<
    Option<&'a str>,
    ParseErr,
>)
    requires
        old(iter).wf(),
    ensures
        final(iter).wf(),
        ({
            let rest = old(iter).rest();
            if rest.len() == 0 {
                r matches Ok(None) && *final(empty) && final(iter).rest() == rest
            } else if lower(rest[0]) == lower(expect@) {
                r matches Ok(Some(t)) && t@ == rest[0] && !*final(empty) && final(iter).rest() == rest.drop_first()
            } else {
                r matches Err(e) && is_missing_token(e, prev@, expect@) && !*final(empty)
                    && final(iter).rest() == rest
            }
        }),
{
    match iter.peek() {
        Some(tok) => {
            *empty = false;
            if eq_ignore_case(tok, expect) {
                return Ok(iter.next());
            } else {
                return Err(ParseErr::MissingToken { prev: text_of(prev), missing: text_of(expect) });
            }
        },
        None => {
            *empty = true;
            Ok(None)
        },
    }
}

// ---------------------------------------------------------------------------
// Laws
// ---------------------------------------------------------------------------

proof fn lemma_first_outside_from(t: Seq<char>, charset: Seq<char>, from: int)
    requires
        0 <= from <= t.len(),
    ensures
        first_outside(t, charset, from) is None <==> (forall|i: int|
            from <= i < t.len() ==> charset.contains(#[trigger] t[i])),
        first_outside(t, charset, from) matches Some(k) ==> from <= k < t.len() && !charset.contains(t[k])
            && forall|j: int| from <= j < k ==> charset.contains(#[trigger] t[j]),
    decreases t.len() - from,
{
    if from < t.len() {
        lemma_first_outside_from(t, charset, from + 1);
        if !charset.contains(t[from]) {
            assert(!(forall|i: int| from <= i < t.len() ==> charset.contains(#[trigger] t[i])));
        }
    }
}

/// The check of `matches_charset` passes exactly when every character of
/// the token belongs to the charset; otherwise the character it reports is
/// the first that does not.
pub proof fn law_first_outside(t: Seq<char>, charset: Seq<char>)
    ensures
        first_outside(t, charset, 0) is None <==> (forall|i: int| 0 <= i < t.len() ==> charset.contains(#[trigger] t[i])),
        first_outside(t, charset, 0) matches Some(k) ==> 0 <= k < t.len() && !charset.contains(t[k]) && forall|j: int|
            0 <= j < k ==> charset.contains(#[trigger] t[j]),
{
    lemma_first_outside_from(t, charset, 0);
}

proof fn lemma_first_equal_from(seps: Seq<Seq<char>>, next: Seq<char>, from: int)
    requires
        0 <= from <= seps.len(),
    ensures
        first_equal(seps, next, from) is None <==> (forall|i: int| from <= i < seps.len() ==> #[trigger] seps[i] != next),
        first_equal(seps, next, from) matches Some(k) ==> from <= k < seps.len() && seps[k] == next && forall|j: int|
            from <= j < k ==> #[trigger] seps[j] != next,
    decreases seps.len() - from,
{
    if from < seps.len() {
        lemma_first_equal_from(seps, next, from + 1);
    }
}

/// The separator that `token_any_separator` finds is the first of the list
/// equal to the next token, and it finds one exactly when the list holds
/// the next token.
pub proof fn law_first_equal(seps: Seq<Seq<char>>, next: Seq<char>)
    ensures
        first_equal(seps, next, 0) is Some <==> seps.contains(next),
        first_equal(seps, next, 0) matches Some(k) ==> 0 <= k < seps.len() && seps[k] == next && forall|j: int|
            0 <= j < k ==> #[trigger] seps[j] != next,
{
    lemma_first_equal_from(seps, next, 0);
    if seps.contains(next) {
        let i = choose|i: int| 0 <= i < seps.len() && seps[i] == next;
        assert(seps[i] == next);
    }
}

/// The parts put back together.
pub open spec fn concat_parts(ps: Seq<(Seq<char>, bool)>) -> Seq<char>
    decreases ps.len(),
{
    if ps.len() == 0 {
        seq![]
    } else {
        concat_parts(ps.drop_last()) + ps.last().0
    }
}

proof fn lemma_concat_append(a: Seq<(Seq<char>, bool)>, b: Seq<(Seq<char>, bool)>)
    ensures
        concat_parts(a + b) == concat_parts(a) + concat_parts(b),
    decreases b.len(),
{
    if b.len() == 0 {
        assert(a + b =~= a);
    } else {
        lemma_concat_append(a, b.drop_last());
        assert((a + b).drop_last() =~= a + b.drop_last());
    }
}

proof fn lemma_concat_single(p: (Seq<char>, bool))
    ensures
        concat_parts(seq![p]) == p.0,
{
    let one = seq![p];
    assert(one.drop_last() =~= Seq::<(Seq<char>, bool)>::empty());
    assert(concat_parts(one.drop_last()) == Seq::<char>::empty());
    assert(one.last() == p);
    assert(concat_parts(one) == concat_parts(one.drop_last()) + one.last().0);
    assert(Seq::<char>::empty() + p.0 =~= p.0);
}

/// Every part marked as a separator is the separator; every other part is
/// a non-empty text other than the separator.
pub open spec fn well_split(ps: Seq<(Seq<char>, bool)>, sep: Seq<char>) -> bool {
    forall|k: int|
        0 <= k < ps.len() ==> if (#[trigger] ps[k]).1 {
            ps[k].0 == sep
        } else {
            ps[k].0.len() > 0 && ps[k].0 != sep
        }
}

proof fn lemma_split_from(t: Seq<char>, sep: Seq<char>, start: int, i: int)
    requires
        0 <= start <= i <= t.len(),
        sep.len() > 0,
        forall|q: int| start <= q < i ==> #[trigger] t.subrange(q, q + sep.len()) != sep,
    ensures
        concat_parts(split_from(t, sep, start, i)) == t.subrange(start, t.len() as int),
        well_split(split_from(t, sep, start, i), sep),
    decreases t.len() - i,
{
    let n = t.len() as int;
    let m = sep.len() as int;
    if i + m > n {
        if start < n {
            let tail = t.subrange(start, n);
            if tail == sep {
                assert(t.subrange(start, start + m) == tail);
            }
            lemma_concat_single((tail, false));
        } else {
            assert(t.subrange(start, n) =~= Seq::<char>::empty());
        }
    } else if t.subrange(i, i + m) == sep {
        lemma_split_from(t, sep, i + m, i + m);
        let rest = split_from(t, sep, i + m, i + m);
        let mid = seq![(sep, true)];
        let front: Seq<(Seq<char>, bool)> = if start < i {
            seq![(t.subrange(start, i), false)]
        } else {
            seq![]
        };
        if start < i && t.subrange(start, i) == sep {
            assert(t.subrange(start, start + m) == t.subrange(start, i));
        }
        assert(concat_parts(front) == t.subrange(start, i)) by {
            if start < i {
                lemma_concat_single((t.subrange(start, i), false));
            } else {
                assert(t.subrange(start, i) =~= Seq::<char>::empty());
            }
        }
        lemma_concat_single((sep, true));
        lemma_concat_append(front, mid);
        lemma_concat_append(front + mid, rest);
        assert(t.subrange(start, n) =~= t.subrange(start, i) + sep + t.subrange(i + m, n));
        let all = front + mid + rest;
        assert forall|k: int| 0 <= k < all.len() implies if (#[trigger] all[k]).1 {
            all[k].0 == sep
        } else {
            all[k].0.len() > 0 && all[k].0 != sep
        } by {
            if k >= front.len() + 1 {
                assert(all[k] == rest[k - front.len() - 1]);
            }
        }
    } else {
        lemma_split_from(t, sep, start, i + 1);
    }
}

/// Splitting a text at a non-empty separator keeps the text: the parts,
/// put back together, give it; every part marked as a separator is the
/// separator, and every other part is a non-empty text other than it.
/// With `skip` the text stays whole, as one marked part.
pub proof fn law_split_keeps_text(t: Seq<char>, sep: Seq<char>)
    requires
        sep.len() > 0,
    ensures
        concat_parts(split_keep(t, sep, false)) == t,
        well_split(split_keep(t, sep, false), sep),
        split_keep(t, sep, true) == seq![(t, true)],
{
    lemma_split_from(t, sep, 0, 0);
    assert(t.subrange(0, t.len() as int) =~= t);
}

/// Whether `sep` occurs in `p` at some position.
pub open spec fn occurs_in(sep: Seq<char>, p: Seq<char>) -> bool {
    exists|q: int| 0 <= q && q + sep.len() <= p.len() && #[trigger] p.subrange(q, q + sep.len()) == sep
}

proof fn lemma_split_from_pieces(t: Seq<char>, sep: Seq<char>, start: int, i: int)
    requires
        0 <= start <= i <= t.len(),
        sep.len() > 0,
        forall|q: int| start <= q < i ==> #[trigger] t.subrange(q, q + sep.len()) != sep,
    ensures
        forall|k: int|
            0 <= k < split_from(t, sep, start, i).len() && !(#[trigger] split_from(t, sep, start, i)[k]).1
                ==> !occurs_in(sep, split_from(t, sep, start, i)[k].0),
    decreases t.len() - i,
{
    let n = t.len() as int;
    let m = sep.len() as int;
    if i + m > n {
        if start < n {
            let tail = t.subrange(start, n);
            if occurs_in(sep, tail) {
                let q = choose|q: int| 0 <= q && q + m <= tail.len() && #[trigger] tail.subrange(q, q + m) == sep;
                assert(tail.subrange(q, q + m) =~= t.subrange(start + q, start + q + m));
                let at = start + q;
                assert(at < i);
                assert(t.subrange(at, at + sep.len()) != sep);
            }
            assert(!occurs_in(sep, tail));
            let one = seq![(tail, false)];
            assert(split_from(t, sep, start, i) == one);
            assert(one[0] == (tail, false));
        }
    } else if t.subrange(i, i + m) == sep {
        lemma_split_from_pieces(t, sep, i + m, i + m);
        let rest = split_from(t, sep, i + m, i + m);
        let front: Seq<(Seq<char>, bool)> = if start < i {
            seq![(t.subrange(start, i), false)]
        } else {
            seq![]
        };
        let all = front + seq![(sep, true)] + rest;
        assert(split_from(t, sep, start, i) == all);
        if start < i {
            let mid = t.subrange(start, i);
            if occurs_in(sep, mid) {
                let q = choose|q: int| 0 <= q && q + m <= mid.len() && #[trigger] mid.subrange(q, q + m) == sep;
                assert(mid.subrange(q, q + m) =~= t.subrange(start + q, start + q + m));
                let at = start + q;
                assert(t.subrange(at, at + sep.len()) != sep);
            }
        }
        assert forall|k: int| 0 <= k < all.len() && !(#[trigger] all[k]).1 implies !occurs_in(sep, all[k].0) by {
            if k >= front.len() + 1 {
                assert(all[k] == rest[k - front.len() - 1]);
            } else if k < front.len() {
                assert(all[k] == (t.subrange(start, i), false));
            }
        }
    } else {
        lemma_split_from_pieces(t, sep, start, i + 1);
        assert(split_from(t, sep, start, i) == split_from(t, sep, start, i + 1));
    }
}

/// The text with its white space removed.
pub open spec fn without_spaces(t: Seq<char>) -> Seq<char>
    decreases t.len(),
{
    if t.len() == 0 {
        seq![]
    } else if white_space(t[0]) {
        without_spaces(t.drop_first())
    } else {
        seq![t[0]] + without_spaces(t.drop_first())
    }
}

/// The tokens put back together.
pub open spec fn concat_words(ws: Seq<Seq<char>>) -> Seq<char>
    decreases ws.len(),
{
    if ws.len() == 0 {
        seq![]
    } else {
        concat_words(ws.drop_last()) + ws.last()
    }
}

proof fn lemma_concat_firsts(ps: Seq<(Seq<char>, bool)>)
    ensures
        concat_words(firsts(ps)) == concat_parts(ps),
    decreases ps.len(),
{
    if ps.len() > 0 {
        lemma_concat_firsts(ps.drop_last());
        assert(firsts(ps).drop_last() =~= firsts(ps.drop_last()));
    }
}

/// A part of the list is a piece of the parts put back together.
proof fn lemma_part_in_concat(ps: Seq<(Seq<char>, bool)>, k: int, c: char)
    requires
        0 <= k < ps.len(),
        ps[k].0.contains(c),
    ensures
        concat_parts(ps).contains(c),
    decreases ps.len(),
{
    let j = choose|j: int| 0 <= j < ps[k].0.len() && ps[k].0[j] == c;
    if k == ps.len() - 1 {
        assert(concat_parts(ps)[concat_parts(ps.drop_last()).len() + j] == c);
    } else {
        lemma_part_in_concat(ps.drop_last(), k, c);
        let w = choose|w: int| 0 <= w < concat_parts(ps.drop_last()).len() && concat_parts(ps.drop_last())[w] == c;
        assert(concat_parts(ps)[w] == c);
    }
}

/// What holds of the parts once the first `k` operators are split off:
/// each is a non-empty text without white space; a marked one is one of
/// those operators; an unmarked one holds none of them that is a single
/// character, and no occurrence of the others.
pub open spec fn stage_clean(ps: Seq<(Seq<char>, bool)>, k: int) -> bool {
    forall|j: int|
        0 <= j < ps.len() ==> {
            let p = #[trigger] ps[j];
            &&& p.0.len() > 0
            &&& forall|c: char| p.0.contains(c) ==> !white_space(c)
            &&& p.1 ==> exists|m: int| 0 <= m < k && p.0 == operator(m)
            &&& !p.1 ==> forall|m: int| 0 <= m < k && operator(m).len() == 1 ==> !p.0.contains(#[trigger] operator(m)[0])
        }
}

proof fn lemma_words_from(t: Seq<char>, start: int, i: int)
    requires
        0 <= start <= i <= t.len(),
        forall|q: int| start <= q < i ==> !white_space(#[trigger] t[q]),
    ensures
        concat_parts(unmarked(words_from(t, start, i))) == t.subrange(start, i) + without_spaces(
            t.subrange(i, t.len() as int),
        ),
        stage_clean(unmarked(words_from(t, start, i)), 0),
    decreases t.len() - i,
{
    let n = t.len() as int;
    if i >= n {
        assert(t.subrange(i, n) =~= Seq::<char>::empty());
        if start < n {
            let w = t.subrange(start, n);
            assert(unmarked(seq![w]) =~= seq![(w, false)]);
            lemma_concat_single((w, false));
            assert forall|c: char| w.contains(c) implies !white_space(c) by {
                let q = choose|q: int| 0 <= q < w.len() && w[q] == c;
                assert(w[q] == t[start + q]);
            }
        } else {
            assert(unmarked(Seq::<Seq<char>>::empty()) =~= Seq::<(Seq<char>, bool)>::empty());
        }
        assert(t.subrange(start, i) + Seq::<char>::empty() =~= t.subrange(start, i));
    } else if white_space(t[i]) {
        lemma_words_from(t, i + 1, i + 1);
        let rest = unmarked(words_from(t, i + 1, i + 1));
        let front: Seq<(Seq<char>, bool)> = if start < i {
            seq![(t.subrange(start, i), false)]
        } else {
            seq![]
        };
        let front_words: Seq<Seq<char>> = if start < i {
            seq![t.subrange(start, i)]
        } else {
            seq![]
        };
        assert(unmarked(front_words + words_from(t, i + 1, i + 1)) =~= front + rest);
        assert(concat_parts(front) == t.subrange(start, i)) by {
            if start < i {
                lemma_concat_single((t.subrange(start, i), false));
            } else {
                assert(t.subrange(start, i) =~= Seq::<char>::empty());
            }
        }
        lemma_concat_append(front, rest);
        assert(t.subrange(i, n).drop_first() =~= t.subrange(i + 1, n));
        assert(t.subrange(i + 1, i + 1) =~= Seq::<char>::empty());
        assert(Seq::<char>::empty() + without_spaces(t.subrange(i + 1, n)) =~= without_spaces(t.subrange(i + 1, n)));
        let all = front + rest;
        assert forall|j: int| 0 <= j < all.len() implies {
            let p = #[trigger] all[j];
            &&& p.0.len() > 0
            &&& forall|c: char| p.0.contains(c) ==> !white_space(c)
            &&& p.1 ==> exists|m: int| 0 <= m < 0 && p.0 == operator(m)
            &&& !p.1 ==> forall|m: int| 0 <= m < 0 && operator(m).len() == 1 ==> !p.0.contains(#[trigger] operator(m)[0])
        } by {
            if j < front.len() {
                let w = t.subrange(start, i);
                assert(all[j] == (w, false));
                assert forall|c: char| w.contains(c) implies !white_space(c) by {
                    let q = choose|q: int| 0 <= q < w.len() && w[q] == c;
                    assert(w[q] == t[start + q]);
                }
            } else {
                assert(all[j] == rest[j - front.len()]);
            }
        }
    } else {
        lemma_words_from(t, start, i + 1);
        assert(t.subrange(i, n).drop_first() =~= t.subrange(i + 1, n));
        assert(t.subrange(start, i + 1) =~= t.subrange(start, i) + seq![t[i]]);
        assert(t.subrange(start, i) + without_spaces(t.subrange(i, n)) =~= t.subrange(start, i + 1) + without_spaces(
            t.subrange(i + 1, n),
        ));
    }
}

/// The pieces of one part, split at operator `k`, are clean once the
/// operators up to `k` are split off, where the part was clean before.
proof fn lemma_split_keep_clean(p: (Seq<char>, bool), k: int)
    requires
        0 <= k < 8,
        stage_clean(seq![p], k),
    ensures
        stage_clean(split_keep(p.0, operator(k), p.1), k + 1),
        concat_parts(split_keep(p.0, operator(k), p.1)) == p.0,
{
    let sep = operator(k);
    assert(seq![p][0] == p);
    if p.1 {
        lemma_concat_single((p.0, true));
        let pieces = split_keep(p.0, sep, p.1);
        assert forall|j: int| 0 <= j < pieces.len() implies {
            let q = #[trigger] pieces[j];
            &&& q.0.len() > 0
            &&& forall|c: char| q.0.contains(c) ==> !white_space(c)
            &&& q.1 ==> exists|m: int| 0 <= m < k + 1 && q.0 == operator(m)
            &&& !q.1 ==> forall|m: int| 0 <= m < k + 1 && operator(m).len() == 1 ==> !q.0.contains(#[trigger] operator(m)[0])
        } by {
            assert(pieces[j] == p);
            let m = choose|m: int| 0 <= m < k && p.0 == operator(m);
            assert(0 <= m < k + 1 && p.0 == operator(m));
        }
    } else {
        law_split_keeps_text(p.0, sep);
        lemma_split_from_pieces(p.0, sep, 0, 0);
        let pieces = split_keep(p.0, sep, false);
        assert forall|j: int| 0 <= j < pieces.len() implies {
            let q = #[trigger] pieces[j];
            &&& q.0.len() > 0
            &&& forall|c: char| q.0.contains(c) ==> !white_space(c)
            &&& q.1 ==> exists|m: int| 0 <= m < k + 1 && q.0 == operator(m)
            &&& !q.1 ==> forall|m: int| 0 <= m < k + 1 && operator(m).len() == 1 ==> !q.0.contains(#[trigger] operator(m)[0])
        } by {
            let q = pieces[j];
            assert forall|c: char| q.0.contains(c) implies p.0.contains(c) by {
                lemma_part_in_concat(pieces, j, c);
            }
            if q.1 {
                assert(q.0 == sep);
                assert(0 <= k < k + 1 && q.0 == operator(k));
                assert forall|c: char| q.0.contains(c) implies !white_space(c) by {
                    assert(operator(0) == seq![',']);
                    assert(p.0.contains(c));
                }
            } else {
                assert forall|m: int| 0 <= m < k + 1 && operator(m).len() == 1 implies !q.0.contains(
                    #[trigger] operator(m)[0],
                ) by {
                    if m == k {
                        if q.0.contains(operator(m)[0]) {
                            let w = choose|w: int| 0 <= w < q.0.len() && q.0[w] == operator(m)[0];
                            assert(q.0.subrange(w, w + 1) =~= sep);
                        }
                    } else {
                        if q.0.contains(operator(m)[0]) {
                            assert(p.0.contains(operator(m)[0]));
                        }
                    }
                }
            }
        }
    }
}

proof fn lemma_clean_append(a: Seq<(Seq<char>, bool)>, b: Seq<(Seq<char>, bool)>, k: int)
    requires
        stage_clean(a, k),
        stage_clean(b, k),
    ensures
        stage_clean(a + b, k),
{
    assert forall|j: int| 0 <= j < (a + b).len() implies {
        let p = #[trigger] (a + b)[j];
        &&& p.0.len() > 0
        &&& forall|c: char| p.0.contains(c) ==> !white_space(c)
        &&& p.1 ==> exists|m: int| 0 <= m < k && p.0 == operator(m)
        &&& !p.1 ==> forall|m: int| 0 <= m < k && operator(m).len() == 1 ==> !p.0.contains(#[trigger] operator(m)[0])
    } by {
        if j < a.len() {
            assert((a + b)[j] == a[j]);
        } else {
            assert((a + b)[j] == b[j - a.len()]);
        }
    }
}

proof fn lemma_split_all_clean(ps: Seq<(Seq<char>, bool)>, k: int)
    requires
        0 <= k < 8,
        stage_clean(ps, k),
    ensures
        stage_clean(split_all(ps, operator(k)), k + 1),
        concat_parts(split_all(ps, operator(k))) == concat_parts(ps),
    decreases ps.len(),
{
    if ps.len() > 0 {
        let last = ps.last();
        assert(stage_clean(ps.drop_last(), k)) by {
            assert forall|j: int| 0 <= j < ps.drop_last().len() implies #[trigger] ps.drop_last()[j] == ps[j] by {}
        }
        assert(stage_clean(seq![last], k)) by {
            assert(seq![last][0] == ps[ps.len() - 1]);
        }
        lemma_split_all_clean(ps.drop_last(), k);
        lemma_split_keep_clean(last, k);
        lemma_clean_append(split_all(ps.drop_last(), operator(k)), split_keep(last.0, operator(k), last.1), k + 1);
        lemma_concat_append(split_all(ps.drop_last(), operator(k)), split_keep(last.0, operator(k), last.1));
    }
}

proof fn lemma_stage_clean(t: Seq<char>, k: nat)
    requires
        k <= 8,
    ensures
        stage_clean(split_stage(t, k), k as int),
        concat_parts(split_stage(t, k)) == without_spaces(t),
    decreases k,
{
    if k == 0 {
        lemma_words_from(t, 0, 0);
        assert(t.subrange(0, 0) + without_spaces(t.subrange(0, t.len() as int)) =~= without_spaces(t)) by {
            assert(t.subrange(0, t.len() as int) =~= t);
        }
    } else {
        lemma_stage_clean(t, (k - 1) as nat);
        lemma_split_all_clean(split_stage(t, (k - 1) as nat), k - 1);
    }
}

/// The tokens of a command line, put back together, are the line without
/// its white space; no token is empty or holds white space; each is one of
/// the operators `,` `:` `<=` `>=` `!=` `=` `<` `>`, or holds none of the
/// characters `,` `:` `=` `<` `>`.
pub proof fn law_tokens_cover_the_line(t: Seq<char>)
    ensures
        concat_words(token_list(t)) == without_spaces(t),
        forall|j: int|
            0 <= j < token_list(t).len() ==> {
                let w = #[trigger] token_list(t)[j];
                &&& w.len() > 0
                &&& forall|c: char| w.contains(c) ==> !white_space(c)
                &&& (exists|m: int| 0 <= m < 8 && w == operator(m)) || (!w.contains(',') && !w.contains(':')
                    && !w.contains('=') && !w.contains('<') && !w.contains('>'))
            },
{
    lemma_stage_clean(t, 8);
    let ps = split_stage(t, 8);
    lemma_concat_firsts(ps);
    assert forall|j: int| 0 <= j < token_list(t).len() implies {
        let w = #[trigger] token_list(t)[j];
        &&& w.len() > 0
        &&& forall|c: char| w.contains(c) ==> !white_space(c)
        &&& (exists|m: int| 0 <= m < 8 && w == operator(m)) || (!w.contains(',') && !w.contains(':') && !w.contains('=')
            && !w.contains('<') && !w.contains('>'))
    } by {
        let p = ps[j];
        assert(token_list(t)[j] == p.0);
        if !p.1 {
            assert(operator(0) == seq![',']);
            assert(operator(0).len() == 1 && operator(0)[0] == ',');
            assert(operator(1).len() == 1 && operator(1)[0] == ':');
            assert(operator(5).len() == 1 && operator(5)[0] == '=');
            assert(operator(6).len() == 1 && operator(6)[0] == '<');
            assert(operator(7).len() == 1 && operator(7)[0] == '>');
        }
    }
}

/// Where part `k` begins once the parts are put back together.
pub open spec fn part_offset(ps: Seq<(Seq<char>, bool)>, k: int) -> int {
    concat_parts(ps.take(k)).len() as int
}

/// Each part stands at its offset in the parts put back together.
proof fn lemma_part_at_offset(ps: Seq<(Seq<char>, bool)>, k: int)
    requires
        0 <= k < ps.len(),
    ensures
        part_offset(ps, k) + ps[k].0.len() <= concat_parts(ps).len(),
        concat_parts(ps).subrange(part_offset(ps, k), part_offset(ps, k) + ps[k].0.len()) == ps[k].0,
    decreases ps.len(),
{
    let n = ps.len() as int;
    if k == n - 1 {
        assert(ps.take(k) =~= ps.drop_last());
        assert(concat_parts(ps) == concat_parts(ps.drop_last()) + ps[k].0);
        assert(concat_parts(ps).subrange(part_offset(ps, k), part_offset(ps, k) + ps[k].0.len()) =~= ps[k].0);
    } else {
        lemma_part_at_offset(ps.drop_last(), k);
        assert(ps.drop_last().take(k) =~= ps.take(k));
        assert(ps.drop_last()[k] == ps[k]);
        let c = concat_parts(ps.drop_last());
        assert(concat_parts(ps) == c + ps.last().0);
        assert(concat_parts(ps).subrange(part_offset(ps, k), part_offset(ps, k) + ps[k].0.len()) =~= c.subrange(
            part_offset(ps, k),
            part_offset(ps, k) + ps[k].0.len(),
        ));
    }
}

proof fn lemma_split_from_leftmost(t: Seq<char>, sep: Seq<char>, start: int, i: int)
    requires
        0 <= start <= i <= t.len(),
        sep.len() > 0,
        forall|q: int| start <= q < i ==> #[trigger] t.subrange(q, q + sep.len()) != sep,
    ensures
        forall|k: int, q: int|
            #![trigger split_from(t, sep, start, i)[k], t.subrange(q, q + sep.len())]
            0 <= k < split_from(t, sep, start, i).len() && !split_from(t, sep, start, i)[k].1 && start
                + part_offset(split_from(t, sep, start, i), k) <= q < start + part_offset(split_from(t, sep, start, i), k)
                + split_from(t, sep, start, i)[k].0.len() && q + sep.len() <= t.len() ==> t.subrange(q, q + sep.len())
                != sep,
    decreases t.len() - i,
{
    let n = t.len() as int;
    let m = sep.len() as int;
    let ps = split_from(t, sep, start, i);
    if i + m > n {
        if start < n {
            let one = seq![(t.subrange(start, n), false)];
            assert(ps == one);
            assert forall|k: int, q: int|
                #![trigger ps[k], t.subrange(q, q + sep.len())]
                0 <= k < ps.len() && !ps[k].1 && start + part_offset(ps, k) <= q < start + part_offset(ps, k) + ps[k].0.len()
                    && q + sep.len() <= t.len() implies t.subrange(q, q + sep.len()) != sep by {
                assert(ps.take(0) =~= Seq::<(Seq<char>, bool)>::empty());
                assert(q < i);
            }
        }
    } else if t.subrange(i, i + m) == sep {
        lemma_split_from_leftmost(t, sep, i + m, i + m);
        lemma_split_from(t, sep, i + m, i + m);
        let rest = split_from(t, sep, i + m, i + m);
        let mid = seq![(sep, true)];
        let front: Seq<(Seq<char>, bool)> = if start < i {
            seq![(t.subrange(start, i), false)]
        } else {
            seq![]
        };
        assert(ps == front + mid + rest);
        assert(concat_parts(front).len() == i - start) by {
            if start < i {
                lemma_concat_single((t.subrange(start, i), false));
            }
        }
        lemma_concat_single((sep, true));
        assert forall|k: int, q: int|
            #![trigger ps[k], t.subrange(q, q + sep.len())]
            0 <= k < ps.len() && !ps[k].1 && start + part_offset(ps, k) <= q < start + part_offset(ps, k) + ps[k].0.len()
                && q + sep.len() <= t.len() implies t.subrange(q, q + sep.len()) != sep by {
            let f = front.len() as int;
            if k < f {
                assert(ps[k] == (t.subrange(start, i), false));
                assert(ps.take(k) =~= Seq::<(Seq<char>, bool)>::empty());
                assert(q < i);
            } else if k > f {
                let kk = k - f - 1;
                assert(ps[k] == rest[kk]);
                assert(ps.take(k) =~= front + mid + rest.take(kk));
                lemma_concat_append(front, mid);
                lemma_concat_append(front + mid, rest.take(kk));
                assert(part_offset(ps, k) == (i - start) + m + part_offset(rest, kk));
                assert(rest[kk] == rest[kk]);
            }
        }
    } else {
        lemma_split_from_leftmost(t, sep, start, i + 1);
        assert(ps == split_from(t, sep, start, i + 1));
    }
}

/// Splitting a text at a non-empty separator splits at its leftmost
/// matches that do not overlap: each part stands at its place in the
/// text, and no match of the separator begins inside a part that is not
/// marked as one.
pub proof fn law_split_finds_leftmost_matches(t: Seq<char>, sep: Seq<char>)
    requires
        sep.len() > 0,
    ensures
        forall|k: int|
            0 <= k < split_keep(t, sep, false).len() ==> part_offset(split_keep(t, sep, false), k) + (#[trigger] split_keep(
                t,
                sep,
                false,
            )[k]).0.len() <= t.len() && t.subrange(
                part_offset(split_keep(t, sep, false), k),
                part_offset(split_keep(t, sep, false), k) + split_keep(t, sep, false)[k].0.len(),
            ) == split_keep(t, sep, false)[k].0,
        forall|k: int, q: int|
            #![trigger split_keep(t, sep, false)[k], t.subrange(q, q + sep.len())]
            0 <= k < split_keep(t, sep, false).len() && !split_keep(t, sep, false)[k].1 && part_offset(
                split_keep(t, sep, false),
                k,
            ) <= q < part_offset(split_keep(t, sep, false), k) + split_keep(t, sep, false)[k].0.len() && q + sep.len()
                <= t.len() ==> t.subrange(q, q + sep.len()) != sep,
{
    law_split_keeps_text(t, sep);
    lemma_split_from_leftmost(t, sep, 0, 0);
    let ps = split_keep(t, sep, false);
    assert forall|k: int| 0 <= k < ps.len() implies part_offset(ps, k) + (#[trigger] ps[k]).0.len() <= t.len()
        && t.subrange(part_offset(ps, k), part_offset(ps, k) + ps[k].0.len()) == ps[k].0 by {
        lemma_part_at_offset(ps, k);
    }
}

} // verus!
