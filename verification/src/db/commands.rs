//! The grammar of the database's command language: literals, operators,
//! and the commands that create tables, insert, delete and select rows, and
//! read or save command files.
use vstd::prelude::*;
use crate::db::errors::{DbError, InsertErr, ParseErr};
use crate::db::schema::{names_of, type_of_word, FieldType, Schema};
use crate::db::tokens::{expect_empty, expect_token, matches_charset, next_token, token_any_separator, token_maybe_separator, token_or_empty, token_separator, any_separator_text, first_equal, strs_view};
use crate::text::str_eq;
use vstd::string::StringExecFns;
use crate::db::tokens::{chars_of, char_text, eq_ignore_case, lower, text_of, to_lower, Tokens, ends_with, trim_end, first_outside};

verus! {

/// What a parse error says, with its texts as character sequences.
pub enum Fail {
    Empty,
    UnknownCommand(Seq<char>),
    MissingToken(Seq<char>, Seq<char>),
    ExpectedToken(Seq<char>),
    WrongToken(Seq<char>, Seq<char>),
    InvalidType(Seq<char>),
    InvalidLiteral(Seq<char>, Seq<char>),
    FieldExists(Seq<char>),
    FieldInvalidChar(char),
    MissingPrimaryKey(Seq<char>),
    UnknownOperator(Seq<char>),
    /// A field that the table does not have (table, field).
    NoSuchField(Seq<char>, Seq<char>),
    /// A value given for a field that the table does not have (field, table).
    InvalidField(Seq<char>, Seq<char>),
    /// A field of the table that was given no value (field, table).
    MissingField(Seq<char>, Seq<char>),
}

/// The error `e` says what `f` describes.
pub open spec fn fails_as(e: ParseErr, f: Fail) -> bool {
    match f {
        Fail::Empty => e is Empty,
        Fail::UnknownCommand(s) => e matches ParseErr::UnknownCommand(x) && x@ == s,
        Fail::MissingToken(p, m) => e matches ParseErr::MissingToken { prev, missing } && prev@ == p && missing@ == m,
        Fail::ExpectedToken(s) => e matches ParseErr::ExpectedToken(x) && x@ == s,
        Fail::WrongToken(x, g) => e matches ParseErr::WrongToken { expected, got } && expected@ == x && got@ == g,
        Fail::InvalidType(s) => e matches ParseErr::InvalidType(x) && x@ == s,
        Fail::InvalidLiteral(l, t) => e matches ParseErr::InvalidLiteral { literal, typ } && literal@ == l && typ@ == t,
        Fail::FieldExists(s) => e matches ParseErr::FieldExists(x) && x@ == s,
        Fail::FieldInvalidChar(c) => e matches ParseErr::FieldInvalidChar(x) && x == c,
        Fail::MissingPrimaryKey(s) => e matches ParseErr::MissingPrimaryKey(x) && x@ == s,
        Fail::UnknownOperator(s) => e matches ParseErr::UnknownOperator(x) && x@ == s,
        Fail::NoSuchField(t, f) => e matches ParseErr::Database(DbError::Insert(InsertErr::InvalidField { table, field }))
            && table@ == t && field@ == f,
        Fail::InvalidField(f, t) => e matches ParseErr::InvalidField { field, table } && field@ == f && table@ == t,
        Fail::MissingField(f, t) => e matches ParseErr::MissingField { field, table } && field@ == f && table@ == t,
    }
}

/// A value written in a command, read against the type of its column. A
/// floating-point literal is checked against the grammar of `f64` and kept
/// as written, for the caller to read as a number.
#[derive(Debug)]
pub enum Literal {
    Bool(bool),
    Str(String),
    Int(i64),
    Float(String),
}

/// What a literal holds.
pub enum LiteralValue {
    Bool(bool),
    Str(Seq<char>),
    Int(int),
    Float(Seq<char>),
}

/// What `l` holds.
pub open spec fn literal_value(l: Literal) -> LiteralValue {
    match l {
        Literal::Bool(b) => LiteralValue::Bool(b),
        Literal::Str(s) => LiteralValue::Str(s@),
        Literal::Int(i) => LiteralValue::Int(i as int),
        Literal::Float(s) => LiteralValue::Float(s@),
    }
}

/// `true` or `false`, ignoring ASCII case.
pub open spec fn bool_spec(s: Seq<char>) -> Option<bool> {
    if lower(s) == seq!['t', 'r', 'u', 'e'] {
        Some(true)
    } else if lower(s) == seq!['f', 'a', 'l', 's', 'e'] {
        Some(false)
    } else {
        None
    }
}

/// A string literal: text between double quotes, with no double quote
/// inside.
pub open spec fn string_spec(s: Seq<char>) -> Option<Seq<char>> {
    if s.len() >= 2 && s[0] == '"' && s.last() == '"' && !s.subrange(1, s.len() - 1).contains('"') {
        Some(s.subrange(1, s.len() - 1))
    } else {
        None
    }
}

/// A decimal digit.
pub open spec fn is_digit(c: char) -> bool {
    '0' <= c <= '9'
}

/// The number that decimal digits write.
pub open spec fn digits_value(s: Seq<char>) -> int
    decreases s.len(),
{
    if s.len() == 0 {
        0
    } else {
        digits_value(s.drop_last()) * 10 + (s.last() as int - '0' as int)
    }
}

/// `s` without a leading `+` or `-`.
pub open spec fn unsigned_part(s: Seq<char>) -> Seq<char> {
    if s.len() > 0 && (s[0] == '-' || s[0] == '+') { s.drop_first() } else { s }
}

/// One or more decimal digits.
pub open spec fn all_digits(d: Seq<char>) -> bool {
    d.len() > 0 && forall|i: int| 0 <= i < d.len() ==> is_digit(#[trigger] d[i])
}

/// An integer as `i64::from_str` reads it: an optional sign, then one or
/// more decimal digits, within the range of `i64`.
pub open spec fn int_spec(s: Seq<char>) -> Option<int> {
    let v = if s.len() > 0 && s[0] == '-' {
        -digits_value(unsigned_part(s))
    } else {
        digits_value(unsigned_part(s))
    };
    if all_digits(unsigned_part(s)) && i64::MIN <= v <= i64::MAX {
        Some(v)
    } else {
        None
    }
}

/// The position of the first `e` or `E` in `s`, if any.
pub open spec fn first_exp(s: Seq<char>, from: int) -> Option<int>
    decreases s.len() - from,
{
    if from < 0 || from >= s.len() {
        None
    } else if s[from] == 'e' || s[from] == 'E' {
        Some(from)
    } else {
        first_exp(s, from + 1)
    }
}

/// Digits with at most one `.` among them, and at least one digit.
pub open spec fn mantissa_spec(m: Seq<char>) -> bool {
    &&& forall|i: int| 0 <= i < m.len() ==> is_digit(#[trigger] m[i]) || m[i] == '.'
    &&& forall|i: int, j: int| 0 <= i < j < m.len() && #[trigger] m[i] == '.' ==> #[trigger] m[j] != '.'
    &&& exists|i: int| 0 <= i < m.len() && is_digit(#[trigger] m[i])
}

/// A decimal number as the grammar of `f64::from_str` documents it: a
/// mantissa, then optionally `e` or `E` and an integer exponent.
pub open spec fn number_spec(b: Seq<char>) -> bool {
    match first_exp(b, 0) {
        None => mantissa_spec(b),
        Some(k) => mantissa_spec(b.take(k)) && all_digits(unsigned_part(b.skip(k + 1))),
    }
}

/// A text that `f64::from_str` accepts: an optional sign, then `inf`,
/// `infinity` or `nan` in any ASCII case, or a decimal number.
pub open spec fn float_spec(s: Seq<char>) -> bool {
    let b = unsigned_part(s);
    lower(b) == seq!['i', 'n', 'f'] || lower(b) == seq!['i', 'n', 'f', 'i', 'n', 'i', 't', 'y'] || lower(b) == seq![
        'n',
        'a',
        'n',
    ] || number_spec(b)
}

/// Whether `m` is a mantissa: digits with at most one `.`, and one digit
/// at least.
fn is_mantissa(m: &[char]) -> (r: bool)
    ensures
        r == mantissa_spec(m@),
{
    let mut dots: usize = 0;
    let mut digits = false;
    let mut i: usize = 0;
    while i < m.len()
        invariant
            i <= m.len(),
            dots <= 1,
            forall|k: int| 0 <= k < i ==> is_digit(#[trigger] m@[k]) || m@[k] == '.',
            dots == 0 ==> forall|k: int| 0 <= k < i ==> #[trigger] m@[k] != '.',
            dots == 1 ==> exists|k: int| 0 <= k < i && #[trigger] m@[k] == '.',
            dots == 1 ==> forall|a: int, b: int| 0 <= a < b < i && #[trigger] m@[a] == '.' ==> #[trigger] m@[b] != '.',
            digits == exists|k: int| 0 <= k < i && is_digit(#[trigger] m@[k]),
        decreases m.len() - i,
    {
        let c = m[i];
        if c == '.' {
            if dots == 1 {
                let ghost k = choose|k: int| 0 <= k < i && m@[k] == '.';
                assert(m@[k] == '.' && m@[i as int] == '.');
                return false;
            }
            dots = 1;
        } else if !('0' <= c && c <= '9') {
            assert(!(is_digit(m@[i as int]) || m@[i as int] == '.'));
            return false;
        } else {
            digits = true;
        }
        i += 1;
    }
    digits
}

/// Whether `s` is a text that `f64::from_str` accepts.
pub fn is_float_text(s: &str) -> (r: bool)
    ensures
        r == float_spec(s@),
{
    let cs = chars_of(s);
    let n = cs.len();
    let start: usize = if n > 0 && (cs[0] == '-' || cs[0] == '+') {
        1
    } else {
        0
    };
    let ghost b = unsigned_part(s@);
    assert(b =~= s@.subrange(start as int, n as int));
    let body = vstd::slice::slice_subrange(cs.as_slice(), start, n);
    let body_text = s.substring_char(start, n);
    assert(body_text@ =~= b);
    let l = to_lower(body_text);
    proof {
        reveal_strlit("inf");
        reveal_strlit("infinity");
        reveal_strlit("nan");
    }
    assert("inf"@ =~= seq!['i', 'n', 'f']);
    assert("infinity"@ =~= seq!['i', 'n', 'f', 'i', 'n', 'i', 't', 'y']);
    assert("nan"@ =~= seq!['n', 'a', 'n']);
    if str_eq(l.as_str(), "inf") || str_eq(l.as_str(), "infinity") || str_eq(l.as_str(), "nan") {
        return true;
    }
    let mut k: usize = 0;
    while k < body.len() && !(body[k] == 'e' || body[k] == 'E')
        invariant
            k <= body.len(),
            body@ == b,
            first_exp(b, 0) == first_exp(b, k as int),
        decreases body.len() - k,
    {
        k += 1;
    }
    if k == body.len() {
        assert(b.take(k as int) =~= b);
        return is_mantissa(body);
    }
    assert(first_exp(b, 0) == Some(k as int));
    let mant = vstd::slice::slice_subrange(body, 0, k);
    assert(mant@ =~= b.take(k as int));
    if !is_mantissa(mant) {
        return false;
    }
    let exp = vstd::slice::slice_subrange(body, k + 1, body.len());
    assert(exp@ =~= b.skip(k + 1));
    is_exponent(exp)
}

/// Whether `x` is an exponent: an optional sign, then one or more digits.
fn is_exponent(x: &[char]) -> (r: bool)
    ensures
        r == all_digits(unsigned_part(x@)),
{
    let m = x.len();
    let es: usize = if m > 0 && (x[0] == '-' || x[0] == '+') {
        1
    } else {
        0
    };
    assert(unsigned_part(x@) =~= x@.subrange(es as int, m as int));
    if es >= m {
        return false;
    }
    let mut j: usize = es;
    while j < m
        invariant
            es <= j <= m,
            m == x@.len(),
            unsigned_part(x@) == x@.subrange(es as int, m as int),
            forall|t: int| es <= t < j ==> is_digit(#[trigger] x@[t]),
        decreases m - j,
    {
        if !('0' <= x[j] && x[j] <= '9') {
            assert(!is_digit(unsigned_part(x@)[j - es]));
            return false;
        }
        j += 1;
    }
    assert forall|t: int| 0 <= t < unsigned_part(x@).len() implies is_digit(#[trigger] unsigned_part(x@)[t]) by {
        assert(unsigned_part(x@)[t] == x@[t + es]);
    }
    true
}

/// The literal `s` read against the type `t`, or the failure.
pub open spec fn literal_spec(s: Seq<char>, t: FieldType) -> Result<LiteralValue, Fail> {
    match t {
        FieldType::Bool => match bool_spec(s) {
            Some(b) => Ok(LiteralValue::Bool(b)),
            None => Err(Fail::InvalidLiteral(s, seq!['b', 'o', 'o', 'l'])),
        },
        FieldType::String => match string_spec(s) {
            Some(x) => Ok(LiteralValue::Str(x)),
            None => Err(Fail::InvalidLiteral(s, seq!['s', 't', 'r', 'i', 'n', 'g'])),
        },
        FieldType::Int => match int_spec(s) {
            Some(v) => Ok(LiteralValue::Int(v)),
            None => Err(Fail::InvalidLiteral(s, seq!['i', 'n', 't'])),
        },
        FieldType::Float => if float_spec(s) {
            Ok(LiteralValue::Float(s))
        } else {
            Err(Fail::InvalidLiteral(s, seq!['f', 'l', 'o', 'a', 't']))
        },
    }
}

/// The error for a literal `s` that is not of type `t`.
fn invalid_literal(s: &str, t: FieldType) -> (e: ParseErr)
    ensures
        e matches ParseErr::InvalidLiteral { literal, typ } && literal@ == s@ && typ@ == crate::db::schema::type_word(t),
{
    ParseErr::InvalidLiteral { literal: text_of(s), typ: t.to_string() }
}

/// Reads a boolean literal, `true` or `false` in any ASCII case.
pub fn parse_bool(s: &str) -> (r: Result<bool, ParseErr>)
    ensures
        match bool_spec(s@) {
            Some(b) => r == Ok::<bool, ParseErr>(b),
            None => r matches Err(e) && fails_as(e, Fail::InvalidLiteral(s@, seq!['b', 'o', 'o', 'l'])),
        },
{
    proof {
        reveal_strlit("true");
        reveal_strlit("false");
    }
    assert("true"@ =~= seq!['t', 'r', 'u', 'e']);
    assert("false"@ =~= seq!['f', 'a', 'l', 's', 'e']);
    assert(lower("true"@) =~= seq!['t', 'r', 'u', 'e']);
    assert(lower("false"@) =~= seq!['f', 'a', 'l', 's', 'e']);
    if eq_ignore_case(s, "true") {
        Ok(true)
    } else if eq_ignore_case(s, "false") {
        Ok(false)
    } else {
        Err(invalid_literal(s, FieldType::Bool))
    }
}

/// Reads a string literal: the text between double quotes, which holds no
/// double quote itself.
pub fn parse_string_literal(s: &str) -> (r: Result<String, ParseErr>)
    ensures
        match string_spec(s@) {
            Some(x) => r matches Ok(t) && t@ == x,
            None => r matches Err(e) && fails_as(e, Fail::InvalidLiteral(s@, seq!['s', 't', 'r', 'i', 'n', 'g'])),
        },
{
    let cs = chars_of(s);
    let n = cs.len();
    if n < 2 || cs[0] != '"' || cs[n - 1] != '"' {
        return Err(invalid_literal(s, FieldType::String));
    }
    let mut inner = String::new();
    let mut i: usize = 1;
    while i < n - 1
        invariant
            cs@ == s@,
            n == cs@.len(),
            n >= 2,
            1 <= i <= n - 1,
            inner@ == s@.subrange(1, i as int),
            !inner@.contains('"'),
        decreases n - 1 - i,
    {
        if cs[i] == '"' {
            assert(s@.subrange(1, s@.len() - 1)[i - 1] == '"');
            return Err(invalid_literal(s, FieldType::String));
        }
        let ghost before = inner@;
        inner.append(char_text(cs[i]).as_str());
        i += 1;
        assert(inner@ =~= s@.subrange(1, i as int));
        assert(!inner@.contains('"')) by {
            if inner@.contains('"') {
                let k = choose|k: int| 0 <= k < inner@.len() && inner@[k] == '"';
                if k < before.len() {
                    assert(before[k] == '"');
                }
            }
        }
    }
    Ok(inner)
}


proof fn lemma_digits_grow(s: Seq<char>)
    requires
        s.len() > 0,
        forall|i: int| 0 <= i < s.len() ==> is_digit(#[trigger] s[i]),
    ensures
        digits_value(s) >= digits_value(s.drop_last()),
        digits_value(s.drop_last()) >= 0,
    decreases s.len(),
{
    assert(is_digit(s[s.len() - 1]));
    if s.len() > 1 {
        assert forall|i: int| 0 <= i < s.drop_last().len() implies is_digit(#[trigger] s.drop_last()[i]) by {
            assert(s.drop_last()[i] == s[i]);
        }
        lemma_digits_grow(s.drop_last());
    }
}

/// Reads an integer literal as `i64::from_str` does: an optional `+` or
/// `-`, then decimal digits, within the range of `i64`.
pub fn parse_int(s: &str) -> (r: Result<i64, ParseErr>)
    ensures
        match int_spec(s@) {
            Some(v) => r matches Ok(x) && x == v,
            None => r matches Err(e) && fails_as(e, Fail::InvalidLiteral(s@, seq!['i', 'n', 't'])),
        },
{
    let cs = chars_of(s);
    let n = cs.len();
    let neg = n > 0 && cs[0] == '-';
    let start: usize = if n > 0 && (cs[0] == '-' || cs[0] == '+') {
        1
    } else {
        0
    };
    let ghost digits = unsigned_part(s@);
    assert(digits == s@.subrange(start as int, n as int));
    if start >= n {
        assert(digits.len() == 0);
        return Err(invalid_literal(s, FieldType::Int));
    }
    let limit: u64 = 0x8000_0000_0000_0000;
    let mut acc: u64 = 0;
    let mut big = false;
    let mut i: usize = start;
    while i < n
        invariant
            cs@ == s@,
            n == cs@.len(),
            start <= i <= n,
            digits == s@.subrange(start as int, n as int),
            digits == unsigned_part(s@),
            forall|k: int| start <= k < i ==> is_digit(#[trigger] s@[k]),
            !big ==> acc == digits_value(s@.subrange(start as int, i as int)) && acc <= limit,
            big ==> digits_value(s@.subrange(start as int, i as int)) > limit,
            limit == 0x8000_0000_0000_0000u64,
        decreases n - i,
    {
        let c = cs[i];
        if !('0' <= c && c <= '9') {
            assert(!is_digit(digits[i - start]));
            return Err(invalid_literal(s, FieldType::Int));
        }
        let d = (c as u32 - '0' as u32) as u64;
        let ghost before = s@.subrange(start as int, i as int);
        let ghost after = s@.subrange(start as int, i + 1);
        proof {
            assert(after.drop_last() == before);
            assert(after.last() == c);
            assert forall|k: int| 0 <= k < after.len() implies is_digit(#[trigger] after[k]) by {
                assert(after[k] == s@[start + k]);
            }
            lemma_digits_grow(after);
        }
        if !big {
            if acc > (limit - d) / 10 {
                big = true;
                assert(digits_value(after) > limit) by (nonlinear_arith)
                    requires
                        acc > (limit - d) / 10,
                        digits_value(after) == acc * 10 + d,
                        0 <= d <= 9,
                        limit == 0x8000_0000_0000_0000u64,
                ;
            } else {
                assert(acc * 10 + d <= limit) by (nonlinear_arith)
                    requires
                        acc <= (limit - d) / 10,
                        0 <= d <= 9,
                        limit == 0x8000_0000_0000_0000u64,
                ;
                acc = acc * 10 + d;
            }
        }
        i += 1;
    }
    assert(s@.subrange(start as int, n as int) == digits);
    assert(forall|k: int| 0 <= k < digits.len() ==> is_digit(#[trigger] digits[k])) by {
        assert forall|k: int| 0 <= k < digits.len() implies is_digit(#[trigger] digits[k]) by {
            assert(digits[k] == s@[start + k]);
        }
    }
    if big {
        return Err(invalid_literal(s, FieldType::Int));
    }
    if neg {
        if acc == limit {
            Ok(i64::MIN)
        } else {
            Ok(-(acc as i64))
        }
    } else if acc <= 0x7fff_ffff_ffff_ffff {
        Ok(acc as i64)
    } else {
        Err(invalid_literal(s, FieldType::Int))
    }
}

/// Reads the literal `s` against the type `t` of its column; a
/// floating-point literal is checked and kept as written.
pub fn parse_literal(s: &str, t: FieldType) -> (r: Result<Literal, ParseErr>)
    ensures
        match literal_spec(s@, t) {
            Ok(v) => r matches Ok(l) && literal_value(l) == v,
            Err(f) => r matches Err(e) && fails_as(e, f),
        },
{
    match t {
        FieldType::Bool => match parse_bool(s) {
            Ok(b) => Ok(Literal::Bool(b)),
            Err(e) => Err(e),
        },
        FieldType::String => match parse_string_literal(s) {
            Ok(x) => Ok(Literal::Str(x)),
            Err(e) => Err(e),
        },
        FieldType::Int => match parse_int(s) {
            Ok(v) => Ok(Literal::Int(v)),
            Err(e) => Err(e),
        },
        FieldType::Float => if is_float_text(s) {
            Ok(Literal::Float(text_of(s)))
        } else {
            Err(invalid_literal(s, FieldType::Float))
        },
    }
}


// ---------------------------------------------------------------------------
// What each reading step does to the remaining tokens
// ---------------------------------------------------------------------------

/// The characters a field name may hold.
pub const FIELD_NAME_CHARSET: &'static str = "abcdefghijklmnopqrstuvwxyzABCDEFGHIJKLMNOPQRSTUVWXYZ0123456789-_";

/// The token after `prev`, which must be there.
pub open spec fn s_next(rest: Seq<Seq<char>>, prev: Seq<char>, expect: Seq<char>) -> (
    Result<Seq<char>, Fail>,
    Seq<Seq<char>>,
) {
    if rest.len() == 0 {
        (Err(Fail::MissingToken(prev, expect)), rest)
    } else {
        (Ok(rest[0]), rest.drop_first())
    }
}

/// The keyword `expect` after `prev`, in any ASCII case.
pub open spec fn s_expect(rest: Seq<Seq<char>>, prev: Seq<char>, expect: Seq<char>) -> (
    Result<Seq<char>, Fail>,
    Seq<Seq<char>>,
) {
    let after = if rest.len() > 0 { rest.drop_first() } else { rest };
    if rest.len() > 0 && lower(rest[0]) == lower(expect) {
        (Ok(rest[0]), after)
    } else {
        (Err(Fail::MissingToken(prev, expect)), after)
    }
}

/// A token that `sep` must follow, at its own end or as the next token.
pub open spec fn s_sep(rest: Seq<Seq<char>>, expect: Seq<char>, sep: Seq<char>) -> (
    Result<Seq<char>, Fail>,
    Seq<Seq<char>>,
) {
    if rest.len() == 0 {
        (Err(Fail::ExpectedToken(expect + sep)), rest)
    } else if ends_with(rest[0], sep) {
        (Ok(trim_end(rest[0], sep)), rest.drop_first())
    } else if rest.len() > 1 && rest[1] == sep {
        (Ok(rest[0]), rest.skip(2))
    } else {
        (Err(Fail::ExpectedToken(expect + sep)), rest.drop_first())
    }
}

/// A token that `sep` may follow; the flag says whether it did.
pub open spec fn s_maybe(rest: Seq<Seq<char>>, expect: Seq<char>, sep: Seq<char>) -> (
    Result<(Seq<char>, bool), Fail>,
    Seq<Seq<char>>,
) {
    if rest.len() == 0 {
        (Err(Fail::ExpectedToken(expect)), rest)
    } else if ends_with(rest[0], sep) {
        (Ok((trim_end(rest[0], sep), true)), rest.drop_first())
    } else if rest.len() > 1 && rest[1] == sep {
        (Ok((rest[0], true)), rest.skip(2))
    } else {
        (Ok((rest[0], false)), rest.drop_first())
    }
}

/// The end of the tokens.
pub open spec fn s_empty(rest: Seq<Seq<char>>, expect: Seq<char>) -> (Result<(), Fail>, Seq<Seq<char>>) {
    if rest.len() == 0 {
        (Ok(()), rest)
    } else {
        (Err(Fail::WrongToken(expect, rest[0])), rest.drop_first())
    }
}

/// A field name: a token made of the characters of `FIELD_NAME_CHARSET`.
pub open spec fn s_name(tok: Seq<char>) -> Result<Seq<char>, Fail> {
    match first_outside(tok, FIELD_NAME_CHARSET@, 0) {
        None => Ok(tok),
        Some(k) => Err(Fail::FieldInvalidChar(tok[k])),
    }
}

/// The names of a list of columns.
pub open spec fn column_names(fields: Seq<(Seq<char>, FieldType)>) -> Seq<Seq<char>> {
    fields.map_values(|p: (Seq<char>, FieldType)| p.0)
}

/// Columns with their names as character sequences.
pub open spec fn columns_view(fields: Seq<(String, FieldType)>) -> Seq<(Seq<char>, FieldType)> {
    fields.map_values(|p: (String, FieldType)| (p.0@, p.1))
}

/// The column list `name: type, ...` of a `CREATE` command, read onto the
/// columns `fields` read so far.
pub open spec fn create_fields(rest: Seq<Seq<char>>, fields: Seq<(Seq<char>, FieldType)>) -> (
    Result<Seq<(Seq<char>, FieldType)>, Fail>,
    Seq<Seq<char>>,
)
    decreases rest.len(),
{
    let (r1, rest1) = s_sep(rest, "<FIELD_NAME>"@, ":"@);
    match r1 {
        Err(f) => (Err(f), rest1),
        Ok(tok) => match s_name(tok) {
            Err(f) => (Err(f), rest1),
            Ok(name) => {
                let (r2, rest2) = s_maybe(rest1, "<FIELD_TYPE>"@, ","@);
                match r2 {
                    Err(f) => (Err(f), rest2),
                    Ok((word, comma)) => match type_of_word(word) {
                        None => (Err(Fail::InvalidType(lower(word))), rest2),
                        Some(t) => {
                            if column_names(fields).contains(name) {
                                (Err(Fail::FieldExists(name)), rest2)
                            } else if comma {
                                create_fields(rest2, fields.push((name, t)))
                            } else {
                                let (r3, rest3) = s_empty(rest2, ","@);
                                match r3 {
                                    Err(f) => (Err(f), rest3),
                                    Ok(_) => (Ok(fields.push((name, t))), rest3),
                                }
                            }
                        },
                    },
                }
            },
        },
    }
}

/// A `CREATE` command after its name: `<table> KEY <key> FIELDS
/// <name>: <type>, ...`, giving the table, the key and the columns.
pub open spec fn create_spec(rest: Seq<Seq<char>>) -> (
    Result<(Seq<char>, Seq<char>, Seq<(Seq<char>, FieldType)>), Fail>,
    Seq<Seq<char>>,
) {
    let (r1, rest1) = s_next(rest, "CREATE"@, "<TABLE NAME>"@);
    match r1 {
        Err(f) => (Err(f), rest1),
        Ok(table) => {
            let (r2, rest2) = s_expect(rest1, table, "KEY"@);
            match r2 {
                Err(f) => (Err(f), rest2),
                Ok(_) => {
                    let (r3, rest3) = s_next(rest2, "KEY"@, "<KEY_NAME>"@);
                    match r3 {
                        Err(f) => (Err(f), rest3),
                        Ok(key) => {
                            let (r4, rest4) = s_expect(rest3, key, "FIELDS"@);
                            match r4 {
                                Err(f) => (Err(f), rest4),
                                Ok(_) => {
                                    let (r5, rest5) = create_fields(rest4, seq![]);
                                    match r5 {
                                        Err(f) => (Err(f), rest5),
                                        Ok(fields) => if column_names(fields).contains(key) {
                                            (Ok((table, key, fields)), rest5)
                                        } else {
                                            (Err(Fail::MissingPrimaryKey(key)), rest5)
                                        },
                                    }
                                },
                            }
                        },
                    }
                },
            }
        },
    }
}

/// The column list of a `CREATE` command names no column twice.
proof fn lemma_create_fields_distinct(rest: Seq<Seq<char>>, fields: Seq<(Seq<char>, FieldType)>)
    requires
        column_names(fields).no_duplicates(),
    ensures
        create_fields(rest, fields).0 matches Ok(fs) ==> column_names(fs).no_duplicates(),
    decreases rest.len(),
{
    let (r1, rest1) = s_sep(rest, "<FIELD_NAME>"@, ":"@);
    if let Ok(tok) = r1 {
        if let Ok(name) = s_name(tok) {
            let (r2, rest2) = s_maybe(rest1, "<FIELD_TYPE>"@, ","@);
            if let Ok((word, comma)) = r2 {
                if let Some(t) = type_of_word(word) {
                    if !column_names(fields).contains(name) {
                        let more = fields.push((name, t));
                        assert(column_names(more) =~= column_names(fields).push(name));
                        assert(column_names(more).no_duplicates()) by {
                            assert forall|a: int, b: int| 0 <= a < column_names(more).len() && 0 <= b < column_names(more).len() && a != b implies column_names(more)[a] != column_names(more)[b] by {
                                if a < fields.len() && b < fields.len() {
                                    assert(column_names(fields)[a] != column_names(fields)[b]);
                                } else if a < fields.len() {
                                    assert(column_names(fields)[a] != name);
                                } else if b < fields.len() {
                                    assert(column_names(fields)[b] != name);
                                }
                            }
                        }
                        if comma {
                            lemma_create_fields_distinct(rest2, more);
                        }
                    }
                }
            }
        }
    }
}

/// Whether a column called `name` is among `fields`.
fn has_column(fields: &Vec<(String, FieldType)>, name: &str) -> (r: bool)
    ensures
        r == column_names(columns_view(fields@)).contains(name@),
{
    let mut k: usize = 0;
    while k < fields.len()
        invariant
            k <= fields.len(),
            forall|t: int| 0 <= t < k ==> fields@[t].0@ != name@,
        decreases fields.len() - k,
    {
        if str_eq(fields[k].0.as_str(), name) {
            assert(column_names(columns_view(fields@))[k as int] == name@);
            return true;
        }
        k += 1;
    }
    proof {
        if column_names(columns_view(fields@)).contains(name@) {
            let t = choose|t: int| 0 <= t < fields.len() && column_names(columns_view(fields@))[t] == name@;
            assert(fields@[t].0@ == name@);
        }
    }
    false
}

/// Reads the column list of a `CREATE` command.
fn parse_create_fields<'a>(tokens: &mut Tokens<'a>) -> (r: Result<Vec<(String, FieldType)>, ParseErr>)
    requires
        old(tokens).wf(),
    ensures
        final(tokens).wf(),
        final(tokens).rest() == create_fields(old(tokens).rest(), seq![]).1,
        match create_fields(old(tokens).rest(), seq![]).0 {
            Ok(fs) => r matches Ok(v) && columns_view(v@) == fs,
            Err(f) => r matches Err(e) && fails_as(e, f),
        },
{
    let ghost goal = create_fields(tokens.rest(), seq![]);
    let mut fields: Vec<(String, FieldType)> = Vec::new();
    assert(columns_view(fields@) =~= seq![]);
    loop
        invariant
            tokens.wf(),
            create_fields(tokens.rest(), columns_view(fields@)) == goal,
            goal == create_fields(old(tokens).rest(), seq![]),
        decreases tokens.rest().len(),
    {
        let ghost rest = tokens.rest();
        let ghost acc = columns_view(fields@);
        let tok = match token_separator(tokens, "<FIELD_NAME>", ":") {
            Ok(t) => t,
            Err(e) => {
                return Err(e);
            },
        };
        let name = match matches_charset(tok, FIELD_NAME_CHARSET) {
            Ok(t) => t,
            Err(e) => {
                return Err(e);
            },
        };
        let mut comma = false;
        let word = match token_maybe_separator(tokens, "<FIELD_TYPE>", ",", &mut comma) {
            Ok(t) => t,
            Err(e) => {
                return Err(e);
            },
        };
        let t = match FieldType::parse_from(word) {
            Ok(t) => t,
            Err(e) => {
                return Err(e);
            },
        };
        if has_column(&fields, name) {
            return Err(ParseErr::FieldExists(text_of(name)));
        }
        fields.push((text_of(name), t));
        assert(columns_view(fields@) =~= acc.push((name@, t)));
        if !comma {
            match expect_empty(tokens, ",") {
                Ok(_) => {},
                Err(e) => {
                    return Err(e);
                },
            }
            return Ok(fields);
        }
    }
}

/// Reads a `CREATE` command after its name: the table, and its schema.
pub fn parse_create<'a>(tokens: &mut Tokens<'a>) -> (r: Result<(String, Schema), ParseErr>)
    requires
        old(tokens).wf(),
    ensures
        final(tokens).wf(),
        final(tokens).rest() == create_spec(old(tokens).rest()).1,
        match create_spec(old(tokens).rest()).0 {
            Ok((table, key, fs)) => r matches Ok((t, schema)) && t@ == table && schema.wf() && schema.key_name()
                == key && columns_view(schema.column_list()) == fs,
            Err(f) => r matches Err(e) && fails_as(e, f),
        },
{
    let table = match next_token(tokens, "CREATE", "<TABLE NAME>") {
        Ok(t) => t,
        Err(e) => {
            return Err(e);
        },
    };
    match expect_token(tokens, table, "KEY") {
        Ok(_) => {},
        Err(e) => {
            return Err(e);
        },
    }
    let key = match next_token(tokens, "KEY", "<KEY_NAME>") {
        Ok(t) => t,
        Err(e) => {
            return Err(e);
        },
    };
    match expect_token(tokens, key, "FIELDS") {
        Ok(_) => {},
        Err(e) => {
            return Err(e);
        },
    }
    let ghost rest4 = tokens.rest();
    let fields = match parse_create_fields(tokens) {
        Ok(v) => v,
        Err(e) => {
            return Err(e);
        },
    };
    proof {
        lemma_create_fields_distinct(rest4, seq![]);
        assert(names_of(fields@) =~= column_names(columns_view(fields@)));
    }
    match Schema::from_map(fields, key) {
        Some(schema) => Ok((text_of(table), schema)),
        None => Err(ParseErr::MissingPrimaryKey(text_of(key))),
    }
}

// ---------------------------------------------------------------------------
// INSERT
// ---------------------------------------------------------------------------

/// The names of `name = value` pairs.
pub open spec fn pair_names(pairs: Seq<(Seq<char>, Seq<char>)>) -> Seq<Seq<char>> {
    pairs.map_values(|p: (Seq<char>, Seq<char>)| p.0)
}

/// Pairs of strings as pairs of character sequences.
pub open spec fn pairs_view(pairs: Seq<(String, String)>) -> Seq<(Seq<char>, Seq<char>)> {
    pairs.map_values(|p: (String, String)| (p.0@, p.1@))
}

/// The `name = value, ...` list of an `INSERT` command, read onto the pairs
/// `pairs` read so far.
pub open spec fn insert_fields(rest: Seq<Seq<char>>, pairs: Seq<(Seq<char>, Seq<char>)>) -> (
    Result<Seq<(Seq<char>, Seq<char>)>, Fail>,
    Seq<Seq<char>>,
)
    decreases rest.len(),
{
    let (r1, rest1) = s_sep(rest, "<FIELD_NAME>"@, "="@);
    match r1 {
        Err(f) => (Err(f), rest1),
        Ok(tok) => match s_name(tok) {
            Err(f) => (Err(f), rest1),
            Ok(name) => {
                let (r2, rest2) = s_maybe(rest1, "<FIELD_VALUE>"@, ","@);
                match r2 {
                    Err(f) => (Err(f), rest2),
                    Ok((value, comma)) => {
                        if pair_names(pairs).contains(name) {
                            (Err(Fail::FieldExists(name)), rest2)
                        } else if comma {
                            insert_fields(rest2, pairs.push((name, value)))
                        } else {
                            (Ok(pairs.push((name, value))), rest2)
                        }
                    },
                }
            },
        },
    }
}

/// An `INSERT` command after its name: `<name> = <value>, ... INTO
/// <table>`, giving the pairs and the table.
pub open spec fn insert_spec(rest: Seq<Seq<char>>) -> (
    Result<(Seq<(Seq<char>, Seq<char>)>, Seq<char>), Fail>,
    Seq<Seq<char>>,
) {
    let (r1, rest1) = insert_fields(rest, seq![]);
    match r1 {
        Err(f) => (Err(f), rest1),
        Ok(pairs) => {
            let (r2, rest2) = s_expect(rest1, "<FIELD_VALUE>"@, "INTO"@);
            match r2 {
                Err(f) => (Err(f), rest2),
                Ok(_) => {
                    let (r3, rest3) = s_next(rest2, "INTO"@, "<TABLE_NAME>"@);
                    match r3 {
                        Err(f) => (Err(f), rest3),
                        Ok(table) => (Ok((pairs, table)), rest3),
                    }
                },
            }
        },
    }
}

/// Whether a pair called `name` is among `pairs`.
fn has_pair(pairs: &Vec<(String, String)>, name: &str) -> (r: bool)
    ensures
        r == pair_names(pairs_view(pairs@)).contains(name@),
{
    let mut k: usize = 0;
    while k < pairs.len()
        invariant
            k <= pairs.len(),
            forall|t: int| 0 <= t < k ==> pairs@[t].0@ != name@,
        decreases pairs.len() - k,
    {
        if str_eq(pairs[k].0.as_str(), name) {
            assert(pair_names(pairs_view(pairs@))[k as int] == name@);
            return true;
        }
        k += 1;
    }
    proof {
        if pair_names(pairs_view(pairs@)).contains(name@) {
            let t = choose|t: int| 0 <= t < pairs.len() && pair_names(pairs_view(pairs@))[t] == name@;
            assert(pairs@[t].0@ == name@);
        }
    }
    false
}

/// Reads the `name = value, ...` list of an `INSERT` command.
fn parse_insert_fields<'a>(tokens: &mut Tokens<'a>) -> (r: Result<Vec<(String, String)>, ParseErr>)
    requires
        old(tokens).wf(),
    ensures
        final(tokens).wf(),
        final(tokens).rest() == insert_fields(old(tokens).rest(), seq![]).1,
        match insert_fields(old(tokens).rest(), seq![]).0 {
            Ok(ps) => r matches Ok(v) && pairs_view(v@) == ps,
            Err(f) => r matches Err(e) && fails_as(e, f),
        },
{
    let ghost goal = insert_fields(tokens.rest(), seq![]);
    let mut pairs: Vec<(String, String)> = Vec::new();
    assert(pairs_view(pairs@) =~= seq![]);
    loop
        invariant
            tokens.wf(),
            insert_fields(tokens.rest(), pairs_view(pairs@)) == goal,
            goal == insert_fields(old(tokens).rest(), seq![]),
        decreases tokens.rest().len(),
    {
        let ghost acc = pairs_view(pairs@);
        let tok = match token_separator(tokens, "<FIELD_NAME>", "=") {
            Ok(t) => t,
            Err(e) => {
                return Err(e);
            },
        };
        let name = match matches_charset(tok, FIELD_NAME_CHARSET) {
            Ok(t) => t,
            Err(e) => {
                return Err(e);
            },
        };
        let mut comma = false;
        let value = match token_maybe_separator(tokens, "<FIELD_VALUE>", ",", &mut comma) {
            Ok(t) => t,
            Err(e) => {
                return Err(e);
            },
        };
        if has_pair(&pairs, name) {
            return Err(ParseErr::FieldExists(text_of(name)));
        }
        pairs.push((text_of(name), text_of(value)));
        assert(pairs_view(pairs@) =~= acc.push((name@, value@)));
        if !comma {
            return Ok(pairs);
        }
    }
}

/// Reads an `INSERT` command after its name: the `name = value` pairs, in
/// the order written, and the table.
pub fn parse_insert<'a>(tokens: &mut Tokens<'a>) -> (r: Result<(Vec<(String, String)>, String), ParseErr>)
    requires
        old(tokens).wf(),
    ensures
        final(tokens).wf(),
        final(tokens).rest() == insert_spec(old(tokens).rest()).1,
        match insert_spec(old(tokens).rest()).0 {
            Ok((ps, table)) => r matches Ok((v, t)) && pairs_view(v@) == ps && t@ == table,
            Err(f) => r matches Err(e) && fails_as(e, f),
        },
{
    let pairs = match parse_insert_fields(tokens) {
        Ok(v) => v,
        Err(e) => {
            return Err(e);
        },
    };
    match expect_token(tokens, "<FIELD_VALUE>", "INTO") {
        Ok(_) => {},
        Err(e) => {
            return Err(e);
        },
    }
    match next_token(tokens, "INTO", "<TABLE_NAME>") {
        Ok(t) => Ok((pairs, text_of(t))),
        Err(e) => Err(e),
    }
}

/// The name of the first pair, in order, that is not a column of `cols`.
pub open spec fn first_unknown(pairs: Seq<(Seq<char>, Seq<char>)>, cols: Map<Seq<char>, FieldType>) -> Option<
    Seq<char>,
>
    decreases pairs.len(),
{
    if pairs.len() == 0 {
        None
    } else {
        match first_unknown(pairs.drop_last(), cols) {
            Some(x) => Some(x),
            None => if cols.contains_key(pairs.last().0) {
                None
            } else {
                Some(pairs.last().0)
            },
        }
    }
}

/// The first column, in order, that no pair names.
pub open spec fn first_missing(columns: Seq<(Seq<char>, FieldType)>, pairs: Seq<(Seq<char>, Seq<char>)>) -> Option<
    Seq<char>,
>
    decreases columns.len(),
{
    if columns.len() == 0 {
        None
    } else {
        match first_missing(columns.drop_last(), pairs) {
            Some(x) => Some(x),
            None => if pair_names(pairs).contains(columns.last().0) {
                None
            } else {
                Some(columns.last().0)
            },
        }
    }
}

/// The values of the pairs read against the types of their columns, in
/// order; the first that fails is reported.
pub open spec fn values_spec(pairs: Seq<(Seq<char>, Seq<char>)>, cols: Map<Seq<char>, FieldType>) -> Result<
    Seq<(Seq<char>, LiteralValue)>,
    Fail,
>
    decreases pairs.len(),
{
    if pairs.len() == 0 {
        Ok(seq![])
    } else {
        match values_spec(pairs.drop_last(), cols) {
            Err(f) => Err(f),
            Ok(done) => match literal_spec(pairs.last().1, cols[pairs.last().0]) {
                Err(f) => Err(f),
                Ok(v) => Ok(done.push((pairs.last().0, v))),
            },
        }
    }
}

/// A row given as `name = value` pairs, checked against the columns of the
/// table `table`: every pair must name a column, every column must be
/// given, and every value must read as its column's type.
pub open spec fn record_spec(
    pairs: Seq<(Seq<char>, Seq<char>)>,
    columns: Seq<(Seq<char>, FieldType)>,
    cols: Map<Seq<char>, FieldType>,
    table: Seq<char>,
) -> Result<Seq<(Seq<char>, LiteralValue)>, Fail> {
    match first_unknown(pairs, cols) {
        Some(f) => Err(Fail::InvalidField(f, table)),
        None => match first_missing(columns, pairs) {
            Some(f) => Err(Fail::MissingField(f, table)),
            None => values_spec(pairs, cols),
        },
    }
}

/// Named literals with their names and values as spec values.
pub open spec fn named_values(v: Seq<(String, Literal)>) -> Seq<(Seq<char>, LiteralValue)> {
    v.map_values(|p: (String, Literal)| (p.0@, literal_value(p.1)))
}

/// Reads a row of the table `table` from its `name = value` pairs.
pub fn parse_record(pairs: &Vec<(String, String)>, schema: &Schema, table: &str) -> (r: Result<
    Vec<(String, Literal)>,
    ParseErr,
>)
    requires
        schema.wf(),
    ensures
        match record_spec(pairs_view(pairs@), columns_view(schema.column_list()), schema.columns(), table@) {
            Ok(vs) => r matches Ok(v) && named_values(v@) == vs,
            Err(f) => r matches Err(e) && fails_as(e, f),
        },
{
    let ghost ps = pairs_view(pairs@);
    let mut k: usize = 0;
    while k < pairs.len()
        invariant
            schema.wf(),
            k <= pairs.len(),
            ps == pairs_view(pairs@),
            first_unknown(ps.take(k as int), schema.columns()) is None,
        decreases pairs.len() - k,
    {
        assert(ps.take(k + 1).drop_last() =~= ps.take(k as int));
        if schema.field_type(pairs[k].0.as_str()).is_none() {
            proof {
                lemma_first_unknown_prefix(ps, schema.columns(), k + 1);
            }
            return Err(ParseErr::InvalidField { field: pairs[k].0.clone(), table: text_of(table) });
        }
        k += 1;
    }
    assert(ps.take(pairs.len() as int) =~= ps);
    let columns = schema.get_fields();
    let ghost cs = columns_view(columns@);
    let mut m: usize = 0;
    while m < columns.len()
        invariant
            m <= columns.len(),
            cs == columns_view(columns@),
            columns@ == schema.column_list(),
            ps == pairs_view(pairs@),
            first_unknown(ps, schema.columns()) is None,
            first_missing(cs.take(m as int), ps) is None,
        decreases columns.len() - m,
    {
        assert(cs.take(m + 1).drop_last() =~= cs.take(m as int));
        if !has_pair(pairs, columns[m].0.as_str()) {
            proof {
                lemma_first_missing_prefix(cs, ps, m + 1);
            }
            return Err(ParseErr::MissingField { field: columns[m].0.clone(), table: text_of(table) });
        }
        m += 1;
    }
    assert(cs.take(columns.len() as int) =~= cs);
    let mut out: Vec<(String, Literal)> = Vec::new();
    assert(ps.take(0) =~= seq![]);
    assert(named_values(out@) =~= seq![]);
    let mut i: usize = 0;
    while i < pairs.len()
        invariant
            schema.wf(),
            i <= pairs.len(),
            ps == pairs_view(pairs@),
            first_unknown(ps, schema.columns()) is None,
            first_missing(columns_view(schema.column_list()), ps) is None,
            values_spec(ps.take(i as int), schema.columns()) == Ok::<Seq<(Seq<char>, LiteralValue)>, Fail>(named_values(out@)),
        decreases pairs.len() - i,
    {
        assert(ps.take(i + 1).drop_last() =~= ps.take(i as int));
        assert(ps.take(i + 1).last() == ps[i as int]);
        proof {
            lemma_known(ps, schema.columns(), i as int);
        }
        let t = match schema.field_type(pairs[i].0.as_str()) {
            Some(t) => *t,
            None => {
                return Err(ParseErr::Unreachable);
            },
        };
        let v = match parse_literal(pairs[i].1.as_str(), t) {
            Ok(v) => v,
            Err(e) => {
                proof {
                    lemma_values_prefix(ps, schema.columns(), i + 1);
                }
                return Err(e);
            },
        };
        let ghost before = out@;
        out.push((pairs[i].0.clone(), v));
        assert(named_values(out@) =~= named_values(before).push((ps[i as int].0, literal_value(v))));
        i += 1;
    }
    assert(ps.take(pairs.len() as int) =~= ps);
    Ok(out)
}

/// A failure in a prefix of the pairs is the failure of all of them.
proof fn lemma_first_unknown_prefix(ps: Seq<(Seq<char>, Seq<char>)>, cols: Map<Seq<char>, FieldType>, k: int)
    requires
        0 <= k <= ps.len(),
    ensures
        first_unknown(ps.take(k), cols) is Some ==> first_unknown(ps, cols) == first_unknown(ps.take(k), cols),
    decreases ps.len() - k,
{
    if k < ps.len() {
        lemma_first_unknown_prefix(ps, cols, k + 1);
        assert(ps.take(k + 1).drop_last() =~= ps.take(k));
    } else {
        assert(ps.take(k) =~= ps);
    }
}

proof fn lemma_first_missing_prefix(cs: Seq<(Seq<char>, FieldType)>, ps: Seq<(Seq<char>, Seq<char>)>, k: int)
    requires
        0 <= k <= cs.len(),
    ensures
        first_missing(cs.take(k), ps) is Some ==> first_missing(cs, ps) == first_missing(cs.take(k), ps),
    decreases cs.len() - k,
{
    if k < cs.len() {
        lemma_first_missing_prefix(cs, ps, k + 1);
        assert(cs.take(k + 1).drop_last() =~= cs.take(k));
    } else {
        assert(cs.take(k) =~= cs);
    }
}

proof fn lemma_values_prefix(ps: Seq<(Seq<char>, Seq<char>)>, cols: Map<Seq<char>, FieldType>, k: int)
    requires
        0 <= k <= ps.len(),
    ensures
        values_spec(ps.take(k), cols) is Err ==> values_spec(ps, cols) == values_spec(ps.take(k), cols),
    decreases ps.len() - k,
{
    if k < ps.len() {
        lemma_values_prefix(ps, cols, k + 1);
        assert(ps.take(k + 1).drop_last() =~= ps.take(k));
    } else {
        assert(ps.take(k) =~= ps);
    }
}

/// When no pair is unknown, each names a column.
proof fn lemma_known(ps: Seq<(Seq<char>, Seq<char>)>, cols: Map<Seq<char>, FieldType>, i: int)
    requires
        0 <= i < ps.len(),
        first_unknown(ps, cols) is None,
    ensures
        cols.contains_key(ps[i].0),
    decreases ps.len(),
{
    if i < ps.len() - 1 {
        assert(ps.drop_last()[i] == ps[i]);
        lemma_known(ps.drop_last(), cols, i);
    }
}

// ---------------------------------------------------------------------------
// DELETE
// ---------------------------------------------------------------------------

/// A `DELETE` command after its name: `<key> FROM <table>`, giving the key
/// as written and the table.
pub open spec fn delete_spec(rest: Seq<Seq<char>>) -> (Result<(Seq<char>, Seq<char>), Fail>, Seq<Seq<char>>) {
    let (r1, rest1) = s_next(rest, "DELETE"@, "<KEY_VALUE>"@);
    match r1 {
        Err(f) => (Err(f), rest1),
        Ok(key) => {
            let (r2, rest2) = s_expect(rest1, "<KEY_VALUE>"@, "FROM"@);
            match r2 {
                Err(f) => (Err(f), rest2),
                Ok(_) => {
                    let (r3, rest3) = s_next(rest2, "FROM"@, "<TABLE_NAME>"@);
                    match r3 {
                        Err(f) => (Err(f), rest3),
                        Ok(table) => (Ok((key, table)), rest3),
                    }
                },
            }
        },
    }
}

/// Reads a `DELETE` command after its name: the key as written, and the
/// table.
pub fn parse_delete<'a>(tokens: &mut Tokens<'a>) -> (r: Result<(String, String), ParseErr>)
    requires
        old(tokens).wf(),
    ensures
        final(tokens).wf(),
        final(tokens).rest() == delete_spec(old(tokens).rest()).1,
        match delete_spec(old(tokens).rest()).0 {
            Ok((key, table)) => r matches Ok((k, t)) && k@ == key && t@ == table,
            Err(f) => r matches Err(e) && fails_as(e, f),
        },
{
    let key = match next_token(tokens, "DELETE", "<KEY_VALUE>") {
        Ok(t) => t,
        Err(e) => {
            return Err(e);
        },
    };
    match expect_token(tokens, "<KEY_VALUE>", "FROM") {
        Ok(_) => {},
        Err(e) => {
            return Err(e);
        },
    }
    match next_token(tokens, "FROM", "<TABLE_NAME>") {
        Ok(t) => Ok((text_of(key), text_of(t))),
        Err(e) => Err(e),
    }
}

// ---------------------------------------------------------------------------
// SELECT
// ---------------------------------------------------------------------------

/// The `field, ...` list of a `SELECT` command, read onto the names
/// `names` read so far.
pub open spec fn select_fields(rest: Seq<Seq<char>>, names: Seq<Seq<char>>) -> (
    Result<Seq<Seq<char>>, Fail>,
    Seq<Seq<char>>,
)
    decreases rest.len(),
{
    let (r1, rest1) = s_maybe(rest, "<FIELD_NAME>"@, ","@);
    match r1 {
        Err(f) => (Err(f), rest1),
        Ok((tok, comma)) => match s_name(tok) {
            Err(f) => (Err(f), rest1),
            Ok(name) => if comma {
                select_fields(rest1, names.push(name))
            } else {
                (Ok(names.push(name)), rest1)
            },
        },
    }
}

/// A `SELECT` command after its name, up to its table: `<field>, ... FROM
/// <table>`.
pub open spec fn select_spec(rest: Seq<Seq<char>>) -> (Result<(Seq<Seq<char>>, Seq<char>), Fail>, Seq<Seq<char>>) {
    let (r1, rest1) = select_fields(rest, seq![]);
    match r1 {
        Err(f) => (Err(f), rest1),
        Ok(fields) => {
            let (r2, rest2) = s_expect(rest1, "<FIELD_NAME>"@, "FROM"@);
            match r2 {
                Err(f) => (Err(f), rest2),
                Ok(_) => {
                    let (r3, rest3) = s_next(rest2, "FROM"@, "<TABLE_NAME>"@);
                    match r3 {
                        Err(f) => (Err(f), rest3),
                        Ok(table) => (Ok((fields, table)), rest3),
                    }
                },
            }
        },
    }
}

/// Reads the `field, ...` list of a `SELECT` command.
fn parse_select_fields<'a>(tokens: &mut Tokens<'a>) -> (r: Result<Vec<String>, ParseErr>)
    requires
        old(tokens).wf(),
    ensures
        final(tokens).wf(),
        final(tokens).rest() == select_fields(old(tokens).rest(), seq![]).1,
        match select_fields(old(tokens).rest(), seq![]).0 {
            Ok(fields) => r matches Ok(v) && v@.map_values(|x: String| x@) == fields,
            Err(f) => r matches Err(e) && fails_as(e, f),
        },
{
    let ghost goal = select_fields(tokens.rest(), seq![]);
    let mut fields: Vec<String> = Vec::new();
    assert(fields@.map_values(|x: String| x@) =~= seq![]);
    loop
        invariant
            tokens.wf(),
            select_fields(tokens.rest(), fields@.map_values(|x: String| x@)) == goal,
            goal == select_fields(old(tokens).rest(), seq![]),
        decreases tokens.rest().len(),
    {
        let ghost acc = fields@.map_values(|x: String| x@);
        let mut comma = false;
        let tok = match token_maybe_separator(tokens, "<FIELD_NAME>", ",", &mut comma) {
            Ok(t) => t,
            Err(e) => {
                return Err(e);
            },
        };
        let name = match matches_charset(tok, FIELD_NAME_CHARSET) {
            Ok(t) => t,
            Err(e) => {
                return Err(e);
            },
        };
        fields.push(text_of(name));
        assert(fields@.map_values(|x: String| x@) =~= acc.push(name@));
        if !comma {
            return Ok(fields);
        }
    }
}

/// Reads a `SELECT` command after its name, up to its table: the fields,
/// in the order written, and the table. What follows is left for
/// `parse_where`.
pub fn parse_select<'a>(tokens: &mut Tokens<'a>) -> (r: Result<(Vec<String>, String), ParseErr>)
    requires
        old(tokens).wf(),
    ensures
        final(tokens).wf(),
        final(tokens).rest() == select_spec(old(tokens).rest()).1,
        match select_spec(old(tokens).rest()).0 {
            Ok((fields, table)) => r matches Ok((v, t)) && v@.map_values(|x: String| x@) == fields && t@ == table,
            Err(f) => r matches Err(e) && fails_as(e, f),
        },
{
    let fields = match parse_select_fields(tokens) {
        Ok(v) => v,
        Err(e) => {
            return Err(e);
        },
    };
    match expect_token(tokens, "<FIELD_NAME>", "FROM") {
        Ok(_) => {},
        Err(e) => {
            return Err(e);
        },
    }
    match next_token(tokens, "FROM", "<TABLE_NAME>") {
        Ok(t) => Ok((fields, text_of(t))),
        Err(e) => Err(e),
    }
}

/// A comparison of a `WHERE` clause.
#[derive(Clone, Copy, Debug, PartialEq, Eq, Structural)]
pub enum CondOp {
    Equals,
    NotEquals,
    LessThan,
    LessEqual,
    Greater,
    GreaterEqual,
}

/// The operators of a `WHERE` clause, in the order they are tried.
pub open spec fn cond_operators() -> Seq<Seq<char>> {
    seq!["="@, ">"@, "<"@, "!="@, "<="@, ">="@]
}

/// The comparison an operator stands for.
pub open spec fn op_spec(op: Seq<char>) -> Option<CondOp> {
    if op == ">"@ {
        Some(CondOp::Greater)
    } else if op == "<"@ {
        Some(CondOp::LessThan)
    } else if op == "="@ {
        Some(CondOp::Equals)
    } else if op == "!="@ {
        Some(CondOp::NotEquals)
    } else if op == ">="@ {
        Some(CondOp::GreaterEqual)
    } else if op == "<="@ {
        Some(CondOp::LessEqual)
    } else {
        None
    }
}

/// Reads a comparison operator.
pub fn parse_operator(op: &str) -> (r: Result<CondOp, ParseErr>)
    ensures
        match op_spec(op@) {
            Some(c) => r == Ok::<CondOp, ParseErr>(c),
            None => r matches Err(e) && fails_as(e, Fail::UnknownOperator(op@)),
        },
{
    if str_eq(op, ">") {
        Ok(CondOp::Greater)
    } else if str_eq(op, "<") {
        Ok(CondOp::LessThan)
    } else if str_eq(op, "=") {
        Ok(CondOp::Equals)
    } else if str_eq(op, "!=") {
        Ok(CondOp::NotEquals)
    } else if str_eq(op, ">=") {
        Ok(CondOp::GreaterEqual)
    } else if str_eq(op, "<=") {
        Ok(CondOp::LessEqual)
    } else {
        Err(ParseErr::UnknownOperator(text_of(op)))
    }
}

/// A token that one of `seps` must follow as the next token; the first of
/// them that does is given with it.
pub open spec fn s_any(rest: Seq<Seq<char>>, expect: Seq<char>, seps: Seq<Seq<char>>) -> (
    Result<(Seq<char>, Seq<char>), Fail>,
    Seq<Seq<char>>,
) {
    if rest.len() == 0 {
        (Err(Fail::ExpectedToken(any_separator_text(expect, seps))), rest)
    } else if rest.len() > 1 && first_equal(seps, rest[1], 0) is Some {
        (Ok((rest[0], seps[first_equal(seps, rest[1], 0).unwrap()])), rest.skip(2))
    } else {
        (Err(Fail::ExpectedToken(any_separator_text(expect, seps))), rest.drop_first())
    }
}

/// The names of the conditions read so far.
pub open spec fn cond_names(conds: Seq<(Seq<char>, CondOp, LiteralValue)>) -> Seq<Seq<char>> {
    conds.map_values(|c: (Seq<char>, CondOp, LiteralValue)| c.0)
}

/// The `field <op> value, ...` conditions of a `WHERE` clause on the
/// columns `cols` of the table `table`, read onto the conditions `conds`
/// read so far.
pub open spec fn where_conds(
    rest: Seq<Seq<char>>,
    cols: Map<Seq<char>, FieldType>,
    table: Seq<char>,
    conds: Seq<(Seq<char>, CondOp, LiteralValue)>,
) -> (Result<Seq<(Seq<char>, CondOp, LiteralValue)>, Fail>, Seq<Seq<char>>)
    decreases rest.len(),
{
    let (r1, rest1) = s_any(rest, "<FIELD_NAME>"@, cond_operators());
    match r1 {
        Err(f) => (Err(f), rest1),
        Ok((tok, op)) => match s_name(tok) {
            Err(f) => (Err(f), rest1),
            Ok(name) => if !cols.contains_key(name) {
                (Err(Fail::NoSuchField(table, name)), rest1)
            } else {
                let (r2, rest2) = s_maybe(rest1, "<FIELD_VALUE>"@, ","@);
                match r2 {
                    Err(f) => (Err(f), rest2),
                    Ok((value, comma)) => match literal_spec(value, cols[name]) {
                        Err(f) => (Err(f), rest2),
                        Ok(v) => match op_spec(op) {
                            None => (Err(Fail::UnknownOperator(op)), rest2),
                            Some(c) => if cond_names(conds).contains(name) {
                                (Err(Fail::FieldExists(name)), rest2)
                            } else if comma {
                                where_conds(rest2, cols, table, conds.push((name, c, v)))
                            } else {
                                (Ok(conds.push((name, c, v))), rest2)
                            },
                        },
                    },
                }
            },
        },
    }
}

/// The optional `WHERE` clause that ends a `SELECT` command.
pub open spec fn where_spec(rest: Seq<Seq<char>>, cols: Map<Seq<char>, FieldType>, table: Seq<char>) -> (
    Result<Seq<(Seq<char>, CondOp, LiteralValue)>, Fail>,
    Seq<Seq<char>>,
) {
    if rest.len() == 0 {
        (Ok(seq![]), rest)
    } else if lower(rest[0]) == lower("WHERE"@) {
        where_conds(rest.drop_first(), cols, table, seq![])
    } else {
        (Err(Fail::MissingToken("<TABLE_NAME>"@, "WHERE"@)), rest)
    }
}

/// Conditions with their names and values as spec values.
pub open spec fn conds_view(v: Seq<(String, CondOp, Literal)>) -> Seq<(Seq<char>, CondOp, LiteralValue)> {
    v.map_values(|c: (String, CondOp, Literal)| (c.0@, c.1, literal_value(c.2)))
}

/// Whether a condition on `name` is among `conds`.
fn has_condition(conds: &Vec<(String, CondOp, Literal)>, name: &str) -> (r: bool)
    ensures
        r == cond_names(conds_view(conds@)).contains(name@),
{
    let mut k: usize = 0;
    while k < conds.len()
        invariant
            k <= conds.len(),
            forall|t: int| 0 <= t < k ==> conds@[t].0@ != name@,
        decreases conds.len() - k,
    {
        if str_eq(conds[k].0.as_str(), name) {
            assert(cond_names(conds_view(conds@))[k as int] == name@);
            return true;
        }
        k += 1;
    }
    proof {
        if cond_names(conds_view(conds@)).contains(name@) {
            let t = choose|t: int| 0 <= t < conds.len() && cond_names(conds_view(conds@))[t] == name@;
            assert(conds@[t].0@ == name@);
        }
    }
    false
}

/// Reads the `WHERE` clause of a `SELECT` command on the table `table` of
/// schema `schema`: the conditions, in the order written; none when the
/// command ends before it.
pub fn parse_where<'a>(tokens: &mut Tokens<'a>, schema: &Schema, table: &str) -> (r: Result<
    Vec<(String, CondOp, Literal)>,
    ParseErr,
>)
    requires
        old(tokens).wf(),
        schema.wf(),
    ensures
        final(tokens).wf(),
        final(tokens).rest() == where_spec(old(tokens).rest(), schema.columns(), table@).1,
        match where_spec(old(tokens).rest(), schema.columns(), table@).0 {
            Ok(cs) => r matches Ok(v) && conds_view(v@) == cs,
            Err(f) => r matches Err(e) && fails_as(e, f),
        },
{
    let mut empty = false;
    match token_or_empty(tokens, "<TABLE_NAME>", "WHERE", &mut empty) {
        Ok(_) => {},
        Err(e) => {
            return Err(e);
        },
    }
    let mut conds: Vec<(String, CondOp, Literal)> = Vec::new();
    if empty {
        assert(conds_view(conds@) =~= seq![]);
        return Ok(conds);
    }
    let ops: [&str; 6] = ["=", ">", "<", "!=", "<=", ">="];
    assert(strs_view(ops@) =~= cond_operators());
    let ghost goal = where_conds(tokens.rest(), schema.columns(), table@, seq![]);
    assert(conds_view(conds@) =~= seq![]);
    loop
        invariant
            tokens.wf(),
            schema.wf(),
            strs_view(ops@) == cond_operators(),
            where_conds(tokens.rest(), schema.columns(), table@, conds_view(conds@)) == goal,
            goal == where_spec(old(tokens).rest(), schema.columns(), table@),
        decreases tokens.rest().len(),
    {
        let ghost acc = conds_view(conds@);
        let mut found: &str = "";
        let tok = match token_any_separator(tokens, "<FIELD_NAME>", &ops, &mut found) {
            Ok(t) => t,
            Err(e) => {
                return Err(e);
            },
        };
        let name = match matches_charset(tok, FIELD_NAME_CHARSET) {
            Ok(t) => t,
            Err(e) => {
                return Err(e);
            },
        };
        let t = match schema.field_type(name) {
            Some(t) => *t,
            None => {
                return Err(ParseErr::Database(DbError::Insert(InsertErr::InvalidField { table: text_of(table), field: text_of(name) })));
            },
        };
        let mut comma = false;
        let value = match token_maybe_separator(tokens, "<FIELD_VALUE>", ",", &mut comma) {
            Ok(t) => t,
            Err(e) => {
                return Err(e);
            },
        };
        let v = match parse_literal(value, t) {
            Ok(v) => v,
            Err(e) => {
                return Err(e);
            },
        };
        let c = match parse_operator(found) {
            Ok(c) => c,
            Err(e) => {
                return Err(e);
            },
        };
        if has_condition(&conds, name) {
            return Err(ParseErr::FieldExists(text_of(name)));
        }
        let ghost lv = literal_value(v);
        conds.push((text_of(name), c, v));
        assert(conds_view(conds@) =~= acc.push((name@, c, lv)));
        if !comma {
            return Ok(conds);
        }
    }
}

// ---------------------------------------------------------------------------
// The command word, and file names
// ---------------------------------------------------------------------------

/// The commands of the language.
#[derive(Clone, Copy, Debug, PartialEq, Eq, Structural)]
pub enum CommandKind {
    Create,
    Insert,
    Delete,
    Select,
    ReadFrom,
    SaveAs,
}

/// The first token of a command line: the command's name, in any ASCII
/// case.
pub open spec fn command_spec(rest: Seq<Seq<char>>) -> (Result<CommandKind, Fail>, Seq<Seq<char>>) {
    if rest.len() == 0 {
        (Err(Fail::Empty), rest)
    } else {
        let l = lower(rest[0]);
        let kind = if l == "create"@ {
            Some(CommandKind::Create)
        } else if l == "insert"@ {
            Some(CommandKind::Insert)
        } else if l == "delete"@ {
            Some(CommandKind::Delete)
        } else if l == "select"@ {
            Some(CommandKind::Select)
        } else if l == "read_from"@ {
            Some(CommandKind::ReadFrom)
        } else if l == "save_as"@ {
            Some(CommandKind::SaveAs)
        } else {
            None
        };
        match kind {
            Some(k) => (Ok(k), rest.drop_first()),
            None => (Err(Fail::UnknownCommand(l)), rest.drop_first()),
        }
    }
}

/// Reads the name of a command; an unknown one is reported in small
/// letters.
pub fn parse_command_name<'a>(tokens: &mut Tokens<'a>) -> (r: Result<CommandKind, ParseErr>)
    requires
        old(tokens).wf(),
    ensures
        final(tokens).wf(),
        final(tokens).rest() == command_spec(old(tokens).rest()).1,
        match command_spec(old(tokens).rest()).0 {
            Ok(k) => r == Ok::<CommandKind, ParseErr>(k),
            Err(f) => r matches Err(e) && fails_as(e, f),
        },
{
    let tok = match tokens.next() {
        Some(t) => t,
        None => {
            return Err(ParseErr::Empty);
        },
    };
    let name = to_lower(tok);
    let n = name.as_str();
    if str_eq(n, "create") {
        Ok(CommandKind::Create)
    } else if str_eq(n, "insert") {
        Ok(CommandKind::Insert)
    } else if str_eq(n, "delete") {
        Ok(CommandKind::Delete)
    } else if str_eq(n, "select") {
        Ok(CommandKind::Select)
    } else if str_eq(n, "read_from") {
        Ok(CommandKind::ReadFrom)
    } else if str_eq(n, "save_as") {
        Ok(CommandKind::SaveAs)
    } else {
        Err(ParseErr::UnknownCommand(name))
    }
}

/// The file name that ends a `READ_FROM` or `SAVE_AS` command.
pub open spec fn file_spec(rest: Seq<Seq<char>>) -> (Result<Seq<char>, Fail>, Seq<Seq<char>>) {
    let (r1, rest1) = s_next(rest, "READ_FROM"@, "<FILE_NAME>"@);
    match r1 {
        Err(f) => (Err(f), rest1),
        Ok(name) => {
            let (r2, rest2) = s_empty(rest1, "<NEWLINE>"@);
            match r2 {
                Err(f) => (Err(f), rest2),
                Ok(_) => (Ok(name), rest2),
            }
        },
    }
}

/// Reads the file name of a `READ_FROM` or `SAVE_AS` command, which must
/// end the line.
pub fn parse_file_name<'a>(tokens: &mut Tokens<'a>) -> (r: Result<String, ParseErr>)
    requires
        old(tokens).wf(),
    ensures
        final(tokens).wf(),
        final(tokens).rest() == file_spec(old(tokens).rest()).1,
        match file_spec(old(tokens).rest()).0 {
            Ok(name) => r matches Ok(n) && n@ == name,
            Err(f) => r matches Err(e) && fails_as(e, f),
        },
{
    let name = match next_token(tokens, "READ_FROM", "<FILE_NAME>") {
        Ok(t) => t,
        Err(e) => {
            return Err(e);
        },
    };
    match expect_empty(tokens, "<NEWLINE>") {
        Ok(_) => Ok(text_of(name)),
        Err(e) => Err(e),
    }
}

} // verus!
