//! A tiny statement language: expressions over a context of named
//! values, and statements that evaluate them and write their values out.
use vstd::prelude::*;
use vstd::string::StringExecFns;
use crate::text::{decimal, str_eq, u64_text};

verus! {

/// The named values that constants read: a list of (name, value) pairs in
/// which no name occurs twice.
pub struct Context {
    entries: Vec<(&'static str, u64)>,
}

/// The map from names to values that a list of entries describes; a later
/// entry for a name wins over an earlier one.
pub open spec fn entries_map(s: Seq<(&'static str, u64)>) -> Map<Seq<char>, u64>
    decreases s.len(),
{
    if s.len() == 0 {
        Map::empty()
    } else {
        entries_map(s.drop_last()).insert(s.last().0@, s.last().1)
    }
}

/// No name occurs twice.
pub open spec fn distinct_names(s: Seq<(&'static str, u64)>) -> bool {
    forall|i: int, j: int| 0 <= i < j < s.len() ==> s[i].0@ != s[j].0@
}

proof fn lemma_entries_map_at(s: Seq<(&'static str, u64)>, i: int)
    requires
        distinct_names(s),
        0 <= i < s.len(),
    ensures
        entries_map(s).contains_key(s[i].0@),
        entries_map(s)[s[i].0@] == s[i].1,
    decreases s.len(),
{
    if i < s.len() - 1 {
        lemma_entries_map_at(s.drop_last(), i);
    }
}

proof fn lemma_entries_map_dom(s: Seq<(&'static str, u64)>, k: Seq<char>)
    ensures
        entries_map(s).contains_key(k) <==> exists|i: int| 0 <= i < s.len() && s[i].0@ == k,
    decreases s.len(),
{
    if s.len() > 0 {
        lemma_entries_map_dom(s.drop_last(), k);
        if entries_map(s.drop_last()).contains_key(k) {
            let i = choose|i: int| 0 <= i < s.drop_last().len() && s.drop_last()[i].0@ == k;
            assert(s[i].0@ == k);
        }
        if s.last().0@ == k {
            assert(s[s.len() - 1].0@ == k);
        }
        if exists|i: int| 0 <= i < s.len() && s[i].0@ == k {
            let i = choose|i: int| 0 <= i < s.len() && s[i].0@ == k;
            if i < s.len() - 1 {
                assert(s.drop_last()[i].0@ == k);
            }
        }
    }
}

proof fn lemma_entries_map_update(s: Seq<(&'static str, u64)>, i: int, v: u64)
    requires
        distinct_names(s),
        0 <= i < s.len(),
    ensures
        distinct_names(s.update(i, (s[i].0, v))),
        entries_map(s.update(i, (s[i].0, v))) == entries_map(s).insert(s[i].0@, v),
    decreases s.len(),
{
    let t = s.update(i, (s[i].0, v));
    if i == s.len() - 1 {
        assert(t.drop_last() == s.drop_last());
        assert(!entries_map(s.drop_last()).contains_key(s[i].0@)) by {
            lemma_entries_map_dom(s.drop_last(), s[i].0@);
        }
        assert(entries_map(t) =~= entries_map(s).insert(s[i].0@, v));
    } else {
        lemma_entries_map_update(s.drop_last(), i, v);
        assert(t.drop_last() == s.drop_last().update(i, (s[i].0, v)));
        assert(entries_map(t) =~= entries_map(s).insert(s[i].0@, v));
    }
}

impl Context {
    #[verifier::type_invariant]
    spec fn inv(self) -> bool {
        distinct_names(self.entries@)
    }

    /// The names with their values.
    pub closed spec fn values(&self) -> Map<Seq<char>, u64> {
        entries_map(self.entries@)
    }

    /// An empty context.
    pub fn new() -> (c: Context)
        ensures
            c.values() == Map::<Seq<char>, u64>::empty(),
    {
        Context { entries: Vec::new() }
    }

    /// Binds `name` to `value`, replacing an earlier value of the name.
    pub fn insert(&mut self, name: &'static str, value: u64)
        ensures
            final(self).values() == old(self).values().insert(name@, value),
    {
        proof {
            use_type_invariant(&*self);
        }
        let n = self.entries.len();
        let mut i: usize = 0;
        while i < n
            invariant
                n == self.entries.len(),
                i <= n,
                self.entries@ == old(self).entries@,
                distinct_names(self.entries@),
                forall|j: int| 0 <= j < i ==> self.entries@[j].0@ != name@,
            decreases n - i,
        {
            if str_eq(self.entries[i].0, name) {
                let ghost s = self.entries@;
                proof {
                    lemma_entries_map_update(s, i as int, value);
                }
                let mut entries = Vec::new();
                std::mem::swap(&mut entries, &mut self.entries);
                entries.set(i, (entries[i].0, value));
                assert(entries@ == s.update(i as int, (s[i as int].0, value)));
                self.entries = entries;
                return;
            }
            i += 1;
        }
        proof {
            lemma_entries_map_dom(self.entries@, name@);
        }
        let mut entries = Vec::new();
        std::mem::swap(&mut entries, &mut self.entries);
        entries.push((name, value));
        assert(entries@.drop_last() == old(self).entries@);
        self.entries = entries;
    }

    /// The context that binds each name of `pairs` to its value; where a
    /// name occurs twice, the later pair wins.
    pub fn from_pairs(pairs: &[(&'static str, u64)]) -> (c: Context)
        ensures
            c.values() == entries_map(pairs@),
    {
        let mut c = Context::new();
        let n = pairs.len();
        let mut i: usize = 0;
        while i < n
            invariant
                n == pairs@.len(),
                i <= n,
                c.values() == entries_map(pairs@.take(i as int)),
            decreases n - i,
        {
            c.insert(pairs[i].0, pairs[i].1);
            i += 1;
            assert(pairs@.take(i as int).drop_last() == pairs@.take(i - 1));
        }
        assert(pairs@.take(n as int) == pairs@);
        c
    }

    /// A copy of the context.
    pub fn duplicate(&self) -> (c: Context)
        ensures
            c.values() == self.values(),
    {
        proof {
            use_type_invariant(self);
        }
        let n = self.entries.len();
        let mut entries: Vec<(&'static str, u64)> = Vec::new();
        let mut i: usize = 0;
        while i < n
            invariant
                n == self.entries.len(),
                i <= n,
                entries@ == self.entries@.take(i as int),
            decreases n - i,
        {
            entries.push(self.entries[i]);
            i += 1;
            assert(entries@ == self.entries@.take(i as int));
        }
        assert(entries@ == self.entries@);
        Context { entries }
    }

    /// The value bound to `name`, if any.
    pub fn get(&self, name: &str) -> (r: Option<u64>)
        ensures
            r == (if self.values().contains_key(name@) {
                Some(self.values()[name@])
            } else {
                None::<u64>
            }),
    {
        proof {
            use_type_invariant(self);
        }
        let n = self.entries.len();
        let mut i: usize = 0;
        while i < n
            invariant
                n == self.entries.len(),
                i <= n,
                distinct_names(self.entries@),
                forall|j: int| 0 <= j < i ==> self.entries@[j].0@ != name@,
            decreases n - i,
        {
            if str_eq(self.entries[i].0, name) {
                proof {
                    lemma_entries_map_at(self.entries@, i as int);
                }
                return Some(self.entries[i].1);
            }
            i += 1;
        }
        proof {
            lemma_entries_map_dom(self.entries@, name@);
        }
        None
    }
}


/// An expression: evaluating it against a context gives a number and may
/// update values that the expression holds by reference.
///
/// The spec functions describe an expression only where `modelled` holds:
/// the expressions of this module define them; an implementation elsewhere
/// keeps the defaults, and nothing is claimed of its evaluation.
pub trait Expr: Sized {
    /// The spec functions below describe this expression.
    open spec fn modelled(&self) -> bool {
        false
    }

    /// The context names that evaluation may read.
    open spec fn reads(&self) -> Set<Seq<char>> {
        Set::empty()
    }

    /// The number that evaluation gives in `ctx`.
    open spec fn value_in(&self, ctx: Map<Seq<char>, u64>) -> u64 {
        0
    }

    /// `after` is what the expression is once evaluated in `ctx`.
    open spec fn evaluated(&self, ctx: Map<Seq<char>, u64>, after: Self) -> bool {
        true
    }

    fn exec_expr(&mut self, context: &Context) -> (r: u64)
        requires
            old(self).reads().subset_of(context.values().dom()),
        ensures
            old(self).modelled() ==> {
                &&& r == old(self).value_in(context.values())
                &&& old(self).evaluated(context.values(), *final(self))
                &&& final(self).modelled()
            },
            final(self).reads() == old(self).reads(),
    ;
}

/// A statement: executing it in a context may print and may update values
/// that the statement holds by reference.
///
/// As for `Expr`, the spec functions describe a statement only where
/// `modelled` holds.
pub trait Stmt: Sized {
    /// The spec functions below describe this statement.
    open spec fn modelled(&self) -> bool {
        false
    }

    /// The context names that execution may read.
    open spec fn reads(&self) -> Set<Seq<char>> {
        Set::empty()
    }

    /// `after` is what the statement is once executed in `ctx`, and
    /// `written` the text that the execution writes out.
    open spec fn executed(&self, ctx: Map<Seq<char>, u64>, after: Self, written: Seq<char>) -> bool {
        true
    }

    /// Executes the statement, appending what it writes to `out`.
    fn exec_stmt(&mut self, context: &Context, out: &mut String)
        requires
            old(self).reads().subset_of(context.values().dom()),
        ensures
            old(self).modelled() ==> {
                &&& old(out)@.len() <= final(out)@.len()
                &&& final(out)@.take(old(out)@.len() as int) == old(out)@
                &&& old(self).executed(context.values(), *final(self), final(out)@.skip(old(out)@.len() as int))
                &&& final(self).modelled()
            },
            final(self).reads() == old(self).reads(),
    ;
}

/// A number evaluates to itself.
impl Expr for u64 {
    open spec fn modelled(&self) -> bool {
        true
    }

    open spec fn reads(&self) -> Set<Seq<char>> {
        Set::empty()
    }

    open spec fn value_in(&self, ctx: Map<Seq<char>, u64>) -> u64 {
        *self
    }

    open spec fn evaluated(&self, ctx: Map<Seq<char>, u64>, after: Self) -> bool {
        after == *self
    }

    fn exec_expr(&mut self, context: &Context) -> (r: u64) {
        *self
    }
}

/* PRINT */
/// Writes the value of its expression on a line of its own.
pub struct Print<T: Expr> {
    inner: T,
}

/// A statement that prints the value of `inner`.
pub fn print<T: Expr>(inner: T) -> (p: Print<T>)
    ensures
        p.inner() == inner,
{
    Print { inner }
}

impl<T: Expr> Print<T> {
    /// The printed expression.
    pub closed spec fn inner(self) -> T {
        self.inner
    }
}

impl<T: Expr> Stmt for Print<T> {
    open spec fn modelled(&self) -> bool {
        self.inner().modelled()
    }

    open spec fn reads(&self) -> Set<Seq<char>> {
        self.inner().reads()
    }

    /// The expression is evaluated exactly once, and its value written in
    /// decimal, then a line break.
    open spec fn executed(&self, ctx: Map<Seq<char>, u64>, after: Self, written: Seq<char>) -> bool {
        &&& self.inner().evaluated(ctx, after.inner())
        &&& written == decimal(self.inner().value_in(ctx) as int) + "\n"@
    }

    fn exec_stmt(&mut self, context: &Context, out: &mut String) {
        let ghost before = out@;
        let v = self.inner.exec_expr(context);
        let text = u64_text(v);
        out.append(text.as_str());
        out.append("\n");
        proof {
            let w = decimal(v as int) + "\n"@;
            assert(out@ =~= before + w);
            assert(out@.take(before.len() as int) =~= before);
            assert(out@.skip(before.len() as int) =~= w);
        }
    }
}

/* NOTHING */
/// The statement that does nothing.
pub struct Nothing {}

/// The statement that does nothing.
pub fn nothing() -> Nothing {
    Nothing {}
}

impl Stmt for Nothing {
    open spec fn modelled(&self) -> bool {
        true
    }

    open spec fn reads(&self) -> Set<Seq<char>> {
        Set::empty()
    }

    open spec fn executed(&self, ctx: Map<Seq<char>, u64>, after: Self, written: Seq<char>) -> bool {
        written == Seq::<char>::empty()
    }

    fn exec_stmt(&mut self, context: &Context, out: &mut String) {
        assert(out@.take(out@.len() as int) =~= out@);
        assert(out@.skip(out@.len() as int) =~= Seq::<char>::empty());
    }
}

/* SEQUENCE */
/// Two statements, executed one after the other.
pub struct Sequence<T: Stmt, U: Stmt> {
    first: T,
    second: U,
}

/// The statement that executes `first`, then `second`.
pub fn seq<T: Stmt, U: Stmt>(first: T, second: U) -> (s: Sequence<T, U>)
    ensures
        s.first() == first,
        s.second() == second,
{
    Sequence { first, second }
}

impl<T: Stmt, U: Stmt> Sequence<T, U> {
    /// The statement executed first.
    pub closed spec fn first(self) -> T {
        self.first
    }

    /// The statement executed second.
    pub closed spec fn second(self) -> U {
        self.second
    }
}

impl<T: Stmt, U: Stmt> Stmt for Sequence<T, U> {
    open spec fn modelled(&self) -> bool {
        self.first().modelled() && self.second().modelled()
    }

    open spec fn reads(&self) -> Set<Seq<char>> {
        self.first().reads().union(self.second().reads())
    }

    /// The first statement is executed, then the second; what the first
    /// writes comes before what the second writes.
    open spec fn executed(&self, ctx: Map<Seq<char>, u64>, after: Self, written: Seq<char>) -> bool {
        exists|k: int|
            0 <= k <= written.len() && #[trigger] self.first().executed(ctx, after.first(), written.take(k))
                && self.second().executed(ctx, after.second(), written.skip(k))
    }

    fn exec_stmt(&mut self, context: &Context, out: &mut String) {
        let ghost before = out@;
        let ghost second_before = self.second;
        self.first.exec_stmt(context, out);
        let ghost middle = out@;
        self.second.exec_stmt(context, out);
        proof {
            if old(self).modelled() {
                assert(second_before.modelled());
                let n0 = before.len() as int;
                let n1 = middle.len() as int;
                let w = out@.skip(n0);
                assert(out@.take(n1) == middle);
                assert(out@.take(n0) =~= middle.take(n0));
                assert(w.take(n1 - n0) =~= middle.skip(n0));
                assert(w.skip(n1 - n0) =~= out@.skip(n1));
                assert(old(self).first().executed(context.values(), self.first(), w.take(n1 - n0)));
                assert(old(self).second().executed(context.values(), self.second(), w.skip(n1 - n0)));
                assert(out@.take(n0) == before);
                assert(old(self).executed(context.values(), *self, w));
            }
        }
    }
}

/// A sequence executes both of its statements in the context it is given:
/// what it writes is what the first writes, followed by what the second
/// writes.
pub proof fn law_sequence_runs_both<T: Stmt, U: Stmt>(
    s: Sequence<T, U>,
    ctx: Map<Seq<char>, u64>,
    after: Sequence<T, U>,
    written: Seq<char>,
)
    requires
        s.executed(ctx, after, written),
    ensures
        exists|w1: Seq<char>, w2: Seq<char>|
            written == w1 + w2 && #[trigger] s.first().executed(ctx, after.first(), w1) && #[trigger] s.second().executed(
                ctx,
                after.second(),
                w2,
            ),
{
    let k = choose|k: int|
        0 <= k <= written.len() && #[trigger] s.first().executed(ctx, after.first(), written.take(k))
            && s.second().executed(ctx, after.second(), written.skip(k));
    assert(written =~= written.take(k) + written.skip(k));
}

impl<T: Stmt> Sequence<T, Nothing> {
    /// Drops the trailing `Nothing`: the first statement.
    pub fn shorten_1(self) -> (t: T)
        ensures
            t == self.first(),
    {
        self.first
    }
}

impl<T: Stmt> Sequence<Nothing, T> {
    /// Drops the leading `Nothing`: the second statement.
    pub fn shorten_2(self) -> (t: T)
        ensures
            t == self.second(),
    {
        self.second
    }
}

impl Sequence<Nothing, Nothing> {
    /// Two statements that do nothing make one.
    pub fn collapse(self) -> Nothing {
        Nothing {}
    }
}

/* WHEN */
/// A choice: `if_true` where the condition is not zero, else `if_false`.
pub struct When<T: Expr, U: Expr, V: Expr> {
    condition: T,
    if_true: U,
    if_false: V,
}

/// The expression that evaluates `condition`, then `if_true` where it gave
/// a number other than zero and `if_false` where it gave zero.
pub fn when<T: Expr, U: Expr, V: Expr>(condition: T, if_true: U, if_false: V) -> (w: When<T, U, V>)
    ensures
        w.condition() == condition,
        w.if_true() == if_true,
        w.if_false() == if_false,
{
    When { condition, if_true, if_false }
}

impl<T: Expr, U: Expr, V: Expr> When<T, U, V> {
    pub closed spec fn condition(self) -> T {
        self.condition
    }

    pub closed spec fn if_true(self) -> U {
        self.if_true
    }

    pub closed spec fn if_false(self) -> V {
        self.if_false
    }
}

impl<T: Expr, U: Expr, V: Expr> Expr for When<T, U, V> {
    open spec fn modelled(&self) -> bool {
        self.condition().modelled() && self.if_true().modelled() && self.if_false().modelled()
    }

    open spec fn reads(&self) -> Set<Seq<char>> {
        self.condition().reads().union(self.if_true().reads()).union(self.if_false().reads())
    }

    open spec fn value_in(&self, ctx: Map<Seq<char>, u64>) -> u64 {
        if self.condition().value_in(ctx) == 0 {
            self.if_false().value_in(ctx)
        } else {
            self.if_true().value_in(ctx)
        }
    }

    /// The condition is evaluated, then exactly one of the branches.
    open spec fn evaluated(&self, ctx: Map<Seq<char>, u64>, after: Self) -> bool {
        &&& self.condition().evaluated(ctx, after.condition())
        &&& if self.condition().value_in(ctx) == 0 {
            self.if_false().evaluated(ctx, after.if_false()) && after.if_true() == self.if_true()
        } else {
            self.if_true().evaluated(ctx, after.if_true()) && after.if_false() == self.if_false()
        }
    }

    fn exec_expr(&mut self, context: &Context) -> (r: u64) {
        let c = self.condition.exec_expr(context);
        if c == 0 {
            self.if_false.exec_expr(context)
        } else {
            self.if_true.exec_expr(context)
        }
    }
}

/// A choice evaluates its condition, then exactly one branch: `if_false`
/// where the condition gives zero, `if_true` otherwise, and gives the value
/// of that branch; the other branch is left as it was.
pub proof fn law_when_takes_one_branch<T: Expr, U: Expr, V: Expr>(
    w: When<T, U, V>,
    ctx: Map<Seq<char>, u64>,
    after: When<T, U, V>,
)
    requires
        w.evaluated(ctx, after),
    ensures
        w.condition().evaluated(ctx, after.condition()),
        w.condition().value_in(ctx) == 0 ==> w.value_in(ctx) == w.if_false().value_in(ctx) && w.if_false().evaluated(
            ctx,
            after.if_false(),
        ) && after.if_true() == w.if_true(),
        w.condition().value_in(ctx) != 0 ==> w.value_in(ctx) == w.if_true().value_in(ctx) && w.if_true().evaluated(
            ctx,
            after.if_true(),
        ) && after.if_false() == w.if_false(),
{
}

/* CONSTANT */
/// Reads a name from the context.
pub struct Constant {
    name: &'static str,
}

/// The expression that gives the value bound to `name` in the context.
pub fn constant(name: &'static str) -> (c: Constant)
    ensures
        c.name() == name@,
{
    Constant { name }
}

impl Constant {
    pub closed spec fn name(self) -> Seq<char> {
        self.name@
    }
}

impl Expr for Constant {
    open spec fn modelled(&self) -> bool {
        true
    }

    open spec fn reads(&self) -> Set<Seq<char>> {
        set![self.name()]
    }

    open spec fn value_in(&self, ctx: Map<Seq<char>, u64>) -> u64 {
        ctx[self.name()]
    }

    open spec fn evaluated(&self, ctx: Map<Seq<char>, u64>, after: Self) -> bool {
        after == *self
    }

    fn exec_expr(&mut self, context: &Context) -> (r: u64) {
        assert(self.reads().contains(self.name()));
        match context.get(self.name) {
            Some(v) => v,
            None => 0,
        }
    }
}

/* READ FROM */
/// Reads a number through a shared reference.
pub struct ReadFrom<'a> {
    source: &'a u64,
}

/// The expression that gives the number behind `source`.
pub fn read_from<'a>(source: &'a u64) -> (r: ReadFrom<'a>)
    ensures
        r.source() == *source,
{
    ReadFrom { source }
}

impl<'a> ReadFrom<'a> {
    pub closed spec fn source(self) -> u64 {
        *self.source
    }
}

impl<'a> Expr for ReadFrom<'a> {
    open spec fn modelled(&self) -> bool {
        true
    }

    open spec fn reads(&self) -> Set<Seq<char>> {
        Set::empty()
    }

    open spec fn value_in(&self, ctx: Map<Seq<char>, u64>) -> u64 {
        self.source()
    }

    open spec fn evaluated(&self, ctx: Map<Seq<char>, u64>, after: Self) -> bool {
        after == *self
    }

    fn exec_expr(&mut self, context: &Context) -> (r: u64) {
        *self.source
    }
}

/* SAVE IN */
/// Evaluates its expression and stores the result through a mutable
/// reference.
pub struct SaveIn<'a, T: Expr> {
    target: &'a mut u64,
    inner: T,
}

/// The expression that evaluates `inner`, writes the result to `*target`
/// and gives it.
pub fn save_in<'a, T: Expr>(target: &'a mut u64, inner: T) -> (s: SaveIn<'a, T>)
    ensures
        s.target() == *old(target),
        s.inner() == inner,
{
    SaveIn { target, inner }
}

impl<'a, T: Expr> SaveIn<'a, T> {
    /// The number currently behind the target reference.
    pub closed spec fn target(self) -> u64 {
        *self.target
    }

    pub closed spec fn inner(self) -> T {
        self.inner
    }
}

impl<'a, T: Expr> Expr for SaveIn<'a, T> {
    open spec fn modelled(&self) -> bool {
        self.inner().modelled()
    }

    open spec fn reads(&self) -> Set<Seq<char>> {
        self.inner().reads()
    }

    open spec fn value_in(&self, ctx: Map<Seq<char>, u64>) -> u64 {
        self.inner().value_in(ctx)
    }

    /// The target then holds the value.
    open spec fn evaluated(&self, ctx: Map<Seq<char>, u64>, after: Self) -> bool {
        &&& self.inner().evaluated(ctx, after.inner())
        &&& after.target() == self.value_in(ctx)
    }

    fn exec_expr(&mut self, context: &Context) -> (r: u64) {
        let v = self.inner.exec_expr(context);
        *self.target = v;
        v
    }
}


/* VOLATILE */
/// Evaluates its expression with one name of the context bound to a number
/// held by mutable reference, and stores the result there.
pub struct Volatile<'a, T: Expr> {
    cell: &'a mut u64,
    name: &'static str,
    inner: T,
}

/// The expression that evaluates `inner` in the context where `name` is
/// bound to `*cell`, writes the result to `*cell` and gives it.
pub fn volatile<'a, T: Expr>(cell: &'a mut u64, name: &'static str, inner: T) -> (v: Volatile<'a, T>)
    ensures
        v.cell() == *old(cell),
        v.name() == name@,
        v.inner() == inner,
{
    Volatile { cell, name, inner }
}

impl<'a, T: Expr> Volatile<'a, T> {
    /// The number currently behind the cell reference.
    pub closed spec fn cell(self) -> u64 {
        *self.cell
    }

    pub closed spec fn name(self) -> Seq<char> {
        self.name@
    }

    pub closed spec fn inner(self) -> T {
        self.inner
    }

    /// The context in which the inner expression is evaluated.
    pub open spec fn shadowed(self, ctx: Map<Seq<char>, u64>) -> Map<Seq<char>, u64> {
        ctx.insert(self.name(), self.cell())
    }
}

impl<'a, T: Expr> Expr for Volatile<'a, T> {
    open spec fn modelled(&self) -> bool {
        self.inner().modelled()
    }

    open spec fn reads(&self) -> Set<Seq<char>> {
        self.inner().reads().remove(self.name())
    }

    open spec fn value_in(&self, ctx: Map<Seq<char>, u64>) -> u64 {
        self.inner().value_in(self.shadowed(ctx))
    }

    /// The cell then holds the value.
    open spec fn evaluated(&self, ctx: Map<Seq<char>, u64>, after: Self) -> bool {
        &&& self.inner().evaluated(self.shadowed(ctx), after.inner())
        &&& after.cell() == self.value_in(ctx)
        &&& after.name() == self.name()
    }

    fn exec_expr(&mut self, context: &Context) -> (r: u64) {
        let mut shadowed = context.duplicate();
        shadowed.insert(self.name, *self.cell);
        assert(self.inner.reads().subset_of(shadowed.values().dom()));
        let v = self.inner.exec_expr(&shadowed);
        *self.cell = v;
        v
    }
}

/* REPEAT */
/// Executes its statement a fixed number of times.
pub struct Repeat<const N: u32, T: Stmt> {
    inner: T,
}

/// The statement that executes `inner` `N` times.
pub fn repeat<const N: u32, T: Stmt>(inner: T) -> (r: Repeat<N, T>)
    ensures
        r.inner() == inner,
{
    Repeat { inner }
}

/// `trace` lists the states of a statement run again and again in `ctx`,
/// and `outs` what each run writes: each state is what the one before it
/// is once executed.
pub open spec fn is_run<S: Stmt>(ctx: Map<Seq<char>, u64>, trace: Seq<S>, outs: Seq<Seq<char>>) -> bool {
    &&& outs.len() == trace.len() - 1
    &&& forall|i: int| 0 <= i < trace.len() - 1 ==> #[trigger] trace[i].executed(ctx, trace[i + 1], outs[i])
}

/// `after` is what `s` is once executed `n` times in `ctx`, and `written`
/// what the runs write, one after the other.
pub open spec fn executed_times<S: Stmt>(s: S, ctx: Map<Seq<char>, u64>, n: nat, after: S, written: Seq<char>) -> bool {
    exists|trace: Seq<S>, outs: Seq<Seq<char>>|
        #![trigger is_run(ctx, trace, outs)]
        trace.len() == n + 1 && trace[0] == s && trace.last() == after && is_run(ctx, trace, outs) && written
            == outs.flatten_alt()
}

impl<const N: u32, T: Stmt> Repeat<N, T> {
    pub closed spec fn inner(self) -> T {
        self.inner
    }
}

impl<const N: u32, T: Stmt> Stmt for Repeat<N, T> {
    open spec fn modelled(&self) -> bool {
        self.inner().modelled()
    }

    open spec fn reads(&self) -> Set<Seq<char>> {
        self.inner().reads()
    }

    open spec fn executed(&self, ctx: Map<Seq<char>, u64>, after: Self, written: Seq<char>) -> bool {
        executed_times(self.inner(), ctx, N as nat, after.inner(), written)
    }

    fn exec_stmt(&mut self, context: &Context, out: &mut String) {
        let ghost start = self.inner;
        let ghost before = out@;
        let ghost mut trace: Seq<T> = seq![self.inner];
        let ghost mut outs: Seq<Seq<char>> = seq![];
        let mut i: u32 = 0;
        assert(before.take(before.len() as int) =~= before);
        assert(before.skip(before.len() as int) =~= Seq::<char>::empty());
        while i < N
            invariant
                i <= N,
                self.inner.reads() == start.reads(),
                start.reads().subset_of(context.values().dom()),
                start.modelled() ==> {
                    &&& self.inner.modelled()
                    &&& trace.len() == i + 1
                    &&& trace[0] == start
                    &&& trace.last() == self.inner
                    &&& is_run(context.values(), trace, outs)
                    &&& before.len() <= out@.len()
                    &&& out@.take(before.len() as int) == before
                    &&& out@.skip(before.len() as int) == outs.flatten_alt()
                },
            decreases N - i,
        {
            let ghost mid = out@;
            self.inner.exec_stmt(context, out);
            proof {
                if start.modelled() {
                    let w = out@.skip(mid.len() as int);
                    let t = trace.push(self.inner);
                    let o = outs.push(w);
                    assert forall|j: int| 0 <= j < t.len() - 1 implies #[trigger] t[j].executed(
                        context.values(),
                        t[j + 1],
                        o[j],
                    ) by {
                        if j < trace.len() - 1 {
                            assert(t[j] == trace[j] && t[j + 1] == trace[j + 1] && o[j] == outs[j]);
                        }
                    }
                    assert(o.drop_last() =~= outs);
                    assert(out@ =~= mid + w) by {
                        assert(out@.take(mid.len() as int) == mid);
                    }
                    assert(out@.take(before.len() as int) =~= mid.take(before.len() as int));
                    assert(out@.skip(before.len() as int) =~= mid.skip(before.len() as int) + w);
                    trace = t;
                    outs = o;
                }
            }
            i += 1;
        }
    }
}

} // verus!
