use vstd::prelude::*;
use vstd::string::StringExecFns;
use crate::text::{decimal, i64_text, str_eq};

verus! {

/// A variable of an expression.
#[derive(Copy, Clone, Debug, PartialEq, Eq, Structural)]
pub enum Var {
    X,
    Y,
    Z,
}

/// A constant of an expression: a number or a named symbol.
#[derive(Clone, Debug)]
pub enum Const {
    Numeric(i64),
    Named(String),
}

/// A symbolic expression.
#[derive(Debug)]
pub enum E {
    Add(Box<E>, Box<E>),
    Neg(Box<E>),
    Mul(Box<E>, Box<E>),
    Inv(Box<E>),
    Const(Const),
    Func { name: String, arg: Box<E> },
    Var(Var),
}

/// The mathematical content of an expression: names are sequences of characters.
pub enum Model {
    Add(Box<Model>, Box<Model>),
    Neg(Box<Model>),
    Mul(Box<Model>, Box<Model>),
    Inv(Box<Model>),
    Num(int),
    Named(Seq<char>),
    Func(Seq<char>, Box<Model>),
    Var(Var),
}

pub open spec fn const_model(c: Const) -> Model {
    match c {
        Const::Numeric(n) => Model::Num(n as int),
        Const::Named(s) => Model::Named(s@),
    }
}

pub open spec fn model(e: E) -> Model
    decreases e,
{
    match e {
        E::Add(a, b) => Model::Add(Box::new(model(*a)), Box::new(model(*b))),
        E::Neg(a) => Model::Neg(Box::new(model(*a))),
        E::Mul(a, b) => Model::Mul(Box::new(model(*a)), Box::new(model(*b))),
        E::Inv(a) => Model::Inv(Box::new(model(*a))),
        E::Const(c) => const_model(c),
        E::Func { name, arg } => Model::Func(name@, Box::new(model(*arg))),
        E::Var(v) => Model::Var(v),
    }
}

impl View for E {
    type V = Model;

    open spec fn view(&self) -> Model {
        model(*self)
    }
}

/// The one-letter name of a variable.
pub open spec fn var_text(v: Var) -> Seq<char> {
    match v {
        Var::X => seq!['X'],
        Var::Y => seq!['Y'],
        Var::Z => seq!['Z'],
    }
}

/// How an expression is written out: sums and products in parentheses,
/// negation as `-(..)`, inversion as `1/(..)`, a function as `name(..)`.
pub open spec fn text(m: Model) -> Seq<char>
    decreases m,
{
    match m {
        Model::Add(a, b) => seq!['('] + text(*a) + seq![' ', '+', ' '] + text(*b) + seq![')'],
        Model::Neg(a) => seq!['-', '('] + text(*a) + seq![')'],
        Model::Mul(a, b) => seq!['('] + text(*a) + seq![' ', '*', ' '] + text(*b) + seq![')'],
        Model::Inv(a) => seq!['1', '/', '('] + text(*a) + seq![')'],
        Model::Num(n) => decimal(n),
        Model::Named(s) => s,
        Model::Func(name, a) => name + seq!['('] + text(*a) + seq![')'],
        Model::Var(v) => var_text(v),
    }
}

/// The number of direct sub-expressions.
pub open spec fn arity(m: Model) -> nat {
    match m {
        Model::Add(..) | Model::Mul(..) => 2,
        Model::Neg(_) | Model::Inv(_) | Model::Func(..) => 1,
        Model::Num(_) | Model::Named(_) | Model::Var(_) => 0,
    }
}

/// The symbolic derivative by a variable. Constants (numeric or named) have
/// derivative 0; the derivative of a function `f` is written `f_V(arg) * arg'`.
pub open spec fn derivative(m: Model, by: Var) -> Model
    decreases m,
{
    match m {
        Model::Add(a, b) => Model::Add(Box::new(derivative(*a, by)), Box::new(derivative(*b, by))),
        Model::Neg(a) => Model::Neg(Box::new(derivative(*a, by))),
        Model::Mul(a, b) => Model::Add(
            Box::new(Model::Mul(Box::new(derivative(*a, by)), b)),
            Box::new(Model::Mul(a, Box::new(derivative(*b, by)))),
        ),
        Model::Inv(a) => Model::Mul(
            Box::new(Model::Neg(Box::new(Model::Inv(Box::new(Model::Mul(a, a)))))),
            Box::new(derivative(*a, by)),
        ),
        Model::Num(_) | Model::Named(_) => Model::Num(0),
        Model::Func(name, a) => Model::Mul(
            Box::new(Model::Func(name + seq!['_'] + var_text(by), a)),
            Box::new(derivative(*a, by)),
        ),
        Model::Var(v) => if v == by {
            Model::Num(1)
        } else {
            Model::Num(0)
        },
    }
}

/// Replaces every named constant called `name` by `value`.
pub open spec fn substituted(m: Model, name: Seq<char>, value: Model) -> Model
    decreases m,
{
    match m {
        Model::Add(a, b) => Model::Add(
            Box::new(substituted(*a, name, value)),
            Box::new(substituted(*b, name, value)),
        ),
        Model::Neg(a) => Model::Neg(Box::new(substituted(*a, name, value))),
        Model::Mul(a, b) => Model::Mul(
            Box::new(substituted(*a, name, value)),
            Box::new(substituted(*b, name, value)),
        ),
        Model::Inv(a) => Model::Inv(Box::new(substituted(*a, name, value))),
        Model::Named(s) => if s == name {
            value
        } else {
            m
        },
        Model::Func(f, a) => Model::Func(f, Box::new(substituted(*a, name, value))),
        _ => m,
    }
}

/// Whether a named constant called `name` occurs in the expression.
pub open spec fn mentions(m: Model, name: Seq<char>) -> bool
    decreases m,
{
    match m {
        Model::Add(a, b) | Model::Mul(a, b) => mentions(*a, name) || mentions(*b, name),
        Model::Neg(a) | Model::Inv(a) | Model::Func(_, a) => mentions(*a, name),
        Model::Named(s) => s == name,
        _ => false,
    }
}

/// Strips double inversions from the top of an expression for as long as there are any.
pub open spec fn without_inv_inv(m: Model) -> Model
    decreases m,
{
    match m {
        Model::Inv(a) => match *a {
            Model::Inv(b) => without_inv_inv(*b),
            _ => m,
        },
        _ => m,
    }
}

/// Strips double negations from the top of an expression for as long as there are any.
pub open spec fn without_neg_neg(m: Model) -> Model
    decreases m,
{
    match m {
        Model::Neg(a) => match *a {
            Model::Neg(b) => without_neg_neg(*b),
            _ => m,
        },
        _ => m,
    }
}

/// The number of nodes of an expression.
pub open spec fn size(m: Model) -> nat
    decreases m,
{
    match m {
        Model::Add(a, b) | Model::Mul(a, b) => 1 + size(*a) + size(*b),
        Model::Neg(a) | Model::Inv(a) | Model::Func(_, a) => 1 + size(*a),
        _ => 1,
    }
}

pub open spec fn is_inv_inv(m: Model) -> bool {
    m matches Model::Inv(a) && *a is Inv
}

pub open spec fn is_neg_neg(m: Model) -> bool {
    m matches Model::Neg(a) && *a is Neg
}


/// Removing double inversions leaves no double inversion on top, and doing it
/// a second time changes nothing.
pub proof fn law_without_inv_inv_normal(m: Model)
    ensures
        !is_inv_inv(without_inv_inv(m)),
        without_inv_inv(without_inv_inv(m)) == without_inv_inv(m),
    decreases m,
{
    if let Model::Inv(a) = m {
        if let Model::Inv(b) = *a {
            law_without_inv_inv_normal(*b);
        }
    }
}

/// Removing double negations leaves no double negation on top, and doing it
/// a second time changes nothing.
pub proof fn law_without_neg_neg_normal(m: Model)
    ensures
        !is_neg_neg(without_neg_neg(m)),
        without_neg_neg(without_neg_neg(m)) == without_neg_neg(m),
    decreases m,
{
    if let Model::Neg(a) = m {
        if let Model::Neg(b) = *a {
            law_without_neg_neg_normal(*b);
        }
    }
}

/// `e` under `k` inversions.
pub open spec fn inv_power(k: nat, e: Model) -> Model
    decreases k,
{
    if k == 0 {
        e
    } else {
        Model::Inv(Box::new(inv_power((k - 1) as nat, e)))
    }
}

/// `e` under `k` negations.
pub open spec fn neg_power(k: nat, e: Model) -> Model
    decreases k,
{
    if k == 0 {
        e
    } else {
        Model::Neg(Box::new(neg_power((k - 1) as nat, e)))
    }
}

/// Of `k` inversions stacked on an expression that is no inversion, the
/// pairs are removed: one stays where `k` is odd, none where it is even,
/// and the expression below is untouched.
pub proof fn law_inversions_cancel_in_pairs(k: nat, e: Model)
    requires
        !(e is Inv),
    ensures
        without_inv_inv(inv_power(k, e)) == inv_power(k % 2, e),
    decreases k,
{
    reveal_with_fuel(inv_power, 3);
    if k >= 2 {
        law_inversions_cancel_in_pairs((k - 2) as nat, e);
        assert(inv_power(k, e) == Model::Inv(Box::new(Model::Inv(Box::new(inv_power((k - 2) as nat, e))))));
        assert((k - 2) as nat % 2 == k % 2);
    }
}

/// Of `k` negations stacked on an expression that is no negation, the
/// pairs are removed: one stays where `k` is odd, none where it is even,
/// and the expression below is untouched.
pub proof fn law_negations_cancel_in_pairs(k: nat, e: Model)
    requires
        !(e is Neg),
    ensures
        without_neg_neg(neg_power(k, e)) == neg_power(k % 2, e),
    decreases k,
{
    reveal_with_fuel(neg_power, 3);
    if k >= 2 {
        law_negations_cancel_in_pairs((k - 2) as nat, e);
        assert(neg_power(k, e) == Model::Neg(Box::new(Model::Neg(Box::new(neg_power((k - 2) as nat, e))))));
        assert((k - 2) as nat % 2 == k % 2);
    }
}

/// Substituting a name that does not occur in an expression leaves it unchanged.
pub proof fn law_substitute_absent_name(m: Model, name: Seq<char>, value: Model)
    requires
        !mentions(m, name),
    ensures
        substituted(m, name, value) == m,
    decreases m,
{
    match m {
        Model::Add(a, b) | Model::Mul(a, b) => {
            law_substitute_absent_name(*a, name, value);
            law_substitute_absent_name(*b, name, value);
        },
        Model::Neg(a) | Model::Inv(a) | Model::Func(_, a) => {
            law_substitute_absent_name(*a, name, value);
        },
        _ => {},
    }
}

/// After a substitution the substituted name no longer occurs, unless the
/// value put in its place mentions it.
pub proof fn law_substitute_removes_name(m: Model, name: Seq<char>, value: Model)
    requires
        !mentions(value, name),
    ensures
        !mentions(substituted(m, name, value), name),
    decreases m,
{
    match m {
        Model::Add(a, b) | Model::Mul(a, b) => {
            law_substitute_removes_name(*a, name, value);
            law_substitute_removes_name(*b, name, value);
        },
        Model::Neg(a) | Model::Inv(a) | Model::Func(_, a) => {
            law_substitute_removes_name(*a, name, value);
        },
        _ => {},
    }
}

/// Differentiation introduces no named constant: a name absent from an
/// expression is absent from its derivative.
pub proof fn law_derivative_introduces_no_name(m: Model, by: Var, name: Seq<char>)
    requires
        !mentions(m, name),
    ensures
        !mentions(derivative(m, by), name),
    decreases m,
{
    reveal_with_fuel(mentions, 4);
    match m {
        Model::Add(a, b) | Model::Mul(a, b) => {
            law_derivative_introduces_no_name(*a, by, name);
            law_derivative_introduces_no_name(*b, by, name);
        },
        Model::Neg(a) | Model::Inv(a) | Model::Func(_, a) => {
            law_derivative_introduces_no_name(*a, by, name);
        },
        _ => {},
    }
}

/// Builds a string from a literal, with its characters known.
fn lit(s: &str) -> (r: String)
    ensures
        r@ == s@,
{
    String::from_str(s)
}

impl Var {
    pub fn to_string(&self) -> (s: String)
        ensures
            s@ == var_text(*self),
    {
        match self {
            Var::X => {
                proof {
                    reveal_strlit("X");
                }
                lit("X")
            },
            Var::Y => {
                proof {
                    reveal_strlit("Y");
                }
                lit("Y")
            },
            Var::Z => {
                proof {
                    reveal_strlit("Z");
                }
                lit("Z")
            },
        }
    }
}

impl Const {
    pub fn to_string(&self) -> (s: String)
        ensures
            s@ == text(const_model(*self)),
    {
        match self {
            Const::Numeric(x) => i64_text(*x),
            Const::Named(string) => string.clone(),
        }
    }

    /// A copy of the constant with the same content.
    pub fn duplicate(&self) -> (c: Const)
        ensures
            const_model(c) == const_model(*self),
    {
        match self {
            Const::Numeric(x) => Const::Numeric(*x),
            Const::Named(s) => Const::Named(s.clone()),
        }
    }
}

impl Clone for E {
    fn clone(&self) -> (r: Self)
        ensures
            r@ == self@,
    {
        self.duplicate()
    }
}

impl E {
    pub fn add(arg1: Box<Self>, arg2: Box<Self>) -> (r: Box<Self>)
        ensures
            r@ == Model::Add(Box::new(arg1@), Box::new(arg2@)),
    {
        Box::new(Self::Add(arg1, arg2))
    }

    pub fn neg(arg: Box<Self>) -> (r: Box<Self>)
        ensures
            r@ == Model::Neg(Box::new(arg@)),
    {
        Box::new(Self::Neg(arg))
    }

    pub fn mul(arg1: Box<Self>, arg2: Box<Self>) -> (r: Box<Self>)
        ensures
            r@ == Model::Mul(Box::new(arg1@), Box::new(arg2@)),
    {
        Box::new(Self::Mul(arg1, arg2))
    }

    pub fn inv(arg: Box<Self>) -> (r: Box<Self>)
        ensures
            r@ == Model::Inv(Box::new(arg@)),
    {
        Box::new(Self::Inv(arg))
    }

    pub fn constant(arg: Const) -> (r: Box<Self>)
        ensures
            r@ == const_model(arg),
    {
        Box::new(Self::Const(arg))
    }

    pub fn func(name: String, arg: Box<Self>) -> (r: Box<Self>)
        ensures
            r@ == Model::Func(name@, Box::new(arg@)),
    {
        Box::new(Self::Func { name, arg })
    }

    pub fn var(arg: Var) -> (r: Box<Self>)
        ensures
            r@ == Model::Var(arg),
    {
        Box::new(Self::Var(arg))
    }

    /// A copy of the expression with the same content.
    pub fn duplicate(&self) -> (r: E)
        ensures
            r@ == self@,
        decreases self,
    {
        match self {
            E::Add(a, b) => E::Add(Box::new(a.duplicate()), Box::new(b.duplicate())),
            E::Neg(a) => E::Neg(Box::new(a.duplicate())),
            E::Mul(a, b) => E::Mul(Box::new(a.duplicate()), Box::new(b.duplicate())),
            E::Inv(a) => E::Inv(Box::new(a.duplicate())),
            E::Const(c) => E::Const(c.duplicate()),
            E::Func { name, arg } => E::Func { name: name.clone(), arg: Box::new(arg.duplicate()) },
            E::Var(v) => E::Var(*v),
        }
    }

    pub fn to_string(&self) -> (s: String)
        ensures
            s@ == text(self@),
        decreases self,
    {
        proof {
            reveal_strlit("(");
            reveal_strlit(")");
            reveal_strlit(" + ");
            reveal_strlit(" * ");
            reveal_strlit("-(");
            reveal_strlit("1/(");
        }
        match self {
            Self::Add(e, e1) => {
                let mut s = lit("(");
                s.append(e.to_string().as_str());
                s.append(" + ");
                s.append(e1.to_string().as_str());
                s.append(")");
                s
            },
            Self::Neg(e) => {
                let mut s = lit("-(");
                s.append(e.to_string().as_str());
                s.append(")");
                s
            },
            Self::Mul(e, e1) => {
                let mut s = lit("(");
                s.append(e.to_string().as_str());
                s.append(" * ");
                s.append(e1.to_string().as_str());
                s.append(")");
                s
            },
            Self::Inv(e) => {
                let mut s = lit("1/(");
                s.append(e.to_string().as_str());
                s.append(")");
                s
            },
            Self::Const(c) => c.to_string(),
            Self::Func { name, arg } => {
                let mut s = name.clone();
                s.append("(");
                s.append(arg.to_string().as_str());
                s.append(")");
                s
            },
            Self::Var(var) => var.to_string(),
        }
    }

    pub fn arg_count(&self) -> (n: u32)
        ensures
            n == arity(self@),
    {
        match self {
            Self::Add(..) | Self::Mul(..) => 2,
            Self::Neg(_) | Self::Inv(_) | Self::Func { .. } => 1,
            Self::Const(_) | Self::Var(_) => 0,
        }
    }

    pub fn diff(&self, by: Var) -> (r: Box<Self>)
        ensures
            r@ == derivative(self@, by),
        decreases self,
    {
        match self {
            Self::Add(e, e1) => Self::add(e.diff(by), e1.diff(by)),
            Self::Neg(e) => Self::neg(e.diff(by)),
            Self::Mul(l, r) => Self::add(
                Self::mul(l.diff(by), Box::new(r.duplicate())),
                Self::mul(Box::new(l.duplicate()), r.diff(by)),
            ),
            Self::Inv(e) => Self::mul(
                Self::neg(Self::inv(Self::mul(Box::new(e.duplicate()), Box::new(e.duplicate())))),
                e.diff(by),
            ),
            Self::Const(_) => Self::constant(Const::Numeric(0)),
            Self::Func { name, arg } => {
                proof {
                    reveal_strlit("_");
                }
                let mut fname = name.clone();
                fname.append("_");
                fname.append(by.to_string().as_str());
                assert(fname@ =~= name@ + seq!['_'] + var_text(by));
                Self::mul(Self::func(fname, Box::new(arg.duplicate())), arg.diff(by))
            },
            Self::Var(var) => if by == *var {
                Self::constant(Const::Numeric(1))
            } else {
                Self::constant(Const::Numeric(0))
            },
        }
    }

    pub fn unpack_inv_inv(self) -> (r: Option<Box<Self>>)
        ensures
            r is Some <==> is_inv_inv(self@),
            r matches Some(e) ==> self@ == Model::Inv(Box::new(Model::Inv(Box::new(e@)))),
    {
        proof {
            reveal_with_fuel(model, 2);
        }
        if let Self::Inv(inner) = self {
            if let Self::Inv(e) = *inner {
                Some(e)
            } else {
                None
            }
        } else {
            None
        }
    }

    pub fn uninv(self: Box<Self>) -> (r: Box<Self>)
        ensures
            r@ == without_inv_inv(self@),
    {
        let mut other = self.duplicate().unpack_inv_inv();
        let mut result = self;
        loop
            invariant
                without_inv_inv(result@) == without_inv_inv(self@),
                other is Some <==> is_inv_inv(result@),
                other matches Some(e) ==> result@ == Model::Inv(Box::new(Model::Inv(Box::new(e@)))),
            decreases size(result@),
        {
            match other {
                Option::Some(e) => {
                    assert(size(result@) == 2 + size(e@)) by {
                        reveal_with_fuel(size, 2);
                    }
                    other = e.duplicate().unpack_inv_inv();
                    result = e;
                },
                Option::None => {
                    return result;
                },
            }
        }
    }

    pub fn unpack_neg_neg(self) -> (r: Option<Box<Self>>)
        ensures
            r is Some <==> is_neg_neg(self@),
            r matches Some(e) ==> self@ == Model::Neg(Box::new(Model::Neg(Box::new(e@)))),
    {
        proof {
            reveal_with_fuel(model, 2);
        }
        if let Self::Neg(inner) = self {
            if let Self::Neg(e) = *inner {
                Some(e)
            } else {
                None
            }
        } else {
            None
        }
    }

    pub fn unneg(self: Box<Self>) -> (r: Box<Self>)
        ensures
            r@ == without_neg_neg(self@),
    {
        let mut other = self.duplicate().unpack_neg_neg();
        let mut result = self;
        loop
            invariant
                without_neg_neg(result@) == without_neg_neg(self@),
                other is Some <==> is_neg_neg(result@),
                other matches Some(e) ==> result@ == Model::Neg(Box::new(Model::Neg(Box::new(e@)))),
            decreases size(result@),
        {
            match other {
                Option::Some(e) => {
                    assert(size(result@) == 2 + size(e@)) by {
                        reveal_with_fuel(size, 2);
                    }
                    other = e.duplicate().unpack_neg_neg();
                    result = e;
                },
                Option::None => {
                    return result;
                },
            }
        }
    }

    pub fn substitute(self, name: &str, value: Box<Self>) -> (r: Box<Self>)
        ensures
            r@ == substituted(self@, name@, value@),
        decreases self,
    {
        match self {
            Self::Add(e, e1) => Self::add(
                e.substitute(name, Box::new(value.duplicate())),
                e1.substitute(name, value),
            ),
            Self::Neg(e) => Self::neg(e.substitute(name, value)),
            Self::Mul(e, e1) => Self::mul(
                e.substitute(name, Box::new(value.duplicate())),
                e1.substitute(name, value),
            ),
            Self::Inv(e) => Self::inv(e.substitute(name, value)),
            Self::Const(Const::Named(const_name)) => {
                if str_eq(const_name.as_str(), name) {
                    value
                } else {
                    Self::constant(Const::Named(const_name))
                }
            },
            Self::Const(c) => Self::constant(c),
            Self::Func { name: func_name, arg } => Self::func(func_name, arg.substitute(name, value)),
            Self::Var(var) => Self::var(var),
        }
    }
}

} // verus!
