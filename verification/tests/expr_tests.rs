use rust_labs::expr::{Const, Var, E};
#[test]
fn test_const_to_string() {
    let c_num = Const::Numeric(42);
    let c_name = Const::Named("a".into());
    assert_eq!(c_num.to_string(), "42");
    assert_eq!(c_name.to_string(), "a");
}

#[test]
fn test_var_to_string() {
    assert_eq!(Var::X.to_string(), "X");
    assert_eq!(Var::Y.to_string(), "Y");
    assert_eq!(Var::Z.to_string(), "Z");
}

#[test]
fn test_builder_constant_var() {
    let e_const = E::constant(Const::Numeric(5));
    let e_var = E::var(Var::X);
    assert_eq!(e_const.to_string(), "5");
    assert_eq!(e_var.to_string(), "X");
}

#[test]
fn test_builder_add() {
    let expr = E::add(E::constant(Const::Numeric(2)), E::var(Var::X));
    assert_eq!(expr.to_string(), "(2 + X)");
}

#[test]
fn test_builder_neg() {
    let expr = E::neg(E::var(Var::X));
    assert_eq!(expr.to_string(), "-(X)");
}

#[test]
fn test_builder_mul() {
    let expr = E::mul(E::var(Var::X), E::var(Var::Y));
    assert_eq!(expr.to_string(), "(X * Y)");
}

#[test]
fn test_builder_inv() {
    let expr = E::inv(E::var(Var::X));
    assert_eq!(expr.to_string(), "1/(X)");
}

#[test]
fn test_builder_func() {
    let  expr = E::func("f".into(), E::var(Var::X));
    assert_eq!(expr.to_string(), "f(X)");
}

#[test]
fn test_expr_to_string_complex() {
    let expr1 = E::add(E::constant(Const::Numeric(2)), E::var(Var::X));
    let expr2 = E::mul(E::neg(E::var(Var::Y)), E::inv(E::var(Var::Z)));
    let complex = E::add(
        E::func("f".into(), expr1.clone()),
        E::func("g".into(), expr2.clone()),
    );
    assert_eq!(complex.to_string(), "(f((2 + X)) + g((-(Y) * 1/(Z))))");
}

#[test]
fn test_diff_add_vars() {
    let expr = E::add(E::var(Var::X), E::var(Var::Y));
    let d = expr.diff(Var::X);
    assert_eq!(d.to_string(), "(1 + 0)");
}

#[test]
fn test_unpack_inv_inv() {
    let double_inv = E::inv(E::inv(E::var(Var::X)));
    let inner = double_inv.clone().unpack_inv_inv().unwrap();
    assert_eq!(inner.to_string(), "X");
}

#[test]
fn test_unpack_neg_neg() {
    let double_neg = E::neg(E::neg(E::neg(E::neg(E::neg(E::var(Var::Y))))));
    let inner = double_neg.clone().unneg();
    assert_eq!(inner.to_string(), "-(Y)");
}

#[test]
fn test_simplify_double_inv() {
    let double_inv = E::inv(E::inv(E::var(Var::X)));
    let simplified = double_inv.uninv();
    assert_eq!(simplified.to_string(), "X");
}

#[test]
fn test_simplify_double_neg() {
    let double_neg = E::neg(E::neg(E::var(Var::X)));
    let simplified = double_neg.unneg();
    assert_eq!(simplified.to_string(), "X");
}

#[test]
fn test_substitute_named_constant() {
    let expr = E::add(E::constant(Const::Named("a".into())), E::var(Var::X));
    let substituted = expr.substitute("a", E::constant(Const::Numeric(10)));
    assert_eq!(substituted.to_string(), "(10 + X)");
}

#[test]
fn test_substitute_deep() {
    let expr = E::mul(
        E::constant(Const::Named("a".into())),
        E::func("f".into(), E::constant(Const::Named("a".into()))),
    );
    let substituted = expr.substitute("a", E::constant(Const::Numeric(3)));
    assert_eq!(substituted.to_string(), "(3 * f(3))");
}

#[test]
fn test_diff_neg() {
    let expr = E::neg(E::var(Var::X));
    let d = expr.diff(Var::X);
    assert_eq!(d.to_string(), "-(1)");
}

#[test]
fn test_diff_mul() {
    let expr = E::mul(E::var(Var::X), E::var(Var::Y));
    let d = expr.diff(Var::X);
    assert_eq!(d.to_string(), "((1 * Y) + (X * 0))");
}

#[test]
fn test_diff_inv() {
    let expr = E::inv(E::var(Var::X));
    let d = expr.diff(Var::X);
    assert_eq!(d.to_string(), "(-(1/((X * X))) * 1)");
}

#[test]
fn test_diff_const_numeric() {
    let expr = E::constant(Const::Numeric(7));
    let d = expr.diff(Var::X);
    assert_eq!(d.to_string(), "0");
}

#[test]
fn test_diff_const_named() {
    let expr = E::constant(Const::Named("a".into()));
    let d = expr.diff(Var::X);
    assert_eq!(d.to_string(), "0");
}

#[test]
fn test_diff_func() {
    let expr = E::func("f".into(), E::var(Var::X));
    let d = expr.diff(Var::X);
    assert_eq!(d.to_string(), "(f_X(X) * 1)");
}

#[test]
fn test_diff_var_same() {
    let d = E::var(Var::X).diff(Var::X);
    assert_eq!(d.to_string(), "1");
}

#[test]
fn test_diff_var_other() {
    let d = E::var(Var::Y).diff(Var::X);
    assert_eq!(d.to_string(), "0");
}

#[test]
fn test_diff_big_expression() {
    // (((X + -(Y)) * 1/(Z)) + (f((X * Y)) + g(1/(X))))
    let part1 = E::add(E::var(Var::X), E::neg(E::var(Var::Y)));
    let part2 = E::inv(E::var(Var::Z));
    let a = E::mul(part1.clone(), part2.clone());
    let xy = E::mul(E::var(Var::X), E::var(Var::Y));
    let b = E::func("f".into(), xy);
    let inv_x = E::inv(E::var(Var::X));
    let c = E::func("g".into(), inv_x);
    let big = E::add(a.clone(), E::add(b.clone(), c.clone()));

    assert_eq!(
        big.to_string(),
        "(((X + -(Y)) * 1/(Z)) + (f((X * Y)) + g(1/(X))))"
    );

    let d = big.diff(Var::X);
    assert_eq!(
        d.to_string(),
        "((((1 + -(0)) * 1/(Z)) + ((X + -(Y)) * (-(1/((Z * Z))) * 0))) + ((f_X((X * Y)) * ((1 * Y) + (X * 0))) + (g_X(1/(X)) * (-(1/((X * X))) * 1))))"
    );
}

#[test]
fn test_arg_count_zeroary() {
    assert_eq!(E::constant(Const::Numeric(1)).arg_count(), 0);
    assert_eq!(E::var(Var::X).arg_count(), 0);
}

#[test]
fn test_arg_count_unary() {
    assert_eq!(E::neg(E::var(Var::X)).arg_count(), 1);
    assert_eq!(E::inv(E::var(Var::X)).arg_count(), 1);
    assert_eq!(E::func("f".into(), E::var(Var::X)).arg_count(), 1);
}

#[test]
fn test_arg_count_binary() {
    assert_eq!(E::add(E::var(Var::X), E::var(Var::Y)).arg_count(), 2);
    assert_eq!(E::mul(E::var(Var::X), E::var(Var::Z)).arg_count(), 2);
}

#[test]
fn test_numeric_constant_negative_text() {
    assert_eq!(Const::Numeric(-307).to_string(), "-307");
    assert_eq!(E::constant(Const::Numeric(0)).to_string(), "0");
}

#[test]
fn test_substitute_absent_name_keeps_expression() {
    let expr = E::add(E::constant(Const::Named("b".into())), E::var(Var::X));
    let substituted = expr.substitute("a", E::constant(Const::Numeric(10)));
    assert_eq!(substituted.to_string(), "(b + X)");
}

#[test]
fn test_uninv_is_idempotent() {
    let e = E::inv(E::inv(E::inv(E::inv(E::inv(E::var(Var::Z))))));
    let once = e.uninv();
    assert_eq!(once.to_string(), "1/(Z)");
    let twice = once.uninv();
    assert_eq!(twice.to_string(), "1/(Z)");
}

#[test]
fn test_unneg_keeps_single_negation_inside_other_node() {
    let e = E::inv(E::neg(E::neg(E::var(Var::X))));
    assert_eq!(e.unneg().to_string(), "1/(-(-(X)))");
}

#[test]
fn test_unpack_none_cases() {
    assert!(E::inv(E::var(Var::X)).unpack_inv_inv().is_none());
    assert!(E::neg(E::var(Var::X)).unpack_neg_neg().is_none());
    assert!(E::neg(E::inv(E::var(Var::X))).unpack_inv_inv().is_none());
}

#[test]
fn test_diff_func_by_other_var() {
    let d = E::func("h".into(), E::var(Var::Z)).diff(Var::Y);
    assert_eq!(d.to_string(), "(h_Y(Z) * 0)");
}

#[test]
fn even_negation_stack_cancels_fully() {
    let e = E::neg(E::neg(E::neg(E::neg(E::var(Var::X)))));
    assert_eq!(e.unneg().to_string(), "X");
    let f = E::neg(E::neg(E::neg(E::var(Var::Y))));
    assert_eq!(f.unneg().to_string(), "-(Y)");
}
