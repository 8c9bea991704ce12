use rust_labs::program::{
    constant, nothing, print, read_from, repeat, save_in, volatile, Context, Expr,
    Nothing, Stmt,
};
use std::cell::RefCell;
use std::rc::Rc;

// Remembers its label in a shared log each time it is executed.
struct Recorder {
    label: &'static str,
    log: Rc<RefCell<Vec<&'static str>>>,
}
impl Stmt for Recorder {
    fn exec_stmt(&mut self, _context: &Context, _out: &mut String) {
        self.log.borrow_mut().push(self.label);
    }
}

// Counts how many times it was evaluated.
struct CounterExpr {
    calls: Rc<RefCell<u32>>,
    value: u64,
}
impl Expr for CounterExpr {
    fn exec_expr(&mut self, _context: &Context) -> u64 {
        *self.calls.borrow_mut() += 1;
        self.value
    }
}

#[test]
fn print_struct_executes_inner_once() {
    let ctx = Context::from_pairs(&[("x", 0), ("y", 0)]);
    let calls = Rc::new(RefCell::new(0u32));
    let ce = CounterExpr {
        calls: calls.clone(),
        value: 123,
    };
    let mut p = print(ce);
    p.exec_stmt(&ctx, &mut String::new());
    assert_eq!(*calls.borrow(), 1);
}

#[test]
fn nothing_struct_does_nothing() {
    let ctx = Context::from_pairs(&[("x", 0), ("y", 0)]);
    let mut n = Nothing {};
    n.exec_stmt(&ctx, &mut String::new());
}

#[test]
fn seq_struct_executes_in_order() {
    let ctx = Context::from_pairs(&[("x", 0), ("y", 0)]);
    let log = Rc::new(RefCell::new(Vec::new()));
    let r1 = Recorder {
        label: "first",
        log: log.clone(),
    };
    let r2 = Recorder {
        label: "second",
        log: log.clone(),
    };
    let mut s = rust_labs::program::seq(r1, r2);
    s.exec_stmt(&ctx, &mut String::new());
    assert_eq!(&*log.borrow(), &["first", "second"]);
}

#[test]
fn seq_shorten_1_discards_trailing_nothing_and_returns_first() {
    let ctx = Context::from_pairs(&[("x", 0), ("y", 0)]);
    let log = Rc::new(RefCell::new(Vec::new()));
    let r = Recorder {
        label: "A",
        log: log.clone(),
    };
    let s = rust_labs::program::seq(r, nothing());
    let mut first_only = s.shorten_1();
    first_only.exec_stmt(&ctx, &mut String::new());
    assert_eq!(&*log.borrow(), &["A"]);
}

#[test]
fn seq_shorten_2_discards_leading_nothing_and_returns_second() {
    let ctx = Context::from_pairs(&[("x", 0), ("y", 0)]);
    let log = Rc::new(RefCell::new(Vec::new()));
    let r = Recorder {
        label: "B",
        log: log.clone(),
    };
    let s = rust_labs::program::seq(nothing(), r);
    let mut second_only = s.shorten_2();
    second_only.exec_stmt(&ctx, &mut String::new());
    assert_eq!(&*log.borrow(), &["B"]);
}

#[test]
fn seq_collapse_reduces_two_nothings_to_single_nothing() {
    let _collapsed: Nothing = rust_labs::program::seq(nothing(), nothing()).collapse();
}

#[test]
fn when_struct_branches() {
    let ctx = Context::new();
    let mut expr0 = rust_labs::program::when(0, 7u64, 8u64);
    let mut expr1 = rust_labs::program::when(1, 7u64, 8u64);
    assert_eq!(expr0.exec_expr(&ctx), 8);
    assert_eq!(expr1.exec_expr(&ctx), 7);
}

#[test]
fn repeat_struct_runs_n_times() {
    let ctx = Context::new();
    let log = Rc::new(RefCell::new(Vec::new()));
    let r = Recorder {
        label: "tick",
        log: log.clone(),
    };
    let mut rep = repeat::<3, _>(r);
    rep.exec_stmt(&ctx, &mut String::new());
    assert_eq!(&*log.borrow(), &["tick", "tick", "tick"]);
}

#[test]
fn constant_struct_reads_value() {
    let ctx = Context::from_pairs(&[("k", 123u64)]);
    let mut program = constant("k");
    assert_eq!(program.exec_expr(&ctx), 123);
}

#[test]
fn readfrom_struct_returns_value() {
    let ctx = Context::new();
    let x: u64 = 99;
    let mut program = read_from(&x);
    assert_eq!(program.exec_expr(&ctx), 99);
}

#[test]
fn savein_struct_writes_and_returns() {
    let ctx = Context::new();
    let mut dst: u64 = 0;
    let mut program = save_in(&mut dst, 123u64);
    let out = program.exec_expr(&ctx);
    assert_eq!(dst, 123);
    assert_eq!(out, 123);
}

#[test]
fn volatile_struct_shadows_and_updates() {
    let ctx = Context::from_pairs(&[("y", 10)]);
    let mut a: u64 = 0;

    let mut v1 = volatile(&mut a, "y", rust_labs::program::when(constant("y"), 7u64, 8u64));
    let out1 = v1.exec_expr(&ctx);
    assert_eq!(out1, 8);
    assert_eq!(a, 8);

    let mut v2 = volatile(&mut a, "y", rust_labs::program::when(constant("y"), 7u64, 8u64));
    let out2 = v2.exec_expr(&ctx);
    assert_eq!(out2, 7);
    assert_eq!(a, 7);
}

#[test]
fn nesting_when_inside_when_structs() {
    let ctx1 = Context::from_pairs(&[("x", 1), ("y", 1)]);
    let ctx2 = Context::from_pairs(&[("x", 1), ("y", 0)]);
    let ctx3 = Context::from_pairs(&[("x", 0), ("y", 0)]);
    let mut nested = rust_labs::program::when(
        rust_labs::program::when(constant("y"), 1u64, 0u64),
        10u64,
        rust_labs::program::when(constant("x"), 20u64, 30u64),
    );
    assert_eq!(nested.exec_expr(&ctx1), 10);
    assert_eq!(nested.exec_expr(&ctx2), 20);
    assert_eq!(nested.exec_expr(&ctx3), 30);
}

#[test]
fn nesting_seq_repeat_order_structs() {
    let ctx = Context::from_pairs(&[("x", 0), ("y", 0)]);
    let log = Rc::new(RefCell::new(Vec::new()));
    let r_a = Recorder {
        label: "A",
        log: log.clone(),
    };
    let r_b = Recorder {
        label: "B",
        log: log.clone(),
    };
    let mut program = rust_labs::program::seq(repeat::<2, _>(r_a), repeat::<3, _>(r_b));
    program.exec_stmt(&ctx, &mut String::new());
    assert_eq!(&*log.borrow(), &["A", "A", "B", "B", "B"]);
}

#[test]
fn nesting_savein_then_volatile_structs() {
    let ctx = Context::from_pairs(&[("y", 0)]);
    let mut a: u64 = 0;
    let mut b: u64 = 0;
    let mut set_a = save_in(&mut a, 5u64);
    assert_eq!(set_a.exec_expr(&ctx), 5);
    let mut expr = save_in(
        &mut b,
        rust_labs::program::when(
            volatile(&mut a, "y", rust_labs::program::when(constant("y"), 1u64, 0u64)),
            9u64,
            10u64,
        ),
    );
    let out = expr.exec_expr(&ctx);
    assert_eq!(out, 9);
    assert_eq!(b, 9);
    assert_eq!(a, 1);
}

#[test]
fn integration_full_flow_1() {
    let ctx = Context::from_pairs(&[("x", 0), ("y", 10)]);
    let log = Rc::new(RefCell::new(Vec::new()));
    let mut a: u64 = 0;
    let b: u64 = 0;

    let mut part1 = rust_labs::program::seq(
        print(rust_labs::program::when(constant("y"), 1u64, 2u64)),
        print(rust_labs::program::when(constant("x"), 1u64, 2u64)),
    );
    part1.exec_stmt(&ctx, &mut String::new());

    let mut part2a = print(save_in(&mut a, rust_labs::program::when(constant("y"), 7u64, 8u64)));
    part2a.exec_stmt(&ctx, &mut String::new());
    let mut part2b = print(read_from(&a));
    part2b.exec_stmt(&ctx, &mut String::new());

    let mut part3 = rust_labs::program::seq(
        repeat::<3, _>(Recorder {
            label: "tick",
            log: log.clone(),
        }),
        print(volatile(&mut a, "y", rust_labs::program::when(constant("y"), 100u64, 200u64))),
    );
    part3.exec_stmt(&ctx, &mut String::new());

    assert_eq!(a, 100);
    assert_eq!(b, 0);
    assert_eq!(&*log.borrow(), &["tick", "tick", "tick"]);
}

#[test]
fn integration_full_flow_2() {
    let ctx = Context::from_pairs(&[("x", 1), ("y", 0)]);
    let log = Rc::new(RefCell::new(Vec::new()));
    let mut a: u64 = 0;
    let mut b: u64 = 0;

    let mut a_set = save_in(&mut a, rust_labs::program::when(constant("x"), 9u64, 10u64));
    assert_eq!(a_set.exec_expr(&ctx), 9);
    let mut b_set = save_in(
        &mut b,
        rust_labs::program::when(
            volatile(&mut a, "y", rust_labs::program::when(constant("y"), 1u64, 0u64)),
            123u64,
            456u64,
        ),
    );
    assert_eq!(b_set.exec_expr(&ctx), 123);

    let mut program = rust_labs::program::seq(
        repeat::<2, _>(Recorder {
            label: "A",
            log: log.clone(),
        }),
        repeat::<1, _>(Recorder {
            label: "B",
            log: log.clone(),
        }),
    );
    program.exec_stmt(&ctx, &mut String::new());

    assert_eq!(a, 1);
    assert_eq!(b, 123);
    assert_eq!(&*log.borrow(), &["A", "A", "B"]);
}

#[test]
fn context_insert_replaces_and_get_misses() {
    let mut ctx = Context::new();
    assert_eq!(ctx.get("a"), None);
    ctx.insert("a", 1);
    ctx.insert("b", 2);
    ctx.insert("a", 3);
    assert_eq!(ctx.get("a"), Some(3));
    assert_eq!(ctx.get("b"), Some(2));
    let copy = ctx.duplicate();
    assert_eq!(copy.get("a"), Some(3));
    let later_wins = Context::from_pairs(&[("k", 1), ("k", 2)]);
    assert_eq!(later_wins.get("k"), Some(2));
}

#[test]
fn volatile_does_not_touch_the_outer_context() {
    let ctx = Context::from_pairs(&[("y", 10)]);
    let mut cell: u64 = 3;
    let mut v = volatile(&mut cell, "y", constant("y"));
    assert_eq!(v.exec_expr(&ctx), 3);
    assert_eq!(ctx.get("y"), Some(10));
    let mut c = constant("y");
    assert_eq!(c.exec_expr(&ctx), 10);
}

#[test]
fn print_writes_its_value_on_a_line() {
    let ctx = Context::from_pairs(&[("x", 0), ("y", 10)]);
    let mut out = String::from("> ");
    let mut p = print(rust_labs::program::when(constant("y"), 7u64, 8u64));
    p.exec_stmt(&ctx, &mut out);
    assert_eq!(out, "> 7\n");
    let mut program = rust_labs::program::seq(repeat::<2, _>(print(3u64)), print(u64::MAX));
    let mut out2 = String::new();
    program.exec_stmt(&ctx, &mut out2);
    assert_eq!(out2, "3\n3\n18446744073709551615\n");
    let mut n = nothing();
    n.exec_stmt(&ctx, &mut out2);
    assert_eq!(out2, "3\n3\n18446744073709551615\n");
}
