use std::sync::Arc;

use partial_response::{BinaryOp, EntityUID, Expr, Literal, TextMap, UnaryOp, Value, Var};
use smol_str::SmolStr;

fn s(text: &str) -> SmolStr {
    SmolStr::new(text)
}

fn x() -> Expr {
    Expr::unknown(s("x"))
}

fn one() -> Expr {
    Expr::val(1)
}

fn mapping() -> TextMap<SmolStr, Value> {
    TextMap::from_pairs(vec![(s("x"), Value::Lit(Literal::Long(1)))])
}

/// An expression of every kind, with `part` wherever an expression can stand.
fn all_kinds(part: fn() -> Expr) -> Vec<Expr> {
    let p = || Arc::new(part());
    vec![
        part(),
        Expr::If { test_expr: p(), then_expr: p(), else_expr: p() },
        Expr::And { left: p(), right: p() },
        Expr::Or { left: p(), right: p() },
        Expr::UnaryApp { op: UnaryOp::Neg, arg: p() },
        Expr::BinaryApp { op: BinaryOp::Contains, arg1: p(), arg2: p() },
        Expr::ExtensionFunctionApp { fn_name: s("ip"), args: Arc::new(vec![part(), part()]) },
        Expr::GetAttr { expr: p(), attr: s("x") },
        Expr::HasAttr { expr: p(), attr: s("x") },
        Expr::Like { expr: p(), pattern: s("x*") },
        Expr::Is { expr: p(), entity_type: s("User") },
        Expr::SetOf(Arc::new(vec![part(), Expr::val(7), part()])),
        Expr::Record(Arc::new(vec![(s("x"), part()), (s("y"), part())])),
    ]
}

#[test]
fn unknowns_are_replaced_in_every_position() {
    for (before, after) in all_kinds(x).iter().zip(all_kinds(one)) {
        assert_eq!(before.substitute(&mapping()), after);
    }
}

#[test]
fn substitution_reaches_nested_parts() {
    let before = Expr::SetOf(Arc::new(all_kinds(x)));
    let after = Expr::SetOf(Arc::new(all_kinds(one)));
    assert_eq!(before.substitute(&mapping()), after);
}

#[test]
fn unmapped_unknowns_stay() {
    let y = Expr::unknown(s("y"));
    let before = Expr::add(x(), y.clone());
    assert_eq!(before.substitute(&mapping()), Expr::add(one(), y));
}

#[test]
fn substituting_nothing_changes_nothing() {
    for e in all_kinds(x) {
        assert_eq!(e.substitute(&TextMap::default()), e);
        assert_eq!(e.clone(), e);
    }
}

#[test]
fn literals_and_variables_stay() {
    let uid = EntityUID { ty: s("User"), eid: s("x") };
    for e in [
        Expr::val(true),
        Expr::val(false),
        Expr::val(-3),
        Expr::val(s("x")),
        Expr::val(uid),
        Expr::Var(Var::Principal),
    ] {
        assert_eq!(e.substitute(&mapping()), e);
    }
}

#[test]
fn values_become_the_expressions_that_denote_them() {
    let value = Value::Record(Arc::new(vec![
        (
            s("set"),
            Value::SetOf(Arc::new(vec![
                Value::Lit(Literal::Bool(true)),
                Value::Lit(Literal::String(s("t"))),
            ])),
        ),
        (
            s("ip"),
            Value::Extension {
                fn_name: s("ip"),
                args: Arc::new(vec![Value::Lit(Literal::String(s("::1")))]),
            },
        ),
    ]));
    let expr = Expr::Record(Arc::new(vec![
        (s("set"), Expr::SetOf(Arc::new(vec![Expr::val(true), Expr::val(s("t"))]))),
        (
            s("ip"),
            Expr::ExtensionFunctionApp {
                fn_name: s("ip"),
                args: Arc::new(vec![Expr::val(s("::1"))]),
            },
        ),
    ]));
    assert_eq!(value.to_expr(), expr);
    let mapping = TextMap::from_pairs(vec![(s("x"), value)]);
    assert_eq!(x().substitute(&mapping), expr);
}
