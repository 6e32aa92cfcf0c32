//! What holds of expressions, of the values that denote themselves, and of substitution.
//!
//! A *position* in an expression is the sequence of the child numbers on the way from the root.

use smol_str::SmolStr;
use vstd::prelude::*;

use crate::expr::{
    BinaryOp, EntityUID, EntityUIDView, Expr, ExprView, Literal, LiteralView, Value,
};
use crate::text::{TextKey, TextMap};

verus! {

/// The parts of an expression, in order.
pub open spec fn children(expr: ExprView) -> Seq<ExprView> {
    match expr {
        ExprView::Lit(_) => seq![],
        ExprView::Var(_) => seq![],
        ExprView::Unknown(_) => seq![],
        ExprView::If(a, b, c) => seq![*a, *b, *c],
        ExprView::And(a, b) => seq![*a, *b],
        ExprView::Or(a, b) => seq![*a, *b],
        ExprView::UnaryApp(_, a) => seq![*a],
        ExprView::BinaryApp(_, a, b) => seq![*a, *b],
        ExprView::ExtensionFunctionApp(_, args) => args,
        ExprView::GetAttr(a, _) => seq![*a],
        ExprView::HasAttr(a, _) => seq![*a],
        ExprView::Like(a, _) => seq![*a],
        ExprView::Is(a, _) => seq![*a],
        ExprView::SetOf(elements) => elements,
        ExprView::Record(attrs) => attrs.map_values(|p: (Seq<char>, ExprView)| p.1),
    }
}

/// Two expressions agree in all but their parts: they are of the same kind, with the same
/// operator, names or literal, and with as many parts.
pub open spec fn same_node(left: ExprView, right: ExprView) -> bool {
    match (left, right) {
        (ExprView::Lit(a), ExprView::Lit(b)) => a == b,
        (ExprView::Var(a), ExprView::Var(b)) => a == b,
        (ExprView::Unknown(a), ExprView::Unknown(b)) => a == b,
        (ExprView::If(_, _, _), ExprView::If(_, _, _)) => true,
        (ExprView::And(_, _), ExprView::And(_, _)) => true,
        (ExprView::Or(_, _), ExprView::Or(_, _)) => true,
        (ExprView::UnaryApp(a, _), ExprView::UnaryApp(b, _)) => a == b,
        (ExprView::BinaryApp(a, _, _), ExprView::BinaryApp(b, _, _)) => a == b,
        (ExprView::ExtensionFunctionApp(a, xs), ExprView::ExtensionFunctionApp(b, ys)) => a == b
            && xs.len() == ys.len(),
        (ExprView::GetAttr(_, a), ExprView::GetAttr(_, b)) => a == b,
        (ExprView::HasAttr(_, a), ExprView::HasAttr(_, b)) => a == b,
        (ExprView::Like(_, a), ExprView::Like(_, b)) => a == b,
        (ExprView::Is(_, a), ExprView::Is(_, b)) => a == b,
        (ExprView::SetOf(xs), ExprView::SetOf(ys)) => xs.len() == ys.len(),
        (ExprView::Record(xs), ExprView::Record(ys)) => xs.len() == ys.len() && forall|i: int|
            0 <= i < xs.len() ==> (#[trigger] xs[i]).0 == ys[i].0,
        _ => false,
    }
}

/// What stands at a position of an expression, if the expression has that position.
pub open spec fn at(expr: ExprView, position: Seq<int>) -> Option<ExprView>
    decreases position.len(),
{
    if position.len() == 0 {
        Some(expr)
    } else if 0 <= position[0] < children(expr).len() {
        at(children(expr)[position[0]], position.drop_first())
    } else {
        None
    }
}

/// The unknown with the given name stands at some position of the expression.
pub open spec fn occurs(name: Seq<char>, expr: ExprView) -> bool {
    exists|position: Seq<int>| #[trigger] at(expr, position) == Some(ExprView::Unknown(name))
}

/// The literal is of the same kind as its mathematical value, with the same content.
pub open spec fn literal_shows(literal: Literal, view: LiteralView) -> bool {
    match (literal, view) {
        (Literal::Bool(a), LiteralView::Bool(b)) => a == b,
        (Literal::Long(a), LiteralView::Long(b)) => a == b,
        (Literal::String(a), LiteralView::String(b)) => a.text() == b,
        (Literal::EntityUID(a), LiteralView::EntityUID(b)) => a.ty.text() == b.ty && a.eid.text()
            == b.eid,
        _ => false,
    }
}

/// The expression is written exactly as the syntax tree says, in every part.
pub open spec fn shows(expr: Expr, tree: ExprView) -> bool
    decreases expr,
{
    match (expr, tree) {
        (Expr::Lit(a), ExprView::Lit(b)) => literal_shows(a, b),
        (Expr::Var(a), ExprView::Var(b)) => a == b,
        (Expr::Unknown(a), ExprView::Unknown(b)) => a.text() == b,
        (Expr::If { test_expr, then_expr, else_expr }, ExprView::If(a, b, c)) => shows(
            *test_expr,
            *a,
        ) && shows(*then_expr, *b) && shows(*else_expr, *c),
        (Expr::And { left, right }, ExprView::And(a, b)) => shows(*left, *a) && shows(*right, *b),
        (Expr::Or { left, right }, ExprView::Or(a, b)) => shows(*left, *a) && shows(*right, *b),
        (Expr::UnaryApp { op, arg }, ExprView::UnaryApp(o, a)) => op == o && shows(*arg, *a),
        (Expr::BinaryApp { op, arg1, arg2 }, ExprView::BinaryApp(o, a, b)) => op == o && shows(
            *arg1,
            *a,
        ) && shows(*arg2, *b),
        (
            Expr::ExtensionFunctionApp { fn_name, args },
            ExprView::ExtensionFunctionApp(name, parts),
        ) => fn_name.text() == name && args@.len() == parts.len() && forall|i: int|
            0 <= i < args@.len() ==> shows(#[trigger] args@[i], parts[i]),
        (Expr::GetAttr { expr, attr }, ExprView::GetAttr(a, b)) => shows(*expr, *a) && attr.text()
            == b,
        (Expr::HasAttr { expr, attr }, ExprView::HasAttr(a, b)) => shows(*expr, *a) && attr.text()
            == b,
        (Expr::Like { expr, pattern }, ExprView::Like(a, b)) => shows(*expr, *a) && pattern.text()
            == b,
        (Expr::Is { expr, entity_type }, ExprView::Is(a, b)) => shows(*expr, *a)
            && entity_type.text() == b,
        (Expr::SetOf(elements), ExprView::SetOf(parts)) => elements@.len() == parts.len()
            && forall|i: int|
            0 <= i < elements@.len() ==> shows(#[trigger] elements@[i], parts[i]),
        (Expr::Record(attrs), ExprView::Record(parts)) => attrs@.len() == parts.len() && forall|
            i: int,
        |
            0 <= i < attrs@.len() ==> (#[trigger] attrs@[i]).0.text() == parts[i].0 && shows(
                attrs@[i].1,
                parts[i].1,
            ),
        _ => false,
    }
}

/// The expression spells out the value: a literal of the same kind and content, a set, a record
/// or a call of an extension function whose parts spell out the value's parts.
pub open spec fn denotes(expr: ExprView, value: Value) -> bool
    decreases value,
{
    match (value, expr) {
        (Value::Lit(a), ExprView::Lit(b)) => literal_shows(a, b),
        (Value::SetOf(elements), ExprView::SetOf(parts)) => elements@.len() == parts.len()
            && forall|i: int|
            0 <= i < elements@.len() ==> denotes(parts[i], #[trigger] elements@[i]),
        (Value::Record(attrs), ExprView::Record(parts)) => attrs@.len() == parts.len() && forall|
            i: int,
        |
            0 <= i < attrs@.len() ==> (#[trigger] attrs@[i]).0.text() == parts[i].0 && denotes(
                parts[i].1,
                attrs@[i].1,
            ),
        (
            Value::Extension { fn_name, args },
            ExprView::ExtensionFunctionApp(name, parts),
        ) => fn_name.text() == name && args@.len() == parts.len() && forall|i: int|
            0 <= i < args@.len() ==> denotes(parts[i], #[trigger] args@[i]),
        _ => false,
    }
}

/// At the given position, the second expression has what the first one has, but for a mapped
/// unknown: there it has what denotes the mapped value.
pub open spec fn replaced_at(
    expr: ExprView,
    result: ExprView,
    definitions: Map<Seq<char>, Value>,
    position: Seq<int>,
) -> bool {
    match (at(expr, position), at(result, position)) {
        (None, _) => true,
        (Some(before), None) => false,
        (Some(before), Some(after)) => match before {
            ExprView::Unknown(name) if definitions.contains_key(name) => denotes(
                after,
                definitions[name],
            ),
            _ => same_node(before, after),
        },
    }
}

/// The second expression is the first one with each mapped unknown replaced by what denotes the
/// mapped value, at whatever depth it stands, and with nothing else changed.
pub open spec fn replaced(
    expr: ExprView,
    result: ExprView,
    definitions: Map<Seq<char>, Value>,
) -> bool {
    forall|position: Seq<int>|
        #![trigger at(expr, position)]
        replaced_at(expr, result, definitions, position)
}

/// The syntax tree of an expression says how it is written, in every part, and no other tree does.
pub proof fn tree_shows_the_expression(expr: &Expr, tree: ExprView)
    ensures
        shows(*expr, tree) <==> expr@ == tree,
    decreases expr,
{
    match expr {
        Expr::Lit(_) => {},
        Expr::Var(_) => {},
        Expr::Unknown(_) => {},
        Expr::If { test_expr, then_expr, else_expr } => {
            if let ExprView::If(a, b, c) = tree {
                tree_shows_the_expression(test_expr, *a);
                tree_shows_the_expression(then_expr, *b);
                tree_shows_the_expression(else_expr, *c);
            }
        },
        Expr::And { left, right } => {
            if let ExprView::And(a, b) = tree {
                tree_shows_the_expression(left, *a);
                tree_shows_the_expression(right, *b);
            }
        },
        Expr::Or { left, right } => {
            if let ExprView::Or(a, b) = tree {
                tree_shows_the_expression(left, *a);
                tree_shows_the_expression(right, *b);
            }
        },
        Expr::UnaryApp { op, arg } => {
            if let ExprView::UnaryApp(_, a) = tree {
                tree_shows_the_expression(arg, *a);
            }
        },
        Expr::BinaryApp { op, arg1, arg2 } => {
            if let ExprView::BinaryApp(_, a, b) = tree {
                tree_shows_the_expression(arg1, *a);
                tree_shows_the_expression(arg2, *b);
            }
        },
        Expr::ExtensionFunctionApp { fn_name, args } => {
            if let ExprView::ExtensionFunctionApp(_, parts) = tree {
                assert forall|i: int| 0 <= i < args@.len() implies (shows(
                    #[trigger] args@[i],
                    parts[i],
                ) <==> args@[i]@ == parts[i]) by {
                    tree_shows_the_expression(&args@[i], parts[i]);
                }
                let own = expr@->ExtensionFunctionApp_1;
                assert forall|i: int| 0 <= i < args@.len() implies #[trigger] own[i]
                    == args@[i]@ by {}
                if shows(*expr, tree) {
                    assert(own =~= parts);
                }
                if expr@ == tree {
                    assert forall|i: int| 0 <= i < args@.len() implies shows(
                        #[trigger] args@[i],
                        parts[i],
                    ) by {
                        assert(own[i] == args@[i]@);
                    }
                }
            }
        },
        Expr::GetAttr { expr: e, attr } => {
            if let ExprView::GetAttr(a, _) = tree {
                tree_shows_the_expression(e, *a);
            }
        },
        Expr::HasAttr { expr: e, attr } => {
            if let ExprView::HasAttr(a, _) = tree {
                tree_shows_the_expression(e, *a);
            }
        },
        Expr::Like { expr: e, pattern } => {
            if let ExprView::Like(a, _) = tree {
                tree_shows_the_expression(e, *a);
            }
        },
        Expr::Is { expr: e, entity_type } => {
            if let ExprView::Is(a, _) = tree {
                tree_shows_the_expression(e, *a);
            }
        },
        Expr::SetOf(elements) => {
            if let ExprView::SetOf(parts) = tree {
                assert forall|i: int| 0 <= i < elements@.len() implies (shows(
                    #[trigger] elements@[i],
                    parts[i],
                ) <==> elements@[i]@ == parts[i]) by {
                    tree_shows_the_expression(&elements@[i], parts[i]);
                }
                let own = expr@->SetOf_0;
                assert forall|i: int| 0 <= i < elements@.len() implies #[trigger] own[i]
                    == elements@[i]@ by {}
                if shows(*expr, tree) {
                    assert(own =~= parts);
                }
                if expr@ == tree {
                    assert forall|i: int| 0 <= i < elements@.len() implies shows(
                        #[trigger] elements@[i],
                        parts[i],
                    ) by {
                        assert(own[i] == elements@[i]@);
                    }
                }
            }
        },
        Expr::Record(attrs) => {
            if let ExprView::Record(parts) = tree {
                assert forall|i: int| 0 <= i < attrs@.len() implies (shows(
                    (#[trigger] attrs@[i]).1,
                    parts[i].1,
                ) <==> attrs@[i].1@ == parts[i].1) by {
                    tree_shows_the_expression(&attrs@[i].1, parts[i].1);
                }
                let own = expr@->Record_0;
                assert forall|i: int| 0 <= i < attrs@.len() implies #[trigger] own[i] == (
                    attrs@[i].0.text(),
                    attrs@[i].1@,
                ) by {}
                if shows(*expr, tree) {
                    assert(own =~= parts);
                }
                if expr@ == tree {
                    assert forall|i: int| 0 <= i < attrs@.len() implies (
                    #[trigger] attrs@[i]).0.text() == parts[i].0 && shows(
                        attrs@[i].1,
                        parts[i].1,
                    ) by {
                        assert(own[i] == (attrs@[i].0.text(), attrs@[i].1@));
                    }
                }
            }
        },
    }
}

/// The expression of a value spells out the value, and no other expression does.
pub proof fn value_is_denoted_by_its_expression(value: Value, expr: ExprView)
    ensures
        denotes(expr, value) <==> expr == value.expr_view(),
    decreases value,
{
    match value {
        Value::Lit(_) => {},
        Value::SetOf(elements) => {
            if let ExprView::SetOf(parts) = expr {
                let own = value.expr_view()->SetOf_0;
                assert forall|i: int| 0 <= i < elements@.len() implies (denotes(
                    parts[i],
                    #[trigger] elements@[i],
                ) <==> parts[i] == own[i]) by {
                    value_is_denoted_by_its_expression(elements@[i], parts[i]);
                }
                if denotes(expr, value) {
                    assert forall|i: int| 0 <= i < own.len() implies #[trigger] own[i]
                        == parts[i] by {
                        assert(denotes(parts[i], elements@[i]));
                    }
                    assert(own =~= parts);
                }
            }
        },
        Value::Record(attrs) => {
            if let ExprView::Record(parts) = expr {
                let own = value.expr_view()->Record_0;
                assert forall|i: int| 0 <= i < attrs@.len() implies (denotes(
                    parts[i].1,
                    (#[trigger] attrs@[i]).1,
                ) <==> parts[i].1 == own[i].1) by {
                    value_is_denoted_by_its_expression(attrs@[i].1, parts[i].1);
                }
                if denotes(expr, value) {
                    assert forall|i: int| 0 <= i < own.len() implies #[trigger] own[i]
                        == parts[i] by {
                        assert(denotes(parts[i].1, attrs@[i].1));
                    }
                    assert(own =~= parts);
                }
            }
        },
        Value::Extension { fn_name, args } => {
            if let ExprView::ExtensionFunctionApp(_, parts) = expr {
                let own = value.expr_view()->ExtensionFunctionApp_1;
                assert forall|i: int| 0 <= i < args@.len() implies (denotes(
                    parts[i],
                    #[trigger] args@[i],
                ) <==> parts[i] == own[i]) by {
                    value_is_denoted_by_its_expression(args@[i], parts[i]);
                }
                if denotes(expr, value) {
                    assert forall|i: int| 0 <= i < own.len() implies #[trigger] own[i]
                        == parts[i] by {
                        assert(denotes(parts[i], args@[i]));
                    }
                    assert(own =~= parts);
                }
            }
        },
    }
}

/// An expression is fixed by what it is apart from its parts, and its parts.
proof fn lemma_node_and_children(left: ExprView, right: ExprView)
    requires
        same_node(left, right),
        children(left) == children(right),
    ensures
        left == right,
{
    let (xs, ys) = (children(left), children(right));
    match left {
        ExprView::If(_, _, _) => {
            assert(xs[0] == ys[0] && xs[1] == ys[1] && xs[2] == ys[2]);
        },
        ExprView::And(_, _) => {
            assert(xs[0] == ys[0] && xs[1] == ys[1]);
        },
        ExprView::Or(_, _) => {
            assert(xs[0] == ys[0] && xs[1] == ys[1]);
        },
        ExprView::BinaryApp(_, _, _) => {
            assert(xs[0] == ys[0] && xs[1] == ys[1]);
        },
        ExprView::Record(attrs) => {
            assert forall|i: int| 0 <= i < attrs.len() implies attrs[i] == right->Record_0[i] by {
                assert(xs[i] == ys[i]);
                assert(attrs[i].0 == right->Record_0[i].0);
            }
            assert(attrs =~= right->Record_0);
        },
        _ => {
            if xs.len() == 1 {
                assert(xs[0] == ys[0]);
            }
        },
    }
}

/// Expressions that agree in all but their parts have as many parts.
proof fn lemma_same_node(left: ExprView, right: ExprView)
    requires
        same_node(left, right),
    ensures
        children(left).len() == children(right).len(),
{
}

/// Substitution goes into every part, and keeps all else, but for a mapped unknown.
proof fn lemma_substitute_node(expr: ExprView, definitions: Map<Seq<char>, Value>)
    ensures
        match expr {
            ExprView::Unknown(name) if definitions.contains_key(name) => expr.substitute(
                definitions,
            ) == definitions[name].expr_view(),
            _ => same_node(expr, expr.substitute(definitions)) && children(
                expr.substitute(definitions),
            ) == children(expr).map_values(|e: ExprView| e.substitute(definitions)),
        },
{
    if !(expr is Unknown) {
        assert(children(expr.substitute(definitions)) =~= children(expr).map_values(
            |e: ExprView| e.substitute(definitions),
        ));
    } else {
        assert(children(expr) =~= children(expr).map_values(
            |e: ExprView| e.substitute(definitions),
        ));
    }
}

/// What stands at a position is substituted in its place.
pub proof fn substitution_acts_in_place(
    expr: ExprView,
    definitions: Map<Seq<char>, Value>,
    position: Seq<int>,
)
    ensures
        at(expr, position) matches Some(part) ==> at(expr.substitute(definitions), position)
            == Some(part.substitute(definitions)),
    decreases position.len(),
{
    if position.len() > 0 && at(expr, position) is Some {
        lemma_substitute_node(expr, definitions);
        substitution_acts_in_place(
            children(expr)[position[0]],
            definitions,
            position.drop_first(),
        );
    }
}

/// Substitution replaces each mapped unknown, at whatever depth it stands, by what denotes the
/// mapped value, and changes nothing else.
pub proof fn substitution_replaces_mapped_unknowns(
    expr: ExprView,
    definitions: Map<Seq<char>, Value>,
)
    ensures
        replaced(expr, expr.substitute(definitions), definitions),
{
    let result = expr.substitute(definitions);
    assert forall|position: Seq<int>|
        #![trigger at(expr, position)]
        replaced_at(expr, result, definitions, position) by {
        substitution_acts_in_place(expr, definitions, position);
        let before = at(expr, position)->0;
        lemma_substitute_node(before, definitions);
        if let ExprView::Unknown(name) = before {
            if definitions.contains_key(name) {
                value_is_denoted_by_its_expression(
                    definitions[name],
                    before.substitute(definitions),
                );
            }
        }
    }
}

/// There is only one way to replace the mapped unknowns of an expression and change nothing else.
pub proof fn replacement_is_unique(
    expr: ExprView,
    left: ExprView,
    right: ExprView,
    definitions: Map<Seq<char>, Value>,
)
    requires
        replaced(expr, left, definitions),
        replaced(expr, right, definitions),
    ensures
        left == right,
    decreases expr,
{
    let root = Seq::<int>::empty();
    assert(at(expr, root) == Some(expr));
    assert(at(left, root) == Some(left) && at(right, root) == Some(right));
    let mapped = expr is Unknown && definitions.contains_key(expr->Unknown_0);
    if mapped {
        value_is_denoted_by_its_expression(definitions[expr->Unknown_0], left);
        value_is_denoted_by_its_expression(definitions[expr->Unknown_0], right);
    } else {
        lemma_same_node(expr, left);
        lemma_same_node(expr, right);
        assert forall|i: int| 0 <= i < children(expr).len() implies children(left)[i] == children(
            right,
        )[i] by {
            lemma_replaced_part(expr, left, definitions, i);
            lemma_replaced_part(expr, right, definitions, i);
            lemma_part_is_smaller(expr, i);
            replacement_is_unique(
                children(expr)[i],
                children(left)[i],
                children(right)[i],
                definitions,
            );
        }
        assert(children(left) =~= children(right));
        assert(same_node(left, right)) by {
            if let ExprView::Record(attrs) = expr {
                assert forall|i: int| 0 <= i < attrs.len() implies (
                #[trigger] left->Record_0[i]).0 == right->Record_0[i].0 by {
                    assert(attrs[i].0 == left->Record_0[i].0);
                }
            }
        }
        lemma_node_and_children(left, right);
    }
}

/// A part of an expression is smaller than the expression.
proof fn lemma_part_is_smaller(expr: ExprView, i: int)
    requires
        0 <= i < children(expr).len(),
    ensures
        decreases_to!(expr => children(expr)[i]),
{
    match expr {
        ExprView::ExtensionFunctionApp(_, args) => {
            assert(decreases_to!(expr => args));
            assert(decreases_to!(args => args[i]));
        },
        ExprView::SetOf(elements) => {
            assert(decreases_to!(expr => elements));
            assert(decreases_to!(elements => elements[i]));
        },
        ExprView::Record(attrs) => {
            assert(decreases_to!(expr => attrs));
            assert(decreases_to!(attrs => attrs[i]));
            assert(decreases_to!(attrs[i] => attrs[i].1));
        },
        _ => {},
    }
}

/// Where the unknowns of an expression are replaced, those of its parts are.
proof fn lemma_replaced_part(
    expr: ExprView,
    result: ExprView,
    definitions: Map<Seq<char>, Value>,
    i: int,
)
    requires
        replaced(expr, result, definitions),
        0 <= i < children(expr).len(),
        children(expr).len() == children(result).len(),
    ensures
        replaced(children(expr)[i], children(result)[i], definitions),
{
    let (part, new) = (children(expr)[i], children(result)[i]);
    assert forall|position: Seq<int>|
        #![trigger at(part, position)]
        replaced_at(part, new, definitions, position) by {
        let whole = seq![i] + position;
        assert(whole.drop_first() =~= position);
        assert(at(expr, whole) == at(part, position));
        assert(at(result, whole) == at(new, position));
    }
}

/// No unknown and no variable of the request stands in the expression of a value.
pub proof fn values_hold_no_unknowns(value: Value, position: Seq<int>)
    ensures
        at(value.expr_view(), position) matches Some(part) ==> !(part is Unknown) && !(part is Var),
    decreases position.len(),
{
    let expr = value.expr_view();
    if position.len() > 0 && at(expr, position) is Some {
        let i = position[0];
        match value {
            Value::Lit(_) => {},
            Value::SetOf(elements) => {
                assert(children(expr)[i] == elements@[i].expr_view());
                values_hold_no_unknowns(elements@[i], position.drop_first());
            },
            Value::Record(attrs) => {
                assert(children(expr)[i] == attrs@[i].1.expr_view());
                values_hold_no_unknowns(attrs@[i].1, position.drop_first());
            },
            Value::Extension { fn_name, args } => {
                assert(children(expr)[i] == args@[i].expr_view());
                values_hold_no_unknowns(args@[i], position.drop_first());
            },
        }
    }
}

/// After a substitution the unknowns that occur are those that occurred and are not mapped: no
/// mapped one is left at any depth, and no new one comes in.
pub proof fn substitution_removes_the_mapped_unknowns(
    expr: ExprView,
    definitions: Map<Seq<char>, Value>,
    name: Seq<char>,
)
    ensures
        occurs(name, expr.substitute(definitions)) <==> occurs(name, expr)
            && !definitions.contains_key(name),
{
    let result = expr.substitute(definitions);
    if occurs(name, result) {
        let position = choose|position: Seq<int>| #[trigger]
            at(result, position) == Some(ExprView::Unknown(name));
        lemma_unknown_was_there(expr, definitions, name, position);
    }
    if occurs(name, expr) && !definitions.contains_key(name) {
        let position = choose|position: Seq<int>| #[trigger]
            at(expr, position) == Some(ExprView::Unknown(name));
        substitution_acts_in_place(expr, definitions, position);
    }
}

/// An unknown that stands somewhere after a substitution stood there before, and is not mapped.
proof fn lemma_unknown_was_there(
    expr: ExprView,
    definitions: Map<Seq<char>, Value>,
    name: Seq<char>,
    position: Seq<int>,
)
    requires
        at(expr.substitute(definitions), position) == Some(ExprView::Unknown(name)),
    ensures
        at(expr, position) == Some(ExprView::Unknown(name)),
        !definitions.contains_key(name),
    decreases position.len(),
{
    lemma_substitute_node(expr, definitions);
    if expr is Unknown && definitions.contains_key(expr->Unknown_0) {
        values_hold_no_unknowns(definitions[expr->Unknown_0], position);
    } else if position.len() > 0 {
        lemma_unknown_was_there(
            children(expr)[position[0]],
            definitions,
            name,
            position.drop_first(),
        );
    }
}

/// Where none of the mapped unknowns occurs, a substitution changes nothing.
pub proof fn substitution_without_mapped_unknowns_is_identity(
    expr: ExprView,
    definitions: Map<Seq<char>, Value>,
)
    requires
        forall|name: Seq<char>| #[trigger]
            definitions.contains_key(name) ==> !occurs(name, expr),
    ensures
        expr.substitute(definitions) == expr,
{
    substitution_replaces_mapped_unknowns(expr, definitions);
    assert forall|position: Seq<int>|
        #![trigger at(expr, position)]
        replaced_at(expr, expr, definitions, position) by {
        if let Some(ExprView::Unknown(name)) = at(expr, position) {
            assert(occurs(name, expr));
        }
    }
    replacement_is_unique(expr, expr.substitute(definitions), expr, definitions);
}

/// Giving values in two steps is giving them at once, where a name's first value stands.
pub proof fn substitutions_compose(
    expr: ExprView,
    first: Map<Seq<char>, Value>,
    second: Map<Seq<char>, Value>,
)
    ensures
        expr.substitute(first).substitute(second) == expr.substitute(
            second.union_prefer_right(first),
        ),
{
    let all = second.union_prefer_right(first);
    let result = expr.substitute(first).substitute(second);
    assert forall|position: Seq<int>|
        #![trigger at(expr, position)]
        replaced_at(expr, result, all, position) by {
        let before = at(expr, position)->0;
        substitution_acts_in_place(expr, first, position);
        substitution_acts_in_place(expr.substitute(first), second, position);
        lemma_substitute_node(before, first);
        lemma_substitute_node(before.substitute(first), second);
        if let ExprView::Unknown(name) = before {
            if first.contains_key(name) {
                let value = first[name];
                assert forall|n: Seq<char>| #[trigger] second.contains_key(n) implies !occurs(
                    n,
                    value.expr_view(),
                ) by {
                    assert forall|p: Seq<int>| #[trigger] at(value.expr_view(), p) != Some(
                        ExprView::Unknown(n),
                    ) by {
                        values_hold_no_unknowns(value, p);
                    }
                }
                substitution_without_mapped_unknowns_is_identity(value.expr_view(), second);
                value_is_denoted_by_its_expression(value, value.expr_view());
            } else if second.contains_key(name) {
                value_is_denoted_by_its_expression(second[name], second[name].expr_view());
            }
        }
    }
    substitution_replaces_mapped_unknowns(expr, all);
    replacement_is_unique(expr, result, expr.substitute(all), all);
}

/// The two values are of the same kind, with the same content in every part.
pub open spec fn same_value(left: Value, right: Value) -> bool
    decreases left,
{
    match (left, right) {
        (Value::Lit(Literal::Bool(a)), Value::Lit(Literal::Bool(b))) => a == b,
        (Value::Lit(Literal::Long(a)), Value::Lit(Literal::Long(b))) => a == b,
        (Value::Lit(Literal::String(a)), Value::Lit(Literal::String(b))) => a.text() == b.text(),
        (Value::Lit(Literal::EntityUID(a)), Value::Lit(Literal::EntityUID(b))) => a.ty.text()
            == b.ty.text() && a.eid.text() == b.eid.text(),
        (Value::SetOf(a), Value::SetOf(b)) => a@.len() == b@.len() && forall|i: int|
            0 <= i < a@.len() ==> same_value(#[trigger] a@[i], b@[i]),
        (Value::Record(a), Value::Record(b)) => a@.len() == b@.len() && forall|i: int|
            0 <= i < a@.len() ==> (#[trigger] a@[i]).0.text() == b@[i].0.text() && same_value(
                a@[i].1,
                b@[i].1,
            ),
        (
            Value::Extension { fn_name: f, args: a },
            Value::Extension { fn_name: g, args: b },
        ) => f.text() == g.text() && a@.len() == b@.len() && forall|i: int|
            0 <= i < a@.len() ==> same_value(#[trigger] a@[i], b@[i]),
        _ => false,
    }
}

/// The expression of a value determines the value.
pub proof fn values_are_told_apart(left: Value, right: Value)
    requires
        left.expr_view() == right.expr_view(),
    ensures
        same_value(left, right),
    decreases left,
{
    let (expr, other) = (left.expr_view(), right.expr_view());
    match (left, right) {
        (Value::SetOf(a), Value::SetOf(b)) => {
            assert(expr->SetOf_0.len() == a@.len() && other->SetOf_0.len() == b@.len());
            assert forall|i: int| 0 <= i < a@.len() implies same_value(#[trigger] a@[i], b@[i]) by {
                assert(expr->SetOf_0[i] == a@[i].expr_view());
                assert(other->SetOf_0[i] == b@[i].expr_view());
                values_are_told_apart(a@[i], b@[i]);
            }
        },
        (Value::Record(a), Value::Record(b)) => {
            assert(expr->Record_0.len() == a@.len() && other->Record_0.len() == b@.len());
            assert forall|i: int| 0 <= i < a@.len() implies (#[trigger] a@[i]).0.text()
                == b@[i].0.text() && same_value(a@[i].1, b@[i].1) by {
                assert(expr->Record_0[i] == (a@[i].0.text(), a@[i].1.expr_view()));
                assert(other->Record_0[i] == (b@[i].0.text(), b@[i].1.expr_view()));
                values_are_told_apart(a@[i].1, b@[i].1);
            }
        },
        (Value::Extension { fn_name: f, args: a }, Value::Extension { fn_name: g, args: b }) => {
            assert(expr->ExtensionFunctionApp_1.len() == a@.len() && other->ExtensionFunctionApp_1.len() == b@.len());
            assert forall|i: int| 0 <= i < a@.len() implies same_value(#[trigger] a@[i], b@[i]) by {
                assert(expr->ExtensionFunctionApp_1[i] == a@[i].expr_view());
                assert(other->ExtensionFunctionApp_1[i] == b@[i].expr_view());
                values_are_told_apart(a@[i], b@[i]);
            }
        },
        _ => {},
    }
}

/// `Expr::substitute` replaces each mapped unknown, at whatever depth it stands, and changes
/// nothing else. No mapped unknown is left.
pub proof fn substitute_replaces_mapped_unknowns(
    expr: Expr,
    definitions: TextMap<SmolStr, Value>,
    result: Expr,
)
    requires
        call_ensures(Expr::substitute, (&expr, &definitions), result),
    ensures
        replaced(expr@, result@, definitions@),
        forall|name: Seq<char>| #[trigger]
            occurs(name, result@) <==> occurs(name, expr@) && !definitions@.contains_key(name),
{
    substitution_replaces_mapped_unknowns(expr@, definitions@);
    assert forall|name: Seq<char>| #[trigger]
        occurs(name, result@) <==> occurs(name, expr@) && !definitions@.contains_key(name) by {
        substitution_removes_the_mapped_unknowns(expr@, definitions@, name);
    }
}

/// `Value::to_expr` gives an expression that spells out the value, and different expressions for
/// different values.
pub proof fn to_expr_spells_out_the_value(left: Value, right: Value, a: Expr, b: Expr)
    requires
        call_ensures(Value::to_expr, (&left,), a),
        call_ensures(Value::to_expr, (&right,), b),
    ensures
        denotes(a@, left),
        denotes(b@, right),
        a@ == b@ ==> same_value(left, right),
{
    value_is_denoted_by_its_expression(left, a@);
    value_is_denoted_by_its_expression(right, b@);
    if a@ == b@ {
        values_are_told_apart(left, right);
    }
}

/// A copy of an expression is written like the expression.
pub proof fn copy_shows_the_same(expr: Expr, copy: Expr)
    requires
        call_ensures(<Expr as Clone>::clone, (&expr,), copy),
    ensures
        shows(expr, expr@),
        shows(copy, expr@),
{
    tree_shows_the_expression(&expr, expr@);
    tree_shows_the_expression(&copy, copy@);
}

/// A truth value, an integer, a string or an entity makes the literal of its kind that holds it.
pub proof fn literals_hold_what_they_are_made_of(
    b: bool,
    i: i64,
    s: SmolStr,
    uid: EntityUID,
    of_bool: Literal,
    of_long: Literal,
    of_string: Literal,
    of_entity: Literal,
)
    requires
        call_ensures(<Literal as From<bool>>::from, (b,), of_bool),
        call_ensures(<Literal as From<i64>>::from, (i,), of_long),
        call_ensures(<Literal as From<SmolStr>>::from, (s,), of_string),
        call_ensures(<Literal as From<EntityUID>>::from, (uid,), of_entity),
    ensures
        of_bool == Literal::Bool(b),
        of_long == Literal::Long(i),
        of_string == Literal::String(s),
        of_entity == Literal::EntityUID(uid),
{
}

/// The literal expression of a value is that value's literal, of its kind.
pub proof fn literal_expressions_show_their_value(
    b: bool,
    i: i64,
    s: SmolStr,
    uid: EntityUID,
    of_bool: Expr,
    of_long: Expr,
    of_string: Expr,
    of_entity: Expr,
)
    requires
        call_ensures(Expr::val::<bool>, (b,), of_bool),
        call_ensures(Expr::val::<i64>, (i,), of_long),
        call_ensures(Expr::val::<SmolStr>, (s,), of_string),
        call_ensures(Expr::val::<EntityUID>, (uid,), of_entity),
    ensures
        shows(of_bool, ExprView::Lit(LiteralView::Bool(b))),
        shows(of_long, ExprView::Lit(LiteralView::Long(i))),
        shows(of_string, ExprView::Lit(LiteralView::String(s.text()))),
        shows(
            of_entity,
            ExprView::Lit(
                LiteralView::EntityUID(EntityUIDView { ty: uid.ty.text(), eid: uid.eid.text() }),
            ),
        ),
{
    tree_shows_the_expression(&of_bool, of_bool@);
    tree_shows_the_expression(&of_long, of_long@);
    tree_shows_the_expression(&of_string, of_string@);
    tree_shows_the_expression(&of_entity, of_entity@);
}

/// An unknown is the unknown of its name, and a sum is the sum of its two parts.
pub proof fn unknowns_and_sums_show_their_parts(
    name: SmolStr,
    unknown: Expr,
    left: Expr,
    right: Expr,
    sum: Expr,
)
    requires
        call_ensures(Expr::unknown, (name,), unknown),
        call_ensures(Expr::add, (left, right), sum),
    ensures
        shows(unknown, ExprView::Unknown(name.text())),
        shows(sum, ExprView::BinaryApp(BinaryOp::Add, Box::new(left@), Box::new(right@))),
{
    tree_shows_the_expression(&unknown, unknown@);
    tree_shows_the_expression(&sum, sum@);
}

/// A copy of a literal shows the same kind and content.
pub proof fn literal_copy_shows_the_same(literal: Literal, copy: Literal)
    requires
        call_ensures(<Literal as Clone>::clone, (&literal,), copy),
    ensures
        literal_shows(literal, literal@),
        literal_shows(copy, literal@),
{
}

} // verus!
