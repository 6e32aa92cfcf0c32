//! Policy expressions, which may hold unknowns, and the values that can stand for an unknown.

use smol_str::SmolStr;
use std::sync::Arc;
use vstd::prelude::*;

use crate::text::{smol_str_clone, TextKey, TextMap};

verus! {

/// The identifier of an entity.
#[derive(Debug, PartialEq, Eq, Hash)]
pub struct EntityUID {
    /// The entity's type
    pub ty: SmolStr,
    /// The entity's identifier within its type
    pub eid: SmolStr,
}

/// The texts of an [`EntityUID`].
pub struct EntityUIDView {
    /// The entity's type
    pub ty: Seq<char>,
    /// The entity's identifier within its type
    pub eid: Seq<char>,
}

impl View for EntityUID {
    type V = EntityUIDView;

    open spec fn view(&self) -> EntityUIDView {
        EntityUIDView { ty: self.ty.text(), eid: self.eid.text() }
    }
}

impl Clone for EntityUID {
    fn clone(&self) -> (copy: Self)
        ensures
            copy@ == self@,
    {
        EntityUID { ty: smol_str_clone(&self.ty), eid: smol_str_clone(&self.eid) }
    }
}

/// A literal value.
#[derive(Debug, PartialEq, Eq, Hash)]
pub enum Literal {
    /// `true` or `false`
    Bool(bool),
    /// A signed integer
    Long(i64),
    /// A string
    String(SmolStr),
    /// A reference to an entity
    EntityUID(EntityUID),
}

/// The mathematical value of a [`Literal`].
pub enum LiteralView {
    /// `true` or `false`
    Bool(bool),
    /// A signed integer
    Long(i64),
    /// A string
    String(Seq<char>),
    /// A reference to an entity
    EntityUID(EntityUIDView),
}

impl View for Literal {
    type V = LiteralView;

    open spec fn view(&self) -> LiteralView {
        match self {
            Literal::Bool(b) => LiteralView::Bool(*b),
            Literal::Long(i) => LiteralView::Long(*i),
            Literal::String(s) => LiteralView::String(s.text()),
            Literal::EntityUID(uid) => LiteralView::EntityUID(uid@),
        }
    }
}

impl Clone for Literal {
    fn clone(&self) -> (copy: Self)
        ensures
            copy@ == self@,
    {
        match self {
            Literal::Bool(b) => Literal::Bool(*b),
            Literal::Long(i) => Literal::Long(*i),
            Literal::String(s) => Literal::String(smol_str_clone(s)),
            Literal::EntityUID(uid) => Literal::EntityUID(uid.clone()),
        }
    }
}

impl From<bool> for Literal {
    fn from(b: bool) -> (literal: Self) {
        Literal::Bool(b)
    }
}

impl vstd::std_specs::convert::FromSpecImpl<bool> for Literal {
    open spec fn obeys_from_spec() -> bool {
        true
    }

    open spec fn from_spec(b: bool) -> Self {
        Literal::Bool(b)
    }
}

impl From<i64> for Literal {
    fn from(i: i64) -> (literal: Self) {
        Literal::Long(i)
    }
}

impl vstd::std_specs::convert::FromSpecImpl<i64> for Literal {
    open spec fn obeys_from_spec() -> bool {
        true
    }

    open spec fn from_spec(i: i64) -> Self {
        Literal::Long(i)
    }
}

impl From<SmolStr> for Literal {
    fn from(s: SmolStr) -> (literal: Self) {
        Literal::String(s)
    }
}

impl vstd::std_specs::convert::FromSpecImpl<SmolStr> for Literal {
    open spec fn obeys_from_spec() -> bool {
        true
    }

    open spec fn from_spec(s: SmolStr) -> Self {
        Literal::String(s)
    }
}

impl From<EntityUID> for Literal {
    fn from(uid: EntityUID) -> (literal: Self) {
        Literal::EntityUID(uid)
    }
}

impl vstd::std_specs::convert::FromSpecImpl<EntityUID> for Literal {
    open spec fn obeys_from_spec() -> bool {
        true
    }

    open spec fn from_spec(uid: EntityUID) -> Self {
        Literal::EntityUID(uid)
    }
}

/// A variable that a request gives a value to.
#[derive(Debug, Clone, Copy, PartialEq, Eq, Hash)]
pub enum Var {
    /// The principal of the request
    Principal,
    /// The action of the request
    Action,
    /// The resource of the request
    Resource,
    /// The context of the request
    Context,
}

/// An operator with one operand.
#[derive(Debug, Clone, Copy, PartialEq, Eq, Hash)]
pub enum UnaryOp {
    /// Logical negation
    Not,
    /// Integer negation
    Neg,
}

/// An operator with two operands.
#[derive(Debug, Clone, Copy, PartialEq, Eq, Hash)]
pub enum BinaryOp {
    /// Equality
    Eq,
    /// Integer `<`
    Less,
    /// Integer `<=`
    LessEq,
    /// Integer addition
    Add,
    /// Integer subtraction
    Sub,
    /// Integer multiplication
    Mul,
    /// Entity hierarchy membership
    In,
    /// Set membership
    Contains,
    /// Set inclusion
    ContainsAll,
    /// Set intersection test
    ContainsAny,
}

/// An expression. Parts are shared, so that a clone copies no part.
#[derive(Debug, PartialEq, Eq)]
#[allow(inconsistent_fields)]
pub enum Expr {
    /// A literal value
    Lit(Literal),
    /// A variable of the request
    Var(Var),
    /// An unknown, by its name
    Unknown(SmolStr),
    /// A conditional
    If {
        /// The condition
        test_expr: Arc<Expr>,
        /// The value if the condition holds
        then_expr: Arc<Expr>,
        /// The value if it does not
        else_expr: Arc<Expr>,
    },
    /// A conjunction, evaluated from the left
    And {
        /// The left operand
        left: Arc<Expr>,
        /// The right operand
        right: Arc<Expr>,
    },
    /// A disjunction, evaluated from the left
    Or {
        /// The left operand
        left: Arc<Expr>,
        /// The right operand
        right: Arc<Expr>,
    },
    /// An operator applied to one operand
    UnaryApp {
        /// The operator
        op: UnaryOp,
        /// The operand
        arg: Arc<Expr>,
    },
    /// An operator applied to two operands
    BinaryApp {
        /// The operator
        op: BinaryOp,
        /// The first operand
        arg1: Arc<Expr>,
        /// The second operand
        arg2: Arc<Expr>,
    },
    /// A call of an extension function
    ExtensionFunctionApp {
        /// The function's name
        fn_name: SmolStr,
        /// The arguments
        args: Arc<Vec<Expr>>,
    },
    /// An attribute of an entity or a record
    GetAttr {
        /// The entity or record
        expr: Arc<Expr>,
        /// The attribute's name
        attr: SmolStr,
    },
    /// Whether an entity or a record has an attribute
    HasAttr {
        /// The entity or record
        expr: Arc<Expr>,
        /// The attribute's name
        attr: SmolStr,
    },
    /// Whether a string matches a pattern
    Like {
        /// The string
        expr: Arc<Expr>,
        /// The pattern
        pattern: SmolStr,
    },
    /// Whether an entity is of a type
    Is {
        /// The entity
        expr: Arc<Expr>,
        /// The type's name
        entity_type: SmolStr,
    },
    /// A set, by its elements
    SetOf(Arc<Vec<Expr>>),
    /// A record, by its attributes
    Record(Arc<Vec<(SmolStr, Expr)>>),
}

/// The syntax tree of an [`Expr`].
pub enum ExprView {
    /// See [`Expr::Lit`]
    Lit(LiteralView),
    /// See [`Expr::Var`]
    Var(Var),
    /// See [`Expr::Unknown`]
    Unknown(Seq<char>),
    /// See [`Expr::If`]
    If(Box<ExprView>, Box<ExprView>, Box<ExprView>),
    /// See [`Expr::And`]
    And(Box<ExprView>, Box<ExprView>),
    /// See [`Expr::Or`]
    Or(Box<ExprView>, Box<ExprView>),
    /// See [`Expr::UnaryApp`]
    UnaryApp(UnaryOp, Box<ExprView>),
    /// See [`Expr::BinaryApp`]
    BinaryApp(BinaryOp, Box<ExprView>, Box<ExprView>),
    /// See [`Expr::ExtensionFunctionApp`]
    ExtensionFunctionApp(Seq<char>, Seq<ExprView>),
    /// See [`Expr::GetAttr`]
    GetAttr(Box<ExprView>, Seq<char>),
    /// See [`Expr::HasAttr`]
    HasAttr(Box<ExprView>, Seq<char>),
    /// See [`Expr::Like`]
    Like(Box<ExprView>, Seq<char>),
    /// See [`Expr::Is`]
    Is(Box<ExprView>, Seq<char>),
    /// See [`Expr::SetOf`]
    SetOf(Seq<ExprView>),
    /// See [`Expr::Record`]
    Record(Seq<(Seq<char>, ExprView)>),
}

impl Expr {
    /// The syntax tree of the expression.
    pub open spec fn tree(&self) -> ExprView
        decreases self,
    {
        match self {
            Expr::Lit(l) => ExprView::Lit(l@),
            Expr::Var(v) => ExprView::Var(*v),
            Expr::Unknown(name) => ExprView::Unknown(name.text()),
            Expr::If { test_expr, then_expr, else_expr } => ExprView::If(
                Box::new(test_expr.tree()),
                Box::new(then_expr.tree()),
                Box::new(else_expr.tree()),
            ),
            Expr::And { left, right } => ExprView::And(
                Box::new(left.tree()),
                Box::new(right.tree()),
            ),
            Expr::Or { left, right } => ExprView::Or(
                Box::new(left.tree()),
                Box::new(right.tree()),
            ),
            Expr::UnaryApp { op, arg } => ExprView::UnaryApp(*op, Box::new(arg.tree())),
            Expr::BinaryApp { op, arg1, arg2 } => ExprView::BinaryApp(
                *op,
                Box::new(arg1.tree()),
                Box::new(arg2.tree()),
            ),
            Expr::ExtensionFunctionApp { fn_name, args } => ExprView::ExtensionFunctionApp(
                fn_name.text(),
                Seq::new(
                    args@.len(),
                    |i: int|
                        if 0 <= i < args@.len() {
                            args@[i].tree()
                        } else {
                            arbitrary()
                        },
                ),
            ),
            Expr::GetAttr { expr, attr } => ExprView::GetAttr(Box::new(expr.tree()), attr.text()),
            Expr::HasAttr { expr, attr } => ExprView::HasAttr(Box::new(expr.tree()), attr.text()),
            Expr::Like { expr, pattern } => ExprView::Like(Box::new(expr.tree()), pattern.text()),
            Expr::Is { expr, entity_type } => ExprView::Is(
                Box::new(expr.tree()),
                entity_type.text(),
            ),
            Expr::SetOf(elements) => ExprView::SetOf(
                Seq::new(
                    elements@.len(),
                    |i: int|
                        if 0 <= i < elements@.len() {
                            elements@[i].tree()
                        } else {
                            arbitrary()
                        },
                ),
            ),
            Expr::Record(attrs) => ExprView::Record(
                Seq::new(
                    attrs@.len(),
                    |i: int|
                        if 0 <= i < attrs@.len() {
                            (attrs@[i].0.text(), attrs@[i].1.tree())
                        } else {
                            arbitrary()
                        },
                ),
            ),
        }
    }
}

impl View for Expr {
    type V = ExprView;

    open spec fn view(&self) -> ExprView {
        self.tree()
    }
}

impl Clone for Expr {
    fn clone(&self) -> (copy: Self)
        ensures
            copy@ == self@,
    {
        match self {
            Expr::Lit(l) => Expr::Lit(l.clone()),
            Expr::Var(v) => Expr::Var(*v),
            Expr::Unknown(name) => Expr::Unknown(smol_str_clone(name)),
            Expr::If { test_expr, then_expr, else_expr } => Expr::If {
                test_expr: test_expr.clone(),
                then_expr: then_expr.clone(),
                else_expr: else_expr.clone(),
            },
            Expr::And { left, right } => Expr::And { left: left.clone(), right: right.clone() },
            Expr::Or { left, right } => Expr::Or { left: left.clone(), right: right.clone() },
            Expr::UnaryApp { op, arg } => Expr::UnaryApp { op: *op, arg: arg.clone() },
            Expr::BinaryApp { op, arg1, arg2 } => Expr::BinaryApp {
                op: *op,
                arg1: arg1.clone(),
                arg2: arg2.clone(),
            },
            Expr::ExtensionFunctionApp { fn_name, args } => Expr::ExtensionFunctionApp {
                fn_name: smol_str_clone(fn_name),
                args: args.clone(),
            },
            Expr::GetAttr { expr, attr } => Expr::GetAttr {
                expr: expr.clone(),
                attr: smol_str_clone(attr),
            },
            Expr::HasAttr { expr, attr } => Expr::HasAttr {
                expr: expr.clone(),
                attr: smol_str_clone(attr),
            },
            Expr::Like { expr, pattern } => Expr::Like {
                expr: expr.clone(),
                pattern: smol_str_clone(pattern),
            },
            Expr::Is { expr, entity_type } => Expr::Is {
                expr: expr.clone(),
                entity_type: smol_str_clone(entity_type),
            },
            Expr::SetOf(elements) => Expr::SetOf(elements.clone()),
            Expr::Record(attrs) => Expr::Record(attrs.clone()),
        }
    }
}

/// A value that can stand for an unknown.
#[derive(Debug, PartialEq, Eq)]
pub enum Value {
    /// A literal value
    Lit(Literal),
    /// A set, by its elements
    SetOf(Arc<Vec<Value>>),
    /// A record, by its attributes
    Record(Arc<Vec<(SmolStr, Value)>>),
    /// The value of an extension function
    Extension {
        /// The function's name
        fn_name: SmolStr,
        /// The arguments
        args: Arc<Vec<Value>>,
    },
}

impl Value {
    /// The expression that denotes the value.
    pub open spec fn expr_view(&self) -> ExprView
        decreases self,
    {
        match self {
            Value::Lit(l) => ExprView::Lit(l@),
            Value::SetOf(elements) => ExprView::SetOf(
                Seq::new(
                    elements@.len(),
                    |i: int|
                        if 0 <= i < elements@.len() {
                            elements@[i].expr_view()
                        } else {
                            arbitrary()
                        },
                ),
            ),
            Value::Record(attrs) => ExprView::Record(
                Seq::new(
                    attrs@.len(),
                    |i: int|
                        if 0 <= i < attrs@.len() {
                            (attrs@[i].0.text(), attrs@[i].1.expr_view())
                        } else {
                            arbitrary()
                        },
                ),
            ),
            Value::Extension { fn_name, args } => ExprView::ExtensionFunctionApp(
                fn_name.text(),
                Seq::new(
                    args@.len(),
                    |i: int|
                        if 0 <= i < args@.len() {
                            args@[i].expr_view()
                        } else {
                            arbitrary()
                        },
                ),
            ),
        }
    }

    /// The expression that denotes the value.
    pub fn to_expr(&self) -> (expr: Expr)
        ensures
            expr@ == self.expr_view(),
        decreases self,
    {
        match self {
            Value::Lit(l) => Expr::Lit(l.clone()),
            Value::SetOf(elements) => {
                let mut exprs: Vec<Expr> = Vec::new();
                let mut i: usize = 0;
                while i < elements.len()
                    invariant
                        i <= elements.len(),
                        exprs.len() == i,
                        self == Value::SetOf(*elements),
                        forall|j: int|
                            0 <= j < i ==> (#[trigger] exprs@[j])@ == elements@[j].expr_view(),
                    decreases elements.len() - i,
                {
                    assert(decreases_to!(self => self->SetOf_0));
                    assert(decreases_to!(self => elements@[i as int]));
                    exprs.push(elements[i].to_expr());
                    i += 1;
                }
                let expr = Expr::SetOf(Arc::new(exprs));
                assert(expr@->SetOf_0 =~= self.expr_view()->SetOf_0);
                expr
            },
            Value::Record(attrs) => {
                let mut exprs: Vec<(SmolStr, Expr)> = Vec::new();
                let mut i: usize = 0;
                while i < attrs.len()
                    invariant
                        i <= attrs.len(),
                        exprs.len() == i,
                        self == Value::Record(*attrs),
                        forall|j: int|
                            #![trigger exprs@[j]]
                            0 <= j < i ==> exprs@[j].0.text() == attrs@[j].0.text() && exprs@[j].1@
                                == attrs@[j].1.expr_view(),
                    decreases attrs.len() - i,
                {
                    assert(decreases_to!(self => self->Record_0));
                    assert(decreases_to!(self => attrs@[i as int]));
                    assert(decreases_to!(self => attrs@[i as int].1));
                    exprs.push((smol_str_clone(&attrs[i].0), attrs[i].1.to_expr()));
                    i += 1;
                }
                let expr = Expr::Record(Arc::new(exprs));
                assert(expr@->Record_0 =~= self.expr_view()->Record_0);
                expr
            },
            Value::Extension { fn_name, args } => {
                let mut exprs: Vec<Expr> = Vec::new();
                let mut i: usize = 0;
                while i < args.len()
                    invariant
                        i <= args.len(),
                        exprs.len() == i,
                        self == (Value::Extension { fn_name: *fn_name, args: *args }),
                        forall|j: int|
                            0 <= j < i ==> (#[trigger] exprs@[j])@ == args@[j].expr_view(),
                    decreases args.len() - i,
                {
                    assert(decreases_to!(self => self->args));
                    assert(decreases_to!(self => args@[i as int]));
                    exprs.push(args[i].to_expr());
                    i += 1;
                }
                let expr = Expr::ExtensionFunctionApp {
                    fn_name: smol_str_clone(fn_name),
                    args: Arc::new(exprs),
                };
                assert(expr@->ExtensionFunctionApp_1 =~= self.expr_view()->ExtensionFunctionApp_1);
                expr
            },
        }
    }
}

impl ExprView {
    /// The expression with the denoted value in the place of every unknown that `definitions`
    /// maps, and all else unchanged.
    pub open spec fn substitute(self, definitions: Map<Seq<char>, Value>) -> ExprView
        decreases self,
    {
        match self {
            ExprView::Lit(_) => self,
            ExprView::Var(_) => self,
            ExprView::Unknown(name) => if definitions.contains_key(name) {
                definitions[name].expr_view()
            } else {
                self
            },
            ExprView::If(test_expr, then_expr, else_expr) => ExprView::If(
                Box::new(test_expr.substitute(definitions)),
                Box::new(then_expr.substitute(definitions)),
                Box::new(else_expr.substitute(definitions)),
            ),
            ExprView::And(left, right) => ExprView::And(
                Box::new(left.substitute(definitions)),
                Box::new(right.substitute(definitions)),
            ),
            ExprView::Or(left, right) => ExprView::Or(
                Box::new(left.substitute(definitions)),
                Box::new(right.substitute(definitions)),
            ),
            ExprView::UnaryApp(op, arg) => ExprView::UnaryApp(
                op,
                Box::new(arg.substitute(definitions)),
            ),
            ExprView::BinaryApp(op, arg1, arg2) => ExprView::BinaryApp(
                op,
                Box::new(arg1.substitute(definitions)),
                Box::new(arg2.substitute(definitions)),
            ),
            ExprView::ExtensionFunctionApp(fn_name, args) => ExprView::ExtensionFunctionApp(
                fn_name,
                Seq::new(
                    args.len(),
                    |i: int|
                        if 0 <= i < args.len() {
                            args[i].substitute(definitions)
                        } else {
                            arbitrary()
                        },
                ),
            ),
            ExprView::GetAttr(expr, attr) => ExprView::GetAttr(
                Box::new(expr.substitute(definitions)),
                attr,
            ),
            ExprView::HasAttr(expr, attr) => ExprView::HasAttr(
                Box::new(expr.substitute(definitions)),
                attr,
            ),
            ExprView::Like(expr, pattern) => ExprView::Like(
                Box::new(expr.substitute(definitions)),
                pattern,
            ),
            ExprView::Is(expr, entity_type) => ExprView::Is(
                Box::new(expr.substitute(definitions)),
                entity_type,
            ),
            ExprView::SetOf(elements) => ExprView::SetOf(
                Seq::new(
                    elements.len(),
                    |i: int|
                        if 0 <= i < elements.len() {
                            elements[i].substitute(definitions)
                        } else {
                            arbitrary()
                        },
                ),
            ),
            ExprView::Record(attrs) => ExprView::Record(
                Seq::new(
                    attrs.len(),
                    |i: int|
                        if 0 <= i < attrs.len() {
                            (attrs[i].0, attrs[i].1.substitute(definitions))
                        } else {
                            arbitrary()
                        },
                ),
            ),
        }
    }
}

impl Expr {
    /// The literal expression for a value.
    pub fn val<T: Into<Literal>>(value: T) -> (expr: Self)
        ensures
            <T as vstd::std_specs::convert::IntoSpec<Literal>>::obeys_into_spec() ==> expr@
                == ExprView::Lit(
                <T as vstd::std_specs::convert::IntoSpec<Literal>>::into_spec(value)@,
            ),
    {
        Expr::Lit(value.into())
    }

    /// The sum of two expressions.
    pub fn add(e1: Expr, e2: Expr) -> (expr: Self)
        ensures
            expr@ == ExprView::BinaryApp(BinaryOp::Add, Box::new(e1@), Box::new(e2@)),
    {
        Expr::BinaryApp { op: BinaryOp::Add, arg1: Arc::new(e1), arg2: Arc::new(e2) }
    }

    /// The unknown with the given name.
    pub fn unknown(name: SmolStr) -> (expr: Self)
        ensures
            expr@ == ExprView::Unknown(name.text()),
    {
        Expr::Unknown(name)
    }

    /// The expression with the denoted value in the place of every unknown that `definitions`
    /// maps. An unknown that it does not map stays.
    pub fn substitute(&self, definitions: &TextMap<SmolStr, Value>) -> (expr: Self)
        ensures
            expr@ == self@.substitute(definitions@),
        decreases self,
    {
        match self {
            Expr::Lit(l) => Expr::Lit(l.clone()),
            Expr::Var(v) => Expr::Var(*v),
            Expr::Unknown(name) => match definitions.get(name) {
                Some(value) => value.to_expr(),
                None => Expr::Unknown(smol_str_clone(name)),
            },
            Expr::If { test_expr, then_expr, else_expr } => Expr::If {
                test_expr: Arc::new(test_expr.substitute(definitions)),
                then_expr: Arc::new(then_expr.substitute(definitions)),
                else_expr: Arc::new(else_expr.substitute(definitions)),
            },
            Expr::And { left, right } => Expr::And {
                left: Arc::new(left.substitute(definitions)),
                right: Arc::new(right.substitute(definitions)),
            },
            Expr::Or { left, right } => Expr::Or {
                left: Arc::new(left.substitute(definitions)),
                right: Arc::new(right.substitute(definitions)),
            },
            Expr::UnaryApp { op, arg } => Expr::UnaryApp {
                op: *op,
                arg: Arc::new(arg.substitute(definitions)),
            },
            Expr::BinaryApp { op, arg1, arg2 } => Expr::BinaryApp {
                op: *op,
                arg1: Arc::new(arg1.substitute(definitions)),
                arg2: Arc::new(arg2.substitute(definitions)),
            },
            Expr::ExtensionFunctionApp { fn_name, args } => {
                proof {
                    assert(decreases_to!(self => self->args));
                }
                let substituted = Self::substitute_all(args, definitions);
                let ghost exprs = substituted@;
                let expr = Expr::ExtensionFunctionApp {
                    fn_name: smol_str_clone(fn_name),
                    args: Arc::new(substituted),
                };
                proof {
                    let parts = self@->ExtensionFunctionApp_1;
                    let goal = self@.substitute(definitions@)->ExtensionFunctionApp_1;
                    assert forall|i: int| 0 <= i < exprs.len() implies exprs[i]@ == goal[i] by {
                        assert(parts[i] == args@[i]@);
                    }
                    assert(expr@->ExtensionFunctionApp_1 =~= goal);
                }
                expr
            },
            Expr::GetAttr { expr, attr } => Expr::GetAttr {
                expr: Arc::new(expr.substitute(definitions)),
                attr: smol_str_clone(attr),
            },
            Expr::HasAttr { expr, attr } => Expr::HasAttr {
                expr: Arc::new(expr.substitute(definitions)),
                attr: smol_str_clone(attr),
            },
            Expr::Like { expr, pattern } => Expr::Like {
                expr: Arc::new(expr.substitute(definitions)),
                pattern: smol_str_clone(pattern),
            },
            Expr::Is { expr, entity_type } => Expr::Is {
                expr: Arc::new(expr.substitute(definitions)),
                entity_type: smol_str_clone(entity_type),
            },
            Expr::SetOf(elements) => {
                proof {
                    assert(decreases_to!(self => self->SetOf_0));
                }
                let substituted = Self::substitute_all(elements, definitions);
                let ghost exprs = substituted@;
                let expr = Expr::SetOf(Arc::new(substituted));
                proof {
                    let parts = self@->SetOf_0;
                    let goal = self@.substitute(definitions@)->SetOf_0;
                    assert forall|i: int| 0 <= i < exprs.len() implies exprs[i]@ == goal[i] by {
                        assert(parts[i] == elements@[i]@);
                    }
                    assert(expr@->SetOf_0 =~= goal);
                }
                expr
            },
            Expr::Record(attrs) => {
                let mut exprs: Vec<(SmolStr, Expr)> = Vec::new();
                let mut i: usize = 0;
                while i < attrs.len()
                    invariant
                        i <= attrs.len(),
                        exprs.len() == i,
                        self == Expr::Record(*attrs),
                        forall|j: int|
                            #![trigger exprs@[j]]
                            0 <= j < i ==> exprs@[j].0.text() == attrs@[j].0.text() && exprs@[j].1@
                                == attrs@[j].1@.substitute(definitions@),
                    decreases attrs.len() - i,
                {
                    assert(decreases_to!(self => self->Record_0));
                    assert(decreases_to!(self => attrs@[i as int]));
                    assert(decreases_to!(self => attrs@[i as int].1));
                    exprs.push((smol_str_clone(&attrs[i].0), attrs[i].1.substitute(definitions)));
                    i += 1;
                }
                let expr = Expr::Record(Arc::new(exprs));
                assert(expr@->Record_0 =~= self@.substitute(definitions@)->Record_0);
                expr
            },
        }
    }

    /// Each of several expressions with the values in the place of the unknowns.
    fn substitute_all(exprs: &Vec<Expr>, definitions: &TextMap<SmolStr, Value>) -> (substituted:
        Vec<Expr>)
        ensures
            substituted.len() == exprs.len(),
            forall|i: int|
                0 <= i < exprs.len() ==> (#[trigger] substituted@[i])@ == exprs@[i]@.substitute(
                    definitions@,
                ),
        decreases exprs,
    {
        let mut substituted: Vec<Expr> = Vec::new();
        let mut i: usize = 0;
        while i < exprs.len()
            invariant
                i <= exprs.len(),
                substituted.len() == i,
                forall|j: int|
                    0 <= j < i ==> (#[trigger] substituted@[j])@ == exprs@[j]@.substitute(
                        definitions@,
                    ),
            decreases exprs.len() - i,
        {
            assert(decreases_to!(exprs => exprs@[i as int]));
            substituted.push(exprs[i].substitute(definitions));
            i += 1;
        }
        substituted
    }
}

} // verus!
