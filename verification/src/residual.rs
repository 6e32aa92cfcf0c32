//! The residuals of policies, and the policies that are built from them.

use smol_str::SmolStr;
use std::sync::Arc;
use vstd::prelude::*;

use crate::expr::{Expr, ExprView, Value};
use crate::model;
use crate::model::ResidualView;
use crate::partial_response::ErrorState;
use crate::policy;
use crate::policy::{Annotations, Effect, Policy};
use crate::policy_id::PolicyID;
use crate::text::{TextKey, TextMap};

verus! {

/// What a policy is built from: its effect, its identifier, its condition and its annotations.
pub type PolicyPrototype<'a> = (Effect, &'a PolicyID, &'a Arc<Expr>, &'a Arc<Annotations>);

/// The residual that a prototype holds.
pub open spec fn prototype_view(prototype: PolicyPrototype<'_>) -> ResidualView {
    ResidualView {
        effect: prototype.0,
        id: prototype.1.text(),
        expr: prototype.2@,
        annotations: *prototype.3,
    }
}

/// The residuals that several prototypes hold, in order.
pub open spec fn prototype_views(prototypes: Seq<PolicyPrototype<'_>>) -> Seq<ResidualView> {
    prototypes.map_values(|p: PolicyPrototype<'_>| prototype_view(p))
}

/// The residuals of satisfied policies: `true`.
pub open spec fn satisfied_residuals_of(
    effect: Effect,
    entries: Seq<(PolicyID, Arc<Annotations>)>,
) -> Seq<ResidualView> {
    entries.map_values(
        |e: (PolicyID, Arc<Annotations>)|
            ResidualView {
                effect,
                id: e.0.text(),
                expr: model::bool_expr(true),
                annotations: e.1,
            },
    )
}

/// The residuals of policies that are not satisfied: `false`, whether or not they errored.
pub open spec fn false_residuals_of(
    effect: Effect,
    entries: Seq<(PolicyID, (ErrorState, Arc<Annotations>))>,
) -> Seq<ResidualView> {
    entries.map_values(
        |e: (PolicyID, (ErrorState, Arc<Annotations>))|
            ResidualView {
                effect,
                id: e.0.text(),
                expr: model::bool_expr(false),
                annotations: e.1.1,
            },
    )
}

/// The residuals of policies with a nontrivial one.
pub open spec fn nontrivial_residuals_of(
    effect: Effect,
    entries: Seq<(PolicyID, (Arc<Expr>, Arc<Annotations>))>,
) -> Seq<ResidualView> {
    entries.map_values(
        |e: (PolicyID, (Arc<Expr>, Arc<Annotations>))|
            ResidualView { effect, id: e.0.text(), expr: e.1.0@, annotations: e.1.1 },
    )
}

/// The trivial expressions `true` and `false`, which stand for what is left of a policy that is
/// satisfied or is not.
#[derive(Debug, PartialEq, Eq)]
pub struct TrivialExprs {
    true_expr: Arc<Expr>,
    false_expr: Arc<Expr>,
}

impl TrivialExprs {
    #[verifier::type_invariant]
    spec fn are_literals(self) -> bool {
        &&& self.true_expr@ == model::bool_expr(true)
        &&& self.false_expr@ == model::bool_expr(false)
    }

    /// The expression that stands for what is left of a policy that is satisfied.
    pub closed spec fn true_view(&self) -> ExprView {
        self.true_expr@
    }

    /// The expression that stands for what is left of a policy that is not satisfied.
    pub closed spec fn false_view(&self) -> ExprView {
        self.false_expr@
    }

    /// The two expressions: the literals `true` and `false`.
    pub(crate) fn new() -> (trivial: Self)
        ensures
            trivial.true_view() == model::bool_expr(true),
            trivial.false_view() == model::bool_expr(false),
    {
        TrivialExprs {
            true_expr: Arc::new(Expr::val(true)),
            false_expr: Arc::new(Expr::val(false)),
        }
    }

    /// The expression `true`.
    pub(crate) fn true_expr(&self) -> (expr: &Arc<Expr>)
        ensures
            expr@ == self.true_view(),
            expr@ == model::bool_expr(true),
    {
        proof {
            use_type_invariant(self);
        }
        &self.true_expr
    }

    /// The expression `false`.
    pub(crate) fn false_expr(&self) -> (expr: &Arc<Expr>)
        ensures
            expr@ == self.false_view(),
            expr@ == model::bool_expr(false),
    {
        proof {
            use_type_invariant(self);
        }
        &self.false_expr
    }

    /// The residuals of policies that are satisfied.
    pub(crate) fn satisfied<'a>(
        &'a self,
        effect: Effect,
        map: &'a TextMap<PolicyID, Arc<Annotations>>,
    ) -> (prototypes: Vec<PolicyPrototype<'a>>)
        ensures
            prototype_views(prototypes@) == satisfied_residuals_of(effect, map.entry_seq()),
    {
        let entries = map.entries();
        let expr = self.true_expr();
        let mut prototypes: Vec<PolicyPrototype<'a>> = Vec::new();
        let mut i: usize = 0;
        while i < entries.len()
            invariant
                i <= entries.len(),
                prototypes.len() == i,
                expr@ == model::bool_expr(true),
                forall|j: int|
                    0 <= j < i ==> #[trigger] prototypes@[j] == (
                        effect,
                        &entries@[j].0,
                        expr,
                        &entries@[j].1,
                    ),
            decreases entries.len() - i,
        {
            prototypes.push((effect, &entries[i].0, expr, &entries[i].1));
            i += 1;
        }
        assert(prototype_views(prototypes@) =~= satisfied_residuals_of(effect, map.entry_seq()));
        prototypes
    }

    /// The residuals of policies that are not satisfied.
    pub(crate) fn unsatisfied<'a>(
        &'a self,
        effect: Effect,
        map: &'a TextMap<PolicyID, (ErrorState, Arc<Annotations>)>,
    ) -> (prototypes: Vec<PolicyPrototype<'a>>)
        ensures
            prototype_views(prototypes@) == false_residuals_of(effect, map.entry_seq()),
    {
        let entries = map.entries();
        let expr = self.false_expr();
        let mut prototypes: Vec<PolicyPrototype<'a>> = Vec::new();
        let mut i: usize = 0;
        while i < entries.len()
            invariant
                i <= entries.len(),
                prototypes.len() == i,
                expr@ == model::bool_expr(false),
                forall|j: int|
                    0 <= j < i ==> #[trigger] prototypes@[j] == (
                        effect,
                        &entries@[j].0,
                        expr,
                        &entries@[j].1.1,
                    ),
            decreases entries.len() - i,
        {
            prototypes.push((effect, &entries[i].0, expr, &entries[i].1.1));
            i += 1;
        }
        assert(prototype_views(prototypes@) =~= false_residuals_of(effect, map.entry_seq()));
        prototypes
    }
}

impl Clone for TrivialExprs {
    fn clone(&self) -> (copy: Self)
        ensures
            copy.true_view() == self.true_view(),
            copy.false_view() == self.false_view(),
    {
        proof {
            use_type_invariant(self);
        }
        TrivialExprs { true_expr: self.true_expr.clone(), false_expr: self.false_expr.clone() }
    }
}

/// Builds a policy from a prototype.
pub fn construct_policy(prototype: PolicyPrototype<'_>) -> (policy: Policy)
    ensures
        policy@ == prototype_view(prototype).policy(),
{
    let (effect, id, expr, annotations) = prototype;
    Policy::from_when_clause_annos(effect, expr.clone(), id.clone(), annotations.clone())
}

/// Builds a policy from each of several prototypes.
pub(crate) fn construct_policies(prototypes: &Vec<PolicyPrototype<'_>>) -> (policies: Vec<Policy>)
    ensures
        policy::policy_views(policies@) == model::residual_policies(prototype_views(prototypes@)),
{
    let mut policies: Vec<Policy> = Vec::new();
    let mut i: usize = 0;
    while i < prototypes.len()
        invariant
            i <= prototypes.len(),
            policies.len() == i,
            forall|j: int|
                0 <= j < i ==> (#[trigger] policies@[j])@ == prototype_view(
                    prototypes@[j],
                ).policy(),
        decreases prototypes.len() - i,
    {
        policies.push(construct_policy(prototypes[i]));
        i += 1;
    }
    assert(policy::policy_views(policies@) =~= model::residual_policies(
        prototype_views(prototypes@),
    ));
    policies
}

/// The residuals of policies with a nontrivial one.
pub(crate) fn nontrivial<'a>(
    effect: Effect,
    map: &'a TextMap<PolicyID, (Arc<Expr>, Arc<Annotations>)>,
) -> (prototypes: Vec<PolicyPrototype<'a>>)
    ensures
        prototype_views(prototypes@) == nontrivial_residuals_of(effect, map.entry_seq()),
{
    let entries = map.entries();
    let mut prototypes: Vec<PolicyPrototype<'a>> = Vec::new();
    let mut i: usize = 0;
    while i < entries.len()
        invariant
            i <= entries.len(),
            prototypes.len() == i,
            forall|j: int|
                0 <= j < i ==> #[trigger] prototypes@[j] == (
                    effect,
                    &entries@[j].0,
                    &entries@[j].1.0,
                    &entries@[j].1.1,
                ),
        decreases entries.len() - i,
    {
        prototypes.push((effect, &entries[i].0, &entries[i].1.0, &entries[i].1.1));
        i += 1;
    }
    assert(prototype_views(prototypes@) =~= nontrivial_residuals_of(effect, map.entry_seq()));
    prototypes
}

/// Builds a policy from a prototype, with the mapped values in the place of unknowns.
pub(crate) fn map_unknowns(
    mapping: &TextMap<SmolStr, Value>,
    prototype: PolicyPrototype<'_>,
) -> (policy: Policy)
    ensures
        policy@ == prototype_view(prototype).substitute(mapping@).policy(),
{
    let (effect, id, expr, annotations) = prototype;
    Policy::from_when_clause_annos(
        effect,
        Arc::new(expr.substitute(mapping)),
        id.clone(),
        annotations.clone(),
    )
}

} // verus!
