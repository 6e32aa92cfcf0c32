//! The mathematical model of a partial response.

use std::sync::Arc;
use vstd::prelude::*;

use crate::authorizer::Evaluation;
use crate::expr::{ExprView, LiteralView, Value};
use crate::partial_response::ErrorState;
use crate::policy::{Annotations, Effect, PolicyView};
use crate::response::{AuthorizationErrorView, Decision};

verus! {

/// The literal expression `true` or `false`.
pub open spec fn bool_expr(b: bool) -> ExprView {
    ExprView::Lit(LiteralView::Bool(b))
}

/// The residual of one policy: what a policy can be built from.
pub struct ResidualView {
    /// The effect of the policy
    pub effect: Effect,
    /// The identifier of the policy
    pub id: Seq<char>,
    /// The condition that is left of the policy
    pub expr: ExprView,
    /// The annotations of the policy
    pub annotations: Arc<Annotations>,
}

impl ResidualView {
    /// The policy with the residual as its condition.
    pub open spec fn policy(self) -> PolicyView {
        PolicyView::from_when_clause(self.effect, self.expr, self.id, self.annotations)
    }

    /// The residual with values in the place of unknowns.
    pub open spec fn substitute(self, definitions: Map<Seq<char>, Value>) -> ResidualView {
        ResidualView { expr: self.expr.substitute(definitions), ..self }
    }
}

/// The policies that several residuals make, in order.
pub open spec fn residual_policies(residuals: Seq<ResidualView>) -> Seq<PolicyView> {
    residuals.map_values(|r: ResidualView| r.policy())
}

/// Several residuals with values in the place of unknowns.
pub open spec fn substitute_residuals(
    residuals: Seq<ResidualView>,
    definitions: Map<Seq<char>, Value>,
) -> Seq<ResidualView> {
    residuals.map_values(|r: ResidualView| r.substitute(definitions))
}

/// The decision where exactly the policies of the two sets are satisfied: a satisfied forbid
/// overrides every permit, and without a satisfied permit the request is denied.
pub open spec fn concrete_decision(permits: Set<Seq<char>>, forbids: Set<Seq<char>>) -> Decision {
    if !permits.is_empty() && forbids.is_empty() {
        Decision::Allow
    } else {
        Decision::Deny
    }
}

/// The policies that determine the decision where exactly the policies of the two sets are
/// satisfied: the forbids if there are any, else the permits.
pub open spec fn concrete_determining(permits: Set<Seq<char>>, forbids: Set<Seq<char>>) -> Set<
    Seq<char>,
> {
    if forbids.is_empty() {
        permits
    } else {
        forbids
    }
}

/// How a policy stands after a partial evaluation.
pub enum Standing {
    /// It is satisfied
    Satisfied,
    /// It is not satisfied
    False,
    /// It has a residual
    Residual,
}

impl Standing {
    /// How a policy stands by what its evaluation gave.
    pub open spec fn of(outcome: Evaluation) -> Standing {
        match outcome {
            Evaluation::Value(true) => Standing::Satisfied,
            Evaluation::Value(false) => Standing::False,
            Evaluation::Residual(_) => Standing::Residual,
            Evaluation::Error(_) => Standing::False,
        }
    }
}

/// What a partial response says, by the identifiers of the policies.
pub struct PartialResponseView {
    /// The permits that are satisfied
    pub satisfied_permits: Map<Seq<char>, Arc<Annotations>>,
    /// The permits that are not satisfied
    pub false_permits: Map<Seq<char>, (ErrorState, Arc<Annotations>)>,
    /// The permits with a residual
    pub residual_permits: Map<Seq<char>, (ExprView, Arc<Annotations>)>,
    /// The forbids that are satisfied
    pub satisfied_forbids: Map<Seq<char>, Arc<Annotations>>,
    /// The forbids that are not satisfied
    pub false_forbids: Map<Seq<char>, (ErrorState, Arc<Annotations>)>,
    /// The forbids with a residual
    pub residual_forbids: Map<Seq<char>, (ExprView, Arc<Annotations>)>,
    /// The errors
    pub errors: Seq<AuthorizationErrorView>,
}

impl PartialResponseView {
    /// The response on no policy at all.
    pub open spec fn empty() -> PartialResponseView {
        PartialResponseView {
            satisfied_permits: Map::empty(),
            false_permits: Map::empty(),
            residual_permits: Map::empty(),
            satisfied_forbids: Map::empty(),
            false_forbids: Map::empty(),
            residual_forbids: Map::empty(),
            errors: Seq::empty(),
        }
    }

    /// The policies with the given effect that stand as given.
    pub open spec fn ids(self, effect: Effect, standing: Standing) -> Set<Seq<char>> {
        match (effect, standing) {
            (Effect::Permit, Standing::Satisfied) => self.satisfied_permits.dom(),
            (Effect::Permit, Standing::False) => self.false_permits.dom(),
            (Effect::Permit, Standing::Residual) => self.residual_permits.dom(),
            (Effect::Forbid, Standing::Satisfied) => self.satisfied_forbids.dom(),
            (Effect::Forbid, Standing::False) => self.false_forbids.dom(),
            (Effect::Forbid, Standing::Residual) => self.residual_forbids.dom(),
        }
    }

    /// No policy stands in two categories.
    pub open spec fn disjoint(self) -> bool {
        forall|id: Seq<char>, e1: Effect, s1: Standing, e2: Effect, s2: Standing|
            #![trigger self.ids(e1, s1).contains(id), self.ids(e2, s2).contains(id)]
            self.ids(e1, s1).contains(id) && self.ids(e2, s2).contains(id) ==> e1 == e2 && s1 == s2
    }

    /// With the given effect and identifier, the other response has what this one has, but that
    /// a residual may have come to stand otherwise.
    pub open spec fn refined_at(
        self,
        other: PartialResponseView,
        effect: Effect,
        id: Seq<char>,
    ) -> bool {
        let satisfied = self.ids(effect, Standing::Satisfied).contains(id);
        let unsatisfied = self.ids(effect, Standing::False).contains(id);
        let residual = self.ids(effect, Standing::Residual).contains(id);
        let now_satisfied = other.ids(effect, Standing::Satisfied).contains(id);
        let now_unsatisfied = other.ids(effect, Standing::False).contains(id);
        let still_residual = other.ids(effect, Standing::Residual).contains(id);
        &&& satisfied ==> now_satisfied
        &&& unsatisfied ==> now_unsatisfied
        &&& residual ==> now_satisfied || now_unsatisfied || still_residual
        &&& now_satisfied ==> satisfied || residual
        &&& now_unsatisfied ==> unsatisfied || residual
        &&& still_residual ==> residual
    }

    /// The other response is on the same policies, and only residuals have come to stand
    /// otherwise.
    pub open spec fn refined_by(self, other: PartialResponseView) -> bool {
        forall|effect: Effect, id: Seq<char>| #[trigger] self.refined_at(other, effect, id)
    }

    /// The decision that the response fixes: denial if a forbid is satisfied or no permit is or
    /// may be satisfied; permission if a permit is satisfied and no forbid is or may be.
    pub open spec fn decision(self) -> Option<Decision> {
        if !self.satisfied_forbids.dom().is_empty() || (self.satisfied_permits.dom().is_empty()
            && self.residual_permits.dom().is_empty()) {
            Some(Decision::Deny)
        } else if !self.satisfied_permits.dom().is_empty()
            && self.residual_forbids.dom().is_empty() {
            Some(Decision::Allow)
        } else {
            None
        }
    }

    /// The policies that are satisfied.
    pub open spec fn definitely_satisfied(self) -> Set<Seq<char>> {
        self.satisfied_permits.dom().union(self.satisfied_forbids.dom())
    }

    /// Whether the evaluation of the policy failed.
    pub open spec fn errored(self, id: Seq<char>) -> bool {
        ||| self.false_permits.contains_key(id) && self.false_permits[id].0 is Error
        ||| self.false_forbids.contains_key(id) && self.false_forbids[id].0 is Error
    }

    /// The policies that may come to determine the decision.
    pub open spec fn may_be_determining(self) -> Set<Seq<char>> {
        if self.satisfied_forbids.dom().is_empty() {
            self.satisfied_permits.dom().union(self.residual_permits.dom()).union(
                self.residual_forbids.dom(),
            )
        } else {
            self.satisfied_forbids.dom().union(self.residual_forbids.dom())
        }
    }

    /// The policies that determine the decision whatever the unknowns are.
    pub open spec fn must_be_determining(self) -> Set<Seq<char>> {
        if self.satisfied_forbids.dom().is_empty() && self.residual_forbids.dom().is_empty() {
            self.satisfied_permits.dom()
        } else {
            self.satisfied_forbids.dom()
        }
    }

    /// The policies with a residual.
    pub open spec fn nontrivial_residual_ids(self) -> Set<Seq<char>> {
        self.residual_permits.dom().union(self.residual_forbids.dom())
    }

    /// The condition that is left of a policy: `true` if it is satisfied, `false` if it is not,
    /// and its residual if it has one; a permit comes before a forbid.
    pub open spec fn get(self, id: Seq<char>) -> Option<ExprView> {
        if self.satisfied_permits.contains_key(id) || self.satisfied_forbids.contains_key(id) {
            Some(bool_expr(true))
        } else if self.false_permits.contains_key(id) || self.false_forbids.contains_key(id) {
            Some(bool_expr(false))
        } else if self.residual_permits.contains_key(id) {
            Some(self.residual_permits[id].0)
        } else if self.residual_forbids.contains_key(id) {
            Some(self.residual_forbids[id].0)
        } else {
            None
        }
    }

    /// The response with one more policy, entered by what its evaluation gave. An error makes
    /// the policy a false one.
    pub open spec fn enter(self, policy: PolicyView, outcome: Evaluation) -> PartialResponseView {
        let id = policy.id;
        let annotations = policy.annotations;
        match (outcome, policy.effect) {
            (Evaluation::Value(true), Effect::Permit) => PartialResponseView {
                satisfied_permits: self.satisfied_permits.insert(id, annotations),
                ..self
            },
            (Evaluation::Value(true), Effect::Forbid) => PartialResponseView {
                satisfied_forbids: self.satisfied_forbids.insert(id, annotations),
                ..self
            },
            (Evaluation::Value(false), Effect::Permit) => PartialResponseView {
                false_permits: self.false_permits.insert(id, (ErrorState::NoError, annotations)),
                ..self
            },
            (Evaluation::Value(false), Effect::Forbid) => PartialResponseView {
                false_forbids: self.false_forbids.insert(id, (ErrorState::NoError, annotations)),
                ..self
            },
            (Evaluation::Residual(expr), Effect::Permit) => PartialResponseView {
                residual_permits: self.residual_permits.insert(id, (expr@, annotations)),
                ..self
            },
            (Evaluation::Residual(expr), Effect::Forbid) => PartialResponseView {
                residual_forbids: self.residual_forbids.insert(id, (expr@, annotations)),
                ..self
            },
            (Evaluation::Error(error), Effect::Permit) => PartialResponseView {
                false_permits: self.false_permits.insert(id, (ErrorState::Error, annotations)),
                errors: self.errors.push(
                    AuthorizationErrorView::PolicyEvaluationError { id, error: error@ },
                ),
                ..self
            },
            (Evaluation::Error(error), Effect::Forbid) => PartialResponseView {
                false_forbids: self.false_forbids.insert(id, (ErrorState::Error, annotations)),
                errors: self.errors.push(
                    AuthorizationErrorView::PolicyEvaluationError { id, error: error@ },
                ),
                ..self
            },
        }
    }

    /// The response on several policies, by what the evaluation of each of them gave.
    pub open spec fn classify(
        policies: Seq<PolicyView>,
        outcomes: Seq<Evaluation>,
    ) -> PartialResponseView
        decreases policies.len(),
    {
        if policies.len() == 0 {
            Self::empty()
        } else {
            Self::classify(policies.drop_last(), outcomes.drop_last()).enter(
                policies.last(),
                outcomes.last(),
            )
        }
    }
}

/// A policy stands in a category of the response on several policies if it was entered there.
pub proof fn lemma_classify_ids(
    policies: Seq<PolicyView>,
    outcomes: Seq<Evaluation>,
    effect: Effect,
    standing: Standing,
    id: Seq<char>,
)
    requires
        policies.len() == outcomes.len(),
    ensures
        PartialResponseView::classify(policies, outcomes).ids(effect, standing).contains(id)
            <==> exists|i: int|
            #![trigger policies[i]]
            0 <= i < policies.len() && policies[i].id == id && policies[i].effect == effect
                && Standing::of(outcomes[i]) == standing,
    decreases policies.len(),
{
    if policies.len() > 0 {
        let (ps, os) = (policies.drop_last(), outcomes.drop_last());
        lemma_classify_ids(ps, os, effect, standing, id);
        assert(policies.last() == policies[policies.len() - 1]);
        assert(outcomes.last() == outcomes[outcomes.len() - 1]);
        let before = PartialResponseView::classify(ps, os).ids(effect, standing);
        let entered = policies.last().id == id && policies.last().effect == effect && Standing::of(
            outcomes.last(),
        ) == standing;
        assert(PartialResponseView::classify(policies, outcomes).ids(effect, standing).contains(id)
            <==> before.contains(id) || entered);
        if before.contains(id) {
            let i = choose|i: int|
                #![trigger ps[i]]
                0 <= i < ps.len() && ps[i].id == id && ps[i].effect == effect && Standing::of(os[i])
                    == standing;
            assert(policies[i] == ps[i] && outcomes[i] == os[i]);
        }
        if exists|i: int|
            #![trigger policies[i]]
            0 <= i < policies.len() && policies[i].id == id && policies[i].effect == effect
                && Standing::of(outcomes[i]) == standing {
            let i = choose|i: int|
                #![trigger policies[i]]
                0 <= i < policies.len() && policies[i].id == id && policies[i].effect == effect
                    && Standing::of(outcomes[i]) == standing;
            if i < policies.len() - 1 {
                assert(policies[i] == ps[i] && outcomes[i] == os[i]);
            }
        }
    }
}

/// The response on policies with distinct identifiers has no policy in two categories.
pub proof fn lemma_classify_disjoint(policies: Seq<PolicyView>, outcomes: Seq<Evaluation>)
    requires
        policies.len() == outcomes.len(),
        crate::policy::policy_ids(policies).no_duplicates(),
    ensures
        PartialResponseView::classify(policies, outcomes).disjoint(),
{
    let response = PartialResponseView::classify(policies, outcomes);
    let ids = crate::policy::policy_ids(policies);
    assert forall|id: Seq<char>, e1: Effect, s1: Standing, e2: Effect, s2: Standing|
        #![trigger response.ids(e1, s1).contains(id), response.ids(e2, s2).contains(id)]
        response.ids(e1, s1).contains(id) && response.ids(e2, s2).contains(id) implies e1 == e2
        && s1 == s2 by {
        lemma_classify_ids(policies, outcomes, e1, s1, id);
        lemma_classify_ids(policies, outcomes, e2, s2, id);
        let i = choose|i: int|
            #![trigger policies[i]]
            0 <= i < policies.len() && policies[i].id == id && policies[i].effect == e1
                && Standing::of(outcomes[i]) == s1;
        let j = choose|j: int|
            #![trigger policies[j]]
            0 <= j < policies.len() && policies[j].id == id && policies[j].effect == e2
                && Standing::of(outcomes[j]) == s2;
        assert(ids[i] == ids[j]);
    }
}

/// Every error of the response on several policies is that of a policy whose evaluation failed.
pub proof fn lemma_classify_errors(
    policies: Seq<PolicyView>,
    outcomes: Seq<Evaluation>,
    j: int,
) -> (i: int)
    requires
        policies.len() == outcomes.len(),
        0 <= j < PartialResponseView::classify(policies, outcomes).errors.len(),
    ensures
        0 <= i < policies.len(),
        outcomes[i] is Error,
        PartialResponseView::classify(policies, outcomes).errors[j] == (
        AuthorizationErrorView::PolicyEvaluationError {
            id: policies[i].id,
            error: outcomes[i]->Error_0@,
        }),
    decreases policies.len(),
{
    let (ps, os) = (policies.drop_last(), outcomes.drop_last());
    let before = PartialResponseView::classify(ps, os).errors;
    if j < before.len() {
        lemma_classify_errors(ps, os, j)
    } else {
        policies.len() - 1
    }
}

} // verus!
