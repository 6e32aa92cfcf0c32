//! Authorization of requests, by an evaluator of policies.

use std::sync::Arc;
use vstd::prelude::*;

use crate::expr::Expr;
use crate::model::PartialResponseView;
use crate::partial_response::{ErrorState, PartialResponse};
use crate::policy::{Annotations, Effect, Policy, PolicySet, PolicyView};
use crate::policy_id::PolicyID;
use crate::response::{AuthorizationError, EvaluationError};
use crate::text::TextKey;
use crate::{model, partial_response, policy, response, text};

verus! {

/// What the partial evaluation of a policy gives.
#[derive(Debug, PartialEq, Eq)]
pub enum Evaluation {
    /// The policy is satisfied, or is not
    Value(bool),
    /// The policy depends on unknowns
    Residual(Expr),
    /// The evaluation failed
    Error(EvaluationError),
}

/// Authorizes requests. `evaluate` partially evaluates a policy for a request of type `R`,
/// against entities of type `S`.
pub struct Authorizer<F> {
    /// The evaluator
    pub evaluate: F,
}

impl<F> Authorizer<F> {
    /// The evaluator accepts every policy for the request.
    pub open spec fn total<R, S>(&self, r: R, es: &S) -> bool where
        F: Fn(&R, &S, &Policy) -> Evaluation,
     {
        forall|policy: Policy| #[trigger] call_requires(self.evaluate, (&r, es, &policy))
    }

    /// The given outcomes are what the evaluator may give for the given policies.
    pub open spec fn evaluates<R, S>(
        &self,
        r: R,
        es: &S,
        policies: Seq<Policy>,
        outcomes: Seq<Evaluation>,
    ) -> bool where F: Fn(&R, &S, &Policy) -> Evaluation {
        &&& outcomes.len() == policies.len()
        &&& forall|i: int|
            0 <= i < policies.len() ==> call_ensures(
                self.evaluate,
                (&r, es, &policies[i]),
                #[trigger] outcomes[i],
            )
    }

    /// The evaluator finds a policy whose whole condition is a literal `true` or `false`
    /// satisfied or not, accordingly.
    pub open spec fn decides_literals<R, S>(&self, r: R, es: &S) -> bool where
        F: Fn(&R, &S, &Policy) -> Evaluation,
     {
        forall|policy: Policy, outcome: Evaluation, b: bool|
            #![trigger
                call_ensures(self.evaluate, (&r, es, &policy), outcome),
                model::bool_expr(b)
            ]
            call_ensures(self.evaluate, (&r, es, &policy), outcome) && policy@
                == PolicyView::from_when_clause(
                policy@.effect,
                model::bool_expr(b),
                policy@.id,
                policy@.annotations,
            ) ==> outcome == Evaluation::Value(b)
    }

    /// The partial response to a request: every policy of the set, by what the evaluator gives for
    /// it.
    pub fn is_authorized_core<R, S>(&self, r: R, pset: &PolicySet, es: &S) -> (response:
        PartialResponse) where F: Fn(&R, &S, &Policy) -> Evaluation
        requires
            self.total(r, es),
        ensures
            exists|outcomes: Seq<Evaluation>|
                #![trigger self.evaluates(r, es, pset@, outcomes)]
                self.evaluates(r, es, pset@, outcomes) && response@
                    == PartialResponseView::classify(policy::policy_views(pset@), outcomes),
            response@.disjoint(),
            response.well_formed(),
    {
        let policies = pset.policies();
        let mut true_permits: Vec<(PolicyID, Arc<Annotations>)> = Vec::new();
        let mut false_permits: Vec<(PolicyID, (ErrorState, Arc<Annotations>))> = Vec::new();
        let mut residual_permits: Vec<(PolicyID, (Arc<Expr>, Arc<Annotations>))> = Vec::new();
        let mut true_forbids: Vec<(PolicyID, Arc<Annotations>)> = Vec::new();
        let mut false_forbids: Vec<(PolicyID, (ErrorState, Arc<Annotations>))> = Vec::new();
        let mut residual_forbids: Vec<(PolicyID, (Arc<Expr>, Arc<Annotations>))> = Vec::new();
        let mut errors: Vec<AuthorizationError> = Vec::new();
        let ghost views = policy::policy_views(policies@);
        let ghost mut outcomes: Seq<Evaluation> = Seq::empty();
        let mut i: usize = 0;
        proof {
            assert(partial_response::residual_map(Map::empty()) =~= Map::empty());
            assert(response::error_views(errors@) =~= Seq::empty());
        }
        while i < policies.len()
            invariant
                i <= policies.len(),
                self.total(r, es),
                views == policy::policy_views(policies@),
                outcomes.len() == i,
                forall|j: int|
                    0 <= j < i ==> call_ensures(
                        self.evaluate,
                        (&r, es, &policies@[j]),
                        #[trigger] outcomes[j],
                    ),
                ({
                    let response = PartialResponseView::classify(views.take(i as int), outcomes);
                    &&& text::collected(true_permits@) == response.satisfied_permits
                    &&& text::collected(false_permits@) == response.false_permits
                    &&& partial_response::residual_map(text::collected(residual_permits@))
                        == response.residual_permits
                    &&& text::collected(true_forbids@) == response.satisfied_forbids
                    &&& text::collected(false_forbids@) == response.false_forbids
                    &&& partial_response::residual_map(text::collected(residual_forbids@))
                        == response.residual_forbids
                    &&& response::error_views(errors@) == response.errors
                }),
            decreases policies.len() - i,
        {
            let policy = &policies[i];
            let outcome = (self.evaluate)(&r, es, policy);
            let ghost before = outcomes;
            proof {
                outcomes = outcomes.push(outcome);
                assert(outcomes.drop_last() =~= before);
                assert(views.take(i + 1).drop_last() =~= views.take(i as int));
                assert(views.take(i + 1).last() == policy@);
            }
            let id = policy.id().clone();
            let annotations = policy.annotations_arc().clone();
            match outcome {
                Evaluation::Value(true) => match policy.effect() {
                    Effect::Permit => {
                        let entry = (id, annotations);
                        proof {
                            text::lemma_collected_push(true_permits@, entry);
                        }
                        true_permits.push(entry);
                    },
                    Effect::Forbid => {
                        let entry = (id, annotations);
                        proof {
                            text::lemma_collected_push(true_forbids@, entry);
                        }
                        true_forbids.push(entry);
                    },
                },
                Evaluation::Value(false) => match policy.effect() {
                    Effect::Permit => {
                        let entry = (id, (ErrorState::NoError, annotations));
                        proof {
                            text::lemma_collected_push(false_permits@, entry);
                        }
                        false_permits.push(entry);
                    },
                    Effect::Forbid => {
                        let entry = (id, (ErrorState::NoError, annotations));
                        proof {
                            text::lemma_collected_push(false_forbids@, entry);
                        }
                        false_forbids.push(entry);
                    },
                },
                Evaluation::Residual(expr) => match policy.effect() {
                    Effect::Permit => {
                        let entry = (id, (Arc::new(expr), annotations));
                        proof {
                            text::lemma_collected_push(residual_permits@, entry);
                            partial_response::lemma_residual_map_insert(
                                text::collected(residual_permits@),
                                entry.0.text(),
                                entry.1,
                            );
                        }
                        residual_permits.push(entry);
                    },
                    Effect::Forbid => {
                        let entry = (id, (Arc::new(expr), annotations));
                        proof {
                            text::lemma_collected_push(residual_forbids@, entry);
                            partial_response::lemma_residual_map_insert(
                                text::collected(residual_forbids@),
                                entry.0.text(),
                                entry.1,
                            );
                        }
                        residual_forbids.push(entry);
                    },
                },
                Evaluation::Error(error) => {
                    let error = AuthorizationError::PolicyEvaluationError { id: id.clone(), error };
                    let ghost reported = errors@;
                    errors.push(error);
                    assert(response::error_views(errors@) =~= response::error_views(reported).push(
                        error@,
                    ));
                    match policy.effect() {
                        Effect::Permit => {
                            let entry = (id, (ErrorState::Error, annotations));
                            proof {
                                text::lemma_collected_push(false_permits@, entry);
                            }
                            false_permits.push(entry);
                        },
                        Effect::Forbid => {
                            let entry = (id, (ErrorState::Error, annotations));
                            proof {
                                text::lemma_collected_push(false_forbids@, entry);
                            }
                            false_forbids.push(entry);
                        },
                    }
                },
            }
            i += 1;
        }
        let response = PartialResponse::new(
            true_permits,
            false_permits,
            residual_permits,
            true_forbids,
            false_forbids,
            residual_forbids,
            errors,
        );
        proof {
            assert(views.take(i as int) =~= views);
            assert(self.evaluates(r, es, pset@, outcomes));
            model::lemma_classify_disjoint(views, outcomes);
        }
        response
    }
}

} // verus!
