//! Decisions, errors and the response to an authorization request.

use vstd::prelude::*;

use crate::expr::{Expr, ExprView};
use crate::policy_id::PolicyID;
use crate::text;
use crate::text::{TextKey, TextMap};

verus! {

/// The decision on an authorization request.
#[derive(Debug, Clone, Copy, PartialEq, Eq, Hash, Structural)]
pub enum Decision {
    /// The request is allowed
    Allow,
    /// The request is denied
    Deny,
}

/// Why the evaluation of an expression gave no value.
#[derive(Debug, PartialEq, Eq)]
pub enum EvaluationError {
    /// An expression is not a value: it is left over from a partial evaluation
    NonValue {
        /// The expression
        expr: Expr,
    },
    /// The evaluator failed
    Failed {
        /// The evaluator's message
        message: String,
    },
}

/// The content of an [`EvaluationError`].
pub enum EvaluationErrorView {
    /// See [`EvaluationError::NonValue`]
    NonValue(ExprView),
    /// See [`EvaluationError::Failed`]
    Failed(Seq<char>),
}

impl View for EvaluationError {
    type V = EvaluationErrorView;

    open spec fn view(&self) -> EvaluationErrorView {
        match self {
            EvaluationError::NonValue { expr } => EvaluationErrorView::NonValue(expr@),
            EvaluationError::Failed { message } => EvaluationErrorView::Failed(message@),
        }
    }
}

impl EvaluationError {
    /// The error of an expression that is not a value.
    pub fn non_value(expr: Expr) -> (error: Self)
        ensures
            error@ == EvaluationErrorView::NonValue(expr@),
    {
        EvaluationError::NonValue { expr }
    }
}

impl Clone for EvaluationError {
    fn clone(&self) -> (copy: Self)
        ensures
            copy@ == self@,
    {
        match self {
            EvaluationError::NonValue { expr } => EvaluationError::NonValue { expr: expr.clone() },
            EvaluationError::Failed { message } => EvaluationError::Failed {
                message: message.clone(),
            },
        }
    }
}

/// An error in the course of an authorization.
#[derive(Debug, PartialEq, Eq)]
pub enum AuthorizationError {
    /// A policy could not be evaluated
    PolicyEvaluationError {
        /// The identifier of the policy
        id: PolicyID,
        /// Why it could not be evaluated
        error: EvaluationError,
    },
}

/// The content of an [`AuthorizationError`].
pub enum AuthorizationErrorView {
    /// See [`AuthorizationError::PolicyEvaluationError`]
    PolicyEvaluationError {
        /// The text of the identifier of the policy
        id: Seq<char>,
        /// Why it could not be evaluated
        error: EvaluationErrorView,
    },
}

impl View for AuthorizationError {
    type V = AuthorizationErrorView;

    open spec fn view(&self) -> AuthorizationErrorView {
        match self {
            AuthorizationError::PolicyEvaluationError { id, error } =>
                AuthorizationErrorView::PolicyEvaluationError { id: id.text(), error: error@ },
        }
    }
}

impl Clone for AuthorizationError {
    fn clone(&self) -> (copy: Self)
        ensures
            copy@ == self@,
    {
        match self {
            AuthorizationError::PolicyEvaluationError { id, error } =>
                AuthorizationError::PolicyEvaluationError { id: id.clone(), error: error.clone() },
        }
    }
}

/// The contents of several errors, in order.
pub open spec fn error_views(errors: Seq<AuthorizationError>) -> Seq<AuthorizationErrorView> {
    errors.map_values(|e: AuthorizationError| e@)
}

/// How a decision came about.
#[derive(Debug, PartialEq, Eq)]
pub struct Diagnostics {
    /// The identifiers of the policies that determined the decision, each of them once
    pub reason: TextMap<PolicyID, ()>,
    /// The errors
    pub errors: Vec<AuthorizationError>,
}

/// The response to an authorization request.
#[derive(Debug, PartialEq, Eq)]
pub struct Response {
    /// The decision
    pub decision: Decision,
    /// How it came about
    pub diagnostics: Diagnostics,
}

impl Response {
    /// The response with the given decision, determining policies and errors.
    pub fn new(
        decision: Decision,
        reason: Vec<PolicyID>,
        errors: Vec<AuthorizationError>,
    ) -> (response: Self)
        ensures
            response.decision == decision,
            response.diagnostics.reason@.dom() == text::texts(reason@).to_set(),
            response.diagnostics.errors == errors,
    {
        let ghost ids = reason@;
        let mut pairs: Vec<(PolicyID, ())> = Vec::new();
        for id in it: reason
            invariant
                it.seq() == ids,
                pairs.len() == it.index(),
                text::pair_texts(pairs@) == text::texts(ids.take(it.index() as int)),
        {
            let ghost n = it.index() as int;
            let ghost before = pairs@;
            pairs.push((id, ()));
            proof {
                assert(text::pair_texts(pairs@) =~= text::pair_texts(before).push(
                    id.text(),
                ));
                assert(text::texts(ids.take(n + 1)) =~= text::texts(
                    ids.take(n),
                ).push(id.text()));
            }
        }
        proof {
            assert(ids.take(ids.len() as int) =~= ids);
            text::lemma_collected_dom(pairs@);
        }
        Response {
            decision,
            diagnostics: Diagnostics { reason: TextMap::from_pairs(pairs), errors },
        }
    }
}

} // verus!
